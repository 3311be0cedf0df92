//! Pagination: the ordered post collection of one category, partitioned
//! into fixed-size listing pages.  `total_pages` is `max(1, ceil(c / p))`
//! for `c` posts and page size `p`; an empty category still has one (empty)
//! page.  Every page carries its 1-based number, its post summaries, the
//! page count and the neighbour flags.

use vstd::prelude::*;
use vstd::arithmetic::div_mod::lemma_fundamental_div_mod;
use vstd::arithmetic::mul::lemma_mul_inequality;
use crate::date::Date;
use crate::front_matter;
use crate::post::{Post, PostModel};
use crate::text;

verus! {

/// A post summary as carried by a listing page (mathematical model).
pub struct PostSummaryModel {
    pub slug: Seq<u8>,
    pub title: Seq<u8>,
    pub publish_date: Date,
    pub tags: Seq<Seq<u8>>,
    pub excerpt: Seq<u8>,
}

/// A post summary as carried by a listing page.
pub struct PostSummary {
    pub slug: Vec<u8>,
    pub title: Vec<u8>,
    pub publish_date: Date,
    pub tags: Vec<Vec<u8>>,
    pub excerpt: Vec<u8>,
}

impl View for PostSummary {
    type V = PostSummaryModel;

    open spec fn view(&self) -> PostSummaryModel {
        PostSummaryModel {
            slug: self.slug@,
            title: self.title@,
            publish_date: self.publish_date,
            tags: front_matter::seqs_view(self.tags@),
            excerpt: self.excerpt@,
        }
    }
}

/// One listing page (mathematical model).
pub struct PageDataModel {
    pub page_number: int,
    pub items: Seq<PostSummaryModel>,
    pub total_pages: int,
    pub has_previous: bool,
    pub has_next: bool,
}

/// One listing page.
pub struct PageData {
    pub page_number: usize,
    pub items: Vec<PostSummary>,
    pub total_pages: usize,
    pub has_previous: bool,
    pub has_next: bool,
}

impl View for PageData {
    type V = PageDataModel;

    open spec fn view(&self) -> PageDataModel {
        PageDataModel {
            page_number: self.page_number as int,
            items: self.items@.map_values(|s: PostSummary| s@),
            total_pages: self.total_pages as int,
            has_previous: self.has_previous,
            has_next: self.has_next,
        }
    }
}

/// The summary of one post.
pub open spec fn summary_of(p: PostModel) -> PostSummaryModel {
    PostSummaryModel {
        slug: p.slug,
        title: p.title,
        publish_date: p.publish_date,
        tags: p.tags,
        excerpt: p.excerpt,
    }
}

/// The summaries of an ordered post collection, in the same order.
pub open spec fn spec_summaries(s: Seq<PostModel>) -> Seq<PostSummaryModel> {
    s.map_values(|p: PostModel| summary_of(p))
}

/// `max(1, ceil(c / p))`: the page count of `c` posts at page size `p`.
pub open spec fn spec_total_pages(c: int, p: int) -> int {
    let tp = (c + p - 1) / p;
    if tp < 1 {
        1
    } else {
        tp
    }
}

/// The boundaries of page `k` (0-based) are `k * p` to `min((k+1) * p, c)`.
pub open spec fn page_end(c: int, p: int, k: int) -> int {
    if (k + 1) * p <= c {
        (k + 1) * p
    } else {
        c
    }
}

/// The summaries carried by page `k` (0-based).
pub open spec fn page_items(s: Seq<PostModel>, p: int, k: int) -> Seq<PostSummaryModel> {
    spec_summaries(s).subrange(k * p, page_end(s.len() as int, p, k))
}

/// Page `k` (0-based) of the collection.
pub open spec fn spec_page(s: Seq<PostModel>, p: int, k: int) -> PageDataModel {
    let tp = spec_total_pages(s.len() as int, p);
    PageDataModel {
        page_number: k + 1,
        items: page_items(s, p, k),
        total_pages: tp,
        has_previous: k > 0,
        has_next: k + 1 < tp,
    }
}

/// Page starts stay strictly inside the collection: for `c > 0` and
/// `0 <= k < total_pages`, `k * p < c`; and the last page ends at `c`.
pub proof fn lemma_page_bounds(c: int, p: int, k: int)
    requires
        p >= 1,
        c >= 0,
        0 <= k < spec_total_pages(c, p),
    ensures
        c > 0 ==> k * p < c,
        c == 0 ==> k == 0,
        c == 0 ==> spec_total_pages(c, p) == 1,
        spec_total_pages(c, p) * p >= c,
        k * p <= c,
        page_end(c, p, k) <= c,
        k * p <= page_end(c, p, k),
{
    let tp = spec_total_pages(c, p);
    lemma_fundamental_div_mod(c + p - 1, p);
    if c > 0 {
        assert((c + p - 1) / p >= 1) by (nonlinear_arith)
            requires
                c >= 1,
                p >= 1,
                c + p - 1 == p * ((c + p - 1) / p) + (c + p - 1) % p,
                0 <= (c + p - 1) % p < p,
        ;
        assert(tp == (c + p - 1) / p);
        assert(k <= tp - 1);
        lemma_mul_inequality(k, tp - 1, p);
        assert((tp - 1) * p == tp * p - p) by (nonlinear_arith);
        assert(tp * p > c - p) by (nonlinear_arith)
            requires
                tp == (c + p - 1) / p,
                p >= 1,
                c + p - 1 == p * tp + (c + p - 1) % p,
                0 <= (c + p - 1) % p < p,
        ;
        assert(tp * p >= c);
        assert((tp - 1) * p < c);
        assert(k * p < c);
    } else {
        assert((p - 1) / p == 0) by (nonlinear_arith)
            requires
                p >= 1,
                p - 1 == p * ((p - 1) / p) + (p - 1) % p,
                0 <= (p - 1) % p < p,
        ;
        assert(tp == 1);
        assert(k == 0);
        assert(tp * p >= c) by (nonlinear_arith)
            requires
                tp == 1,
                p >= 1,
                c == 0,
        ;
    }
    assert(k * p >= 0) by (nonlinear_arith)
        requires
            k >= 0,
            p >= 1,
    ;
    assert((k + 1) * p == k * p + p) by (nonlinear_arith);
}

/// Copy a byte vector.
pub fn copy_bytes(v: &Vec<u8>) -> (r: Vec<u8>)
    ensures
        r@ == v@,
{
    let mut out: Vec<u8> = Vec::new();
    text::push_bytes(&mut out, v.as_slice());
    proof {
        assert(out@ =~= v@);
    }
    out
}

/// Copy a tag list.
pub fn copy_tags(v: &Vec<Vec<u8>>) -> (r: Vec<Vec<u8>>)
    ensures
        front_matter::seqs_view(r@) == front_matter::seqs_view(v@),
{
    let mut out: Vec<Vec<u8>> = Vec::new();
    let mut i: usize = 0;
    while i < v.len()
        invariant
            0 <= i <= v@.len(),
            front_matter::seqs_view(out@) == front_matter::seqs_view(v@).take(i as int),
        decreases v@.len() - i,
    {
        let e = copy_bytes(&v[i]);
        proof {
            assert(e@ == v@[i as int]@);
            assert(front_matter::seqs_view(out@).len() == i as int);
        }
        out.push(e);
        proof {
            assert(front_matter::seqs_view(out@) =~= front_matter::seqs_view(v@).take(i + 1));
        }
        i = i + 1;
    }
    proof {
        assert(front_matter::seqs_view(v@).take(v@.len() as int) =~= front_matter::seqs_view(v@));
    }
    out
}

/// The summary of one post.
pub fn summarize(p: &Post) -> (r: PostSummary)
    ensures
        r@ == summary_of(p@),
{
    PostSummary {
        slug: copy_bytes(&p.slug),
        title: copy_bytes(&p.title),
        publish_date: p.publish_date,
        tags: copy_tags(&p.tags),
        excerpt: copy_bytes(&p.excerpt),
    }
}

/// Partition an ordered post collection into its listing pages.
///
/// Exactly `max(1, ceil(c / p))` pages come back, and page `k` (0-based) is
/// exactly `spec_page`: number `k + 1`, the summaries of the posts from
/// `k * p` to `min((k + 1) * p, c)` in collection order, and the neighbour
/// flags.
pub fn paginate(posts: &Vec<Post>, page_size: usize) -> (pages: Vec<PageData>)
    requires
        page_size >= 1,
        posts@.len() + page_size <= usize::MAX,
    ensures
        pages@.len() == spec_total_pages(posts@.len() as int, page_size as int),
        forall|k: int|
            0 <= k < pages@.len() ==> (#[trigger] pages@[k])@ == spec_page(
                crate::order::posts_view(posts@),
                page_size as int,
                k,
            ),
{
    let ghost s = crate::order::posts_view(posts@);
    let ghost c = posts@.len() as int;
    let ghost p = page_size as int;
    let count = posts.len();
    let total_pages: usize = if count == 0 {
        1
    } else {
        (count - 1) / page_size + 1
    };
    proof {
        lemma_fundamental_div_mod(c - 1, p);
        lemma_fundamental_div_mod(c + p - 1, p);
        if c == 0 {
            assert((p - 1) / p == 0) by (nonlinear_arith)
                requires
                    p >= 1,
                    p - 1 == p * ((p - 1) / p) + (p - 1) % p,
                    0 <= (p - 1) % p < p,
            ;
        }
        if c > 0 {
            assert((c + p - 1) / p >= 1) by (nonlinear_arith)
                requires
                    c >= 1,
                    p >= 1,
                    c + p - 1 == p * ((c + p - 1) / p) + (c + p - 1) % p,
                    0 <= (c + p - 1) % p < p,
            ;
        }
        if c > 0 {
            assert((c - 1) / p + 1 == (c + p - 1) / p) by (nonlinear_arith)
                requires
                    p >= 1,
                    c >= 1,
                    c - 1 == p * ((c - 1) / p) + (c - 1) % p,
                    0 <= (c - 1) % p < p,
                    c + p - 1 == p * ((c + p - 1) / p) + (c + p - 1) % p,
                    0 <= (c + p - 1) % p < p,
            ;
        }
        assert(total_pages as int == spec_total_pages(c, p));
    }
    let mut pages: Vec<PageData> = Vec::new();
    let mut k: usize = 0;
    let mut pos: usize = 0;
    while k < total_pages
        invariant
            s == crate::order::posts_view(posts@),
            c == posts@.len() as int,
            p == page_size as int,
            page_size >= 1,
            posts@.len() + page_size <= usize::MAX,
            count == posts@.len(),
            total_pages as int == spec_total_pages(c, p),
            0 <= k <= total_pages,
            k < total_pages ==> pos as int == k * p,
            pos <= posts@.len(),
            pages@.len() == k,
            forall|k2: int|
                0 <= k2 < k ==> (#[trigger] pages@[k2])@ == spec_page(s, p, k2),
        decreases total_pages - k,
    {
        proof {
            lemma_page_bounds(c, p, k as int);
        }
        let end: usize = if pos + page_size <= count {
            pos + page_size
        } else {
            count
        };
        proof {
            assert((k as int + 1) * p == k * p + p) by (nonlinear_arith);
            assert(end as int == page_end(c, p, k as int));
        }
        let mut items: Vec<PostSummary> = Vec::new();
        let mut i: usize = pos;
        proof {
            assert(items@.map_values(|x: PostSummary| x@) =~= spec_summaries(s).subrange(
                pos as int,
                pos as int,
            ));
        }
        while i < end
            invariant
                s == crate::order::posts_view(posts@),
                pos <= i <= end <= posts@.len(),
                items@.map_values(|x: PostSummary| x@) == spec_summaries(s).subrange(
                    pos as int,
                    i as int,
                ),
            decreases end - i,
        {
            let e = summarize(&posts[i]);
            proof {
                assert(e@ == summary_of(posts@[i as int]@));
                assert(spec_summaries(s)[i as int] == summary_of(posts@[i as int]@));
                assert(items@.map_values(|x: PostSummary| x@).len() == i - pos);
            }
            items.push(e);
            proof {
                assert(items@.map_values(|x: PostSummary| x@) =~= spec_summaries(s).subrange(
                    pos as int,
                    i + 1,
                ));
            }
            i = i + 1;
        }
        let page = PageData {
            page_number: k + 1,
            items,
            total_pages,
            has_previous: k > 0,
            has_next: k + 1 < total_pages,
        };
        proof {
            assert(page@ == spec_page(s, p, k as int));
        }
        pages.push(page);
        if k + 1 < total_pages {
            proof {
                assert((k as int + 1) * p == k * p + p) by (nonlinear_arith);
                lemma_page_bounds(c, p, k as int + 1);
                assert(pos + page_size <= count);
            }
            pos = pos + page_size;
        }
        k = k + 1;
    }
    pages
}

} // verus!
