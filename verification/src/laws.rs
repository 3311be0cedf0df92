//! The library's global laws, stated and proved over the same spec
//! functions the executable contracts use: determinism of the whole
//! compile, the pagination arithmetic, the ordering of the flattened page
//! sequence, and the fate of a build with a slug collision.

use vstd::prelude::*;
use vstd::arithmetic::mul::lemma_mul_inequality;
use crate::compile::{
    BuildErrorModel, SourceDocModel, distinct_slugs, find_collision, lemma_find_collision,
    spec_compile, spec_posts_of,
};
use crate::order::{post_le, sorted_posts};
use crate::paginate::{
    PageDataModel, lemma_page_bounds, page_end, spec_page, spec_summaries, spec_total_pages,
};
use crate::post::{Category, PostModel};
use crate::site::SiteConfigModel;
use crate::text;

verus! {

/// Compiling the same unchanged inputs plans the same outputs, byte for
/// byte: the whole compile is a function of the source documents and the
/// configuration alone.  Together with the executable compile's contract —
/// its result equals `spec_compile` of its inputs — two runs over equal
/// inputs return equal plans.
pub proof fn lemma_compile_deterministic(
    posts_a: Seq<SourceDocModel>,
    archives_a: Seq<SourceDocModel>,
    cfg_a: SiteConfigModel,
    posts_b: Seq<SourceDocModel>,
    archives_b: Seq<SourceDocModel>,
    cfg_b: SiteConfigModel,
)
    requires
        posts_a == posts_b,
        archives_a == archives_b,
        cfg_a == cfg_b,
    ensures
        spec_compile(posts_a, archives_a, cfg_a) == spec_compile(posts_b, archives_b, cfg_b),
{
}

/// The listing pages of one category, in page order.
pub open spec fn pages_of(s: Seq<PostModel>, p: int) -> Seq<PageDataModel> {
    Seq::new(spec_total_pages(s.len() as int, p) as nat, |k: int| spec_page(s, p, k))
}

/// The number of post summaries carried by a page list.
pub open spec fn items_count(pages: Seq<PageDataModel>) -> int
    decreases pages.len(),
{
    if pages.len() == 0 {
        0
    } else {
        items_count(pages.drop_last()) + pages.last().items.len()
    }
}

proof fn lemma_items_count_prefix(s: Seq<PostModel>, p: int, k: int)
    requires
        p >= 1,
        0 <= k <= spec_total_pages(s.len() as int, p),
    ensures
        items_count(pages_of(s, p).take(k)) == if k * p <= s.len() {
            k * p
        } else {
            s.len() as int
        },
    decreases k,
{
    let c = s.len() as int;
    let pages = pages_of(s, p);
    if k == 0 {
        assert(pages.take(0) =~= Seq::<PageDataModel>::empty());
        assert(0 * p == 0) by (nonlinear_arith);
    } else {
        lemma_items_count_prefix(s, p, k - 1);
        assert(pages.take(k).drop_last() =~= pages.take(k - 1));
        assert(pages.take(k).last() == spec_page(s, p, k - 1));
        lemma_page_bounds(c, p, k - 1);
        assert(spec_page(s, p, k - 1).items.len() == page_end(c, p, k - 1) - (k - 1) * p);
        assert(k * p == (k - 1) * p + p) by (nonlinear_arith);
        assert((k - 1) * p <= k * p);
        if k * p <= c {
            assert(page_end(c, p, k - 1) == k * p);
        } else {
            assert(page_end(c, p, k - 1) == c);
        }
    }
}

/// The pagination law: for `c` posts at page size `p` there are exactly
/// `max(1, ceil(c / p))` listing pages — at least one, exactly one when the
/// category is empty, and otherwise the fewest pages of at most `p` items —
/// and the items of all pages together hold exactly the `c` posts.
pub proof fn lemma_pagination_math(s: Seq<PostModel>, p: int)
    requires
        p >= 1,
    ensures
        pages_of(s, p).len() == spec_total_pages(s.len() as int, p),
        spec_total_pages(s.len() as int, p) >= 1,
        s.len() == 0 ==> spec_total_pages(s.len() as int, p) == 1,
        s.len() > 0 ==> (spec_total_pages(s.len() as int, p) - 1) * p < s.len(),
        spec_total_pages(s.len() as int, p) * p >= s.len(),
        items_count(pages_of(s, p)) == s.len(),
{
    let c = s.len() as int;
    let tp = spec_total_pages(c, p);
    lemma_page_bounds(c, p, 0);
    if c > 0 {
        lemma_page_bounds(c, p, tp - 1);
        assert(tp * p == (tp - 1) * p + p) by (nonlinear_arith);
    }
    lemma_items_count_prefix(s, p, tp);
    assert(pages_of(s, p).take(tp) =~= pages_of(s, p));
    if tp * p <= c {
        assert(tp * p == c);
    }
}

/// The ordering law: across the flattened page sequence of a sorted
/// category, whatever comes earlier — on an earlier page, or earlier on the
/// same page — has a publish date no older than whatever comes later, and
/// two entries of equal date stand in ascending slug order.  In particular
/// a post with a strictly newer publish date always precedes one with an
/// older date.
pub proof fn lemma_flattened_ordering(s: Seq<PostModel>, p: int, k1: int, i1: int, k2: int, i2: int)
    requires
        p >= 1,
        sorted_posts(s),
        0 <= k1 < spec_total_pages(s.len() as int, p),
        0 <= k2 < spec_total_pages(s.len() as int, p),
        0 <= i1 < spec_page(s, p, k1).items.len(),
        0 <= i2 < spec_page(s, p, k2).items.len(),
        k1 < k2 || (k1 == k2 && i1 < i2),
    ensures
        ({
            let a = spec_page(s, p, k1).items[i1];
            let b = spec_page(s, p, k2).items[i2];
            &&& a.publish_date.key() >= b.publish_date.key()
            &&& (a.publish_date.key() == b.publish_date.key() ==> text::lex_le(a.slug, b.slug))
        }),
{
    let c = s.len() as int;
    lemma_page_bounds(c, p, k1);
    lemma_page_bounds(c, p, k2);
    let g1 = k1 * p + i1;
    let g2 = k2 * p + i2;
    assert(spec_page(s, p, k1).items.len() == page_end(c, p, k1) - k1 * p);
    assert(spec_page(s, p, k2).items.len() == page_end(c, p, k2) - k2 * p);
    assert((k1 + 1) * p == k1 * p + p) by (nonlinear_arith);
    assert((k2 + 1) * p == k2 * p + p) by (nonlinear_arith);
    assert(g1 < page_end(c, p, k1) <= c);
    assert(g2 < page_end(c, p, k2) <= c);
    if k1 < k2 {
        lemma_mul_inequality(k1 + 1, k2, p);
        assert(g1 < (k1 + 1) * p);
        assert((k1 + 1) * p <= k2 * p);
    }
    assert(g1 < g2);
    assert(spec_page(s, p, k1).items[i1] == spec_summaries(s)[g1]);
    assert(spec_page(s, p, k2).items[i2] == spec_summaries(s)[g2]);
    assert(post_le(s[g1], s[g2]));
}

/// The uniqueness law: when all documents of both categories parse but two
/// post documents resolve to one slug, the whole build fails with a
/// collision error that carries that slug and the source paths of both
/// offending documents — so no output plan exists, and nothing is written.
pub proof fn lemma_collision_fails_build(
    posts_docs: Seq<SourceDocModel>,
    archive_docs: Seq<SourceDocModel>,
    cfg: SiteConfigModel,
    ps: Seq<PostModel>,
)
    requires
        spec_posts_of(posts_docs, Category::Post, cfg.excerpt_length) == Ok::<
            Seq<PostModel>,
            BuildErrorModel,
        >(ps),
        spec_posts_of(archive_docs, Category::Archive, cfg.excerpt_length) is Ok,
        !distinct_slugs(ps),
    ensures
        spec_compile(posts_docs, archive_docs, cfg) matches Err(e) && (e matches
            BuildErrorModel::Collision(ce) && exists|i: int, j: int|
            0 <= i < j < ps.len() && (#[trigger] ps[i]).slug == (#[trigger] ps[j]).slug
                && ce.slug == ps[i].slug && ce.first_path == ps[i].source_path && ce.second_path
                == ps[j].source_path),
{
    lemma_find_collision(ps);
    let pr = find_collision(ps)->Some_0;
    let ce = crate::compile::collision_of(ps, pr);
    assert(spec_compile(posts_docs, archive_docs, cfg) == Err::<
        Seq<crate::compile::FileWriteModel>,
        BuildErrorModel,
    >(BuildErrorModel::Collision(ce)));
    assert(0 <= pr.0 < pr.1 < ps.len() && ps[pr.0].slug == ps[pr.1].slug && ce.slug == ps[pr.0].slug
        && ce.first_path == ps[pr.0].source_path && ce.second_path == ps[pr.1].source_path);
}

} // verus!
