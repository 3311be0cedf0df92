//! Deterministic post ordering: newest publish date first, ties broken by
//! slug ascending.  The sort is pinned down as a spec function, so the
//! ordered sequence is a pure function of the input collection, independent
//! of how the posts were produced.

use vstd::prelude::*;
use vstd::multiset::Multiset;
use vstd::seq_lib::lemma_multiset_commutative;
use crate::post::{Post, PostModel};
use crate::text;

verus! {

/// `a` comes no later than `b`: a strictly newer date first, equal dates
/// ordered by slug ascending.
pub open spec fn post_le(a: PostModel, b: PostModel) -> bool {
    a.publish_date.key() > b.publish_date.key() || (a.publish_date.key() == b.publish_date.key()
        && text::lex_le(a.slug, b.slug))
}

pub proof fn lemma_post_le_total(a: PostModel, b: PostModel)
    ensures
        post_le(a, b) || post_le(b, a),
{
    text::lemma_lex_le_total(a.slug, b.slug);
}

pub proof fn lemma_post_le_trans(a: PostModel, b: PostModel, c: PostModel)
    requires
        post_le(a, b),
        post_le(b, c),
    ensures
        post_le(a, c),
{
    if a.publish_date.key() == b.publish_date.key() && b.publish_date.key()
        == c.publish_date.key() {
        text::lemma_lex_le_trans(a.slug, b.slug, c.slug);
    }
}

/// The whole sequence is in order.
pub open spec fn sorted_posts(s: Seq<PostModel>) -> bool {
    forall|i: int, j: int| 0 <= i < j < s.len() ==> post_le(s[i], s[j])
}

/// Sequences of posts, seen as sequences of post models.
pub open spec fn posts_view(v: Seq<Post>) -> Seq<PostModel> {
    v.map_values(|p: Post| p@)
}

/// Decide `post_le` on two posts.
pub fn post_le_exec(a: &Post, b: &Post) -> (r: bool)
    ensures
        r == post_le(a@, b@),
{
    let ka = crate::date::date_key_u64(&a.publish_date);
    let kb = crate::date::date_key_u64(&b.publish_date);
    if ka > kb {
        true
    } else if ka < kb {
        false
    } else {
        text::lex_le_bytes(&a.slug, &b.slug)
    }
}

/// The index the scan of a minimum settles on, starting with candidate `k`
/// at position `i`: the first position holding a minimal post.
pub open spec fn scan_min(s: Seq<PostModel>, k: int, i: int) -> int
    decreases s.len() - i,
{
    if i >= s.len() {
        k
    } else {
        scan_min(
            s,
            if !post_le(s[k], s[i]) {
                i
            } else {
                k
            },
            i + 1,
        )
    }
}

proof fn lemma_scan_min_bounds(s: Seq<PostModel>, k: int, i: int)
    requires
        0 <= k < s.len(),
        0 <= i,
    ensures
        0 <= scan_min(s, k, i) < s.len(),
    decreases s.len() - i,
{
    if i < s.len() {
        if !post_le(s[k], s[i]) {
            lemma_scan_min_bounds(s, i, i + 1);
        } else {
            lemma_scan_min_bounds(s, k, i + 1);
        }
    }
}

/// The canonical ordering of a post collection: repeatedly move the first
/// minimal post to the front.
pub open spec fn spec_sort(s: Seq<PostModel>) -> Seq<PostModel>
    decreases s.len(),
    via spec_sort_dec
{
    if s.len() == 0 {
        Seq::empty()
    } else {
        let k = scan_min(s, 0, 1);
        seq![s[k]] + spec_sort(s.remove(k))
    }
}

#[via_fn]
proof fn spec_sort_dec(s: Seq<PostModel>) {
    if s.len() > 0 {
        lemma_scan_min_bounds(s, 0, 1);
    }
}

/// The canonical ordering is a permutation: it keeps the multiset of posts.
pub proof fn lemma_spec_sort_multiset(s: Seq<PostModel>)
    ensures
        spec_sort(s).to_multiset() == s.to_multiset(),
    decreases s.len(),
{
    broadcast use vstd::seq_lib::group_to_multiset_ensures;

    if s.len() == 0 {
        assert(spec_sort(s) =~= Seq::<PostModel>::empty());
    } else {
        let k = scan_min(s, 0, 1);
        lemma_scan_min_bounds(s, 0, 1);
        let rest = s.remove(k);
        lemma_spec_sort_multiset(rest);
        lemma_multiset_commutative(seq![s[k]], spec_sort(rest));
        assert(seq![s[k]] =~= Seq::<PostModel>::empty().push(s[k]));
        assert(seq![s[k]].to_multiset() =~= Multiset::<PostModel>::empty().insert(s[k]));
        assert(rest.to_multiset() =~= s.to_multiset().remove(s[k]));
        assert(s.to_multiset().contains(s[k]));
        assert(Multiset::<PostModel>::empty().insert(s[k]).add(s.to_multiset().remove(s[k]))
            =~= s.to_multiset());
    }
}

/// The canonical ordering keeps the collection's length.
pub proof fn lemma_spec_sort_len(s: Seq<PostModel>)
    ensures
        spec_sort(s).len() == s.len(),
{
    broadcast use vstd::seq_lib::group_to_multiset_ensures;

    lemma_spec_sort_multiset(s);
    let t = spec_sort(s);
    assert(t.len() == t.to_multiset().len());
    assert(s.len() == s.to_multiset().len());
}

/// Sort a post collection into the canonical order.
///
/// The result is exactly `spec_sort` of the input: in order, and the same
/// posts (as a multiset) as were put in.
pub fn sort_posts(input: Vec<Post>) -> (out: Vec<Post>)
    ensures
        posts_view(out@) == spec_sort(posts_view(input@)),
        sorted_posts(posts_view(out@)),
        posts_view(out@).to_multiset() == posts_view(input@).to_multiset(),
{
    let ghost orig = posts_view(input@);
    let mut rest = input;
    let mut out: Vec<Post> = Vec::new();
    proof {
        assert(posts_view(out@) =~= Seq::<PostModel>::empty());
        assert(posts_view(out@) + spec_sort(posts_view(rest@)) =~= spec_sort(orig));
    }
    while rest.len() > 0
        invariant
            posts_view(out@) + spec_sort(posts_view(rest@)) == spec_sort(orig),
            sorted_posts(posts_view(out@)),
            forall|i: int, j: int|
                0 <= i < posts_view(out@).len() && 0 <= j < posts_view(rest@).len() ==> post_le(
                    posts_view(out@)[i],
                    posts_view(rest@)[j],
                ),
        decreases rest@.len(),
    {
        let ghost rv = posts_view(rest@);
        // Find the first minimal post of the remainder.
        let mut k: usize = 0;
        let mut i: usize = 1;
        proof {
            lemma_post_le_total(rv[0], rv[0]);
        }
        while i < rest.len()
            invariant
                rest@.len() > 0,
                rv == posts_view(rest@),
                0 <= k < i <= rest@.len(),
                scan_min(rv, k as int, i as int) == scan_min(rv, 0, 1),
                forall|j: int| 0 <= j < i ==> post_le(rv[k as int], rv[j]),
            decreases rest@.len() - i,
        {
            proof {
                lemma_post_le_total(rv[k as int], rv[i as int]);
            }
            if !post_le_exec(&rest[k], &rest[i]) {
                assert forall|j: int| 0 <= j < i + 1 implies post_le(rv[i as int], rv[j]) by {
                    if j < i {
                        lemma_post_le_trans(rv[i as int], rv[k as int], rv[j]);
                    } else {
                        lemma_post_le_total(rv[i as int], rv[i as int]);
                    }
                }
                k = i;
            }
            i = i + 1;
        }
        proof {
            assert(scan_min(rv, k as int, rest@.len() as int) == k as int);
            if rest@.len() == 1 {
                assert(scan_min(rv, 0, 1) == 0);
            }
            assert(k as int == scan_min(rv, 0, 1));
        }
        let ghost out0 = posts_view(out@);
        let m = rest.remove(k);
        out.push(m);
        proof {
            assert(posts_view(rest@) =~= rv.remove(k as int));
            assert(posts_view(out@) =~= out0.push(m@));
            assert(spec_sort(rv) == seq![rv[k as int]] + spec_sort(rv.remove(k as int)));
            assert(out0 + (seq![m@] + spec_sort(rv.remove(k as int))) =~= out0.push(m@)
                + spec_sort(rv.remove(k as int)));
            // Order bookkeeping: the minimum follows everything placed, and
            // precedes everything left.
            assert forall|i2: int, j2: int|
                0 <= i2 < j2 < posts_view(out@).len() implies post_le(
                posts_view(out@)[i2],
                posts_view(out@)[j2],
            ) by {
                if j2 == posts_view(out@).len() - 1 {
                    assert(posts_view(out@)[i2] == out0[i2]);
                    assert(post_le(out0[i2], rv[k as int]));
                }
            }
            assert forall|i2: int, j2: int|
                0 <= i2 < posts_view(out@).len() && 0 <= j2 < posts_view(rest@).len() implies
                post_le(posts_view(out@)[i2], posts_view(rest@)[j2]) by {
                let x = posts_view(rest@)[j2];
                if j2 < k {
                    assert(x == rv[j2]);
                } else {
                    assert(x == rv[j2 + 1]);
                }
                if i2 < out0.len() {
                    assert(posts_view(out@)[i2] == out0[i2]);
                } else {
                    assert(posts_view(out@)[i2] == rv[k as int]);
                }
            }
        }
    }
    proof {
        assert(posts_view(rest@) =~= Seq::<PostModel>::empty());
        assert(spec_sort(posts_view(rest@)) =~= Seq::<PostModel>::empty());
        assert(posts_view(out@) + Seq::<PostModel>::empty() =~= posts_view(out@));
        lemma_spec_sort_multiset(orig);
    }
    out
}

} // verus!
