//! The route a request path resolves to.  The runtime consumer navigates by
//! paths of the fixed output layout; resolving a path to a route is pure
//! text logic and is verified here, while the browser plumbing around it
//! stays outside the library.

use vstd::prelude::*;
use vstd::string::*;
use crate::text;

verus! {

pub const SLASH: u8 = 47u8;

/// Where a request path leads.
#[derive(Debug, PartialEq, Eq)]
pub enum Route {
    Home,
    Archives,
    Post(Vec<u8>),
    ArchivePost(Vec<u8>),
    NotFound,
}

pub enum RouteModel {
    Home,
    Archives,
    Post(Seq<u8>),
    ArchivePost(Seq<u8>),
    NotFound,
}

impl View for Route {
    type V = RouteModel;

    open spec fn view(&self) -> RouteModel {
        match self {
            Route::Home => RouteModel::Home,
            Route::Archives => RouteModel::Archives,
            Route::Post(s) => RouteModel::Post(s@),
            Route::ArchivePost(s) => RouteModel::ArchivePost(s@),
            Route::NotFound => RouteModel::NotFound,
        }
    }
}

/// Does `s` start with `prefix`?
pub open spec fn starts_with(s: Seq<u8>, prefix: Seq<u8>) -> bool {
    s.len() >= prefix.len() && s.take(prefix.len() as int) == prefix
}

/// Index of the first byte that is not `/`.
pub open spec fn slash_start(s: Seq<u8>) -> int
    decreases s.len(),
{
    if s.len() == 0 || s[0] != SLASH {
        0
    } else {
        1 + slash_start(s.drop_first())
    }
}

/// One past the last byte that is not `/` (0 when all slashes).
pub open spec fn slash_end(s: Seq<u8>) -> int
    decreases s.len(),
{
    if s.len() == 0 || s.last() != SLASH {
        s.len() as int
    } else {
        slash_end(s.drop_last())
    }
}

/// `s` with surrounding `/` removed.
pub open spec fn trim_slashes(s: Seq<u8>) -> Seq<u8> {
    let a = slash_start(s);
    let b = slash_end(s);
    if a <= b {
        s.subrange(a, b)
    } else {
        Seq::empty()
    }
}

proof fn lemma_slash_idx(s: Seq<u8>)
    ensures
        0 <= slash_start(s) <= s.len(),
        0 <= slash_end(s) <= s.len(),
        forall|j: int| 0 <= j < slash_start(s) ==> s[j] == SLASH,
        slash_start(s) < s.len() ==> s[slash_start(s)] != SLASH,
        forall|j: int| slash_end(s) <= j < s.len() ==> s[j] == SLASH,
        slash_end(s) > 0 ==> s[slash_end(s) - 1] != SLASH,
    decreases s.len(),
{
    if s.len() > 0 {
        lemma_slash_idx(s.drop_first());
        lemma_slash_idx(s.drop_last());
        if s[0] == SLASH {
            assert forall|j: int| 0 <= j < slash_start(s) implies s[j] == SLASH by {
                if j > 0 {
                    assert(s.drop_first()[j - 1] == s[j]);
                }
            }
            if slash_start(s) < s.len() {
                assert(s.drop_first()[slash_start(s) - 1] == s[slash_start(s)]);
            }
        }
        if s.last() == SLASH {
            assert forall|j: int| slash_end(s) <= j < s.len() implies s[j] == SLASH by {
                if j < s.len() - 1 {
                    assert(s.drop_last()[j] == s[j]);
                }
            }
        }
    }
}

/// The route a path resolves to: the home page, the archives listing, one
/// post or archive post by slug (surrounding slashes stripped, an empty
/// slug is no route), or nothing.
pub open spec fn spec_route_of(p: Seq<u8>) -> RouteModel {
    if p == "/".spec_bytes() || p == "/index.html".spec_bytes() {
        RouteModel::Home
    } else if p == "/archives".spec_bytes() || p == "/archives/".spec_bytes() {
        RouteModel::Archives
    } else if starts_with(p, "/posts/".spec_bytes()) {
        let slug = trim_slashes(p.skip("/posts/".spec_bytes().len() as int));
        if slug.len() == 0 {
            RouteModel::NotFound
        } else {
            RouteModel::Post(slug)
        }
    } else if starts_with(p, "/archives/posts/".spec_bytes()) {
        let slug = trim_slashes(p.skip("/archives/posts/".spec_bytes().len() as int));
        if slug.len() == 0 {
            RouteModel::NotFound
        } else {
            RouteModel::ArchivePost(slug)
        }
    } else {
        RouteModel::NotFound
    }
}

/// Does the path start with the given prefix?
fn has_prefix(s: &[u8], prefix: &[u8]) -> (r: bool)
    ensures
        r == starts_with(s@, prefix@),
{
    if s.len() < prefix.len() {
        return false;
    }
    let head = text::copy_range(s, 0, prefix.len());
    proof {
        assert(head@ =~= s@.take(prefix@.len() as int));
    }
    text::bytes_eq(head.as_slice(), prefix)
}

/// Strip surrounding slashes.
fn trim_slashes_exec(s: &[u8]) -> (r: Vec<u8>)
    ensures
        r@ == trim_slashes(s@),
{
    proof {
        lemma_slash_idx(s@);
    }
    let mut a: usize = 0;
    while a < s.len() && s[a] == SLASH
        invariant
            0 <= a <= s@.len(),
            a <= slash_start(s@),
            forall|j: int| 0 <= j < slash_start(s@) ==> s@[j] == SLASH,
            slash_start(s@) < s@.len() ==> s@[slash_start(s@)] != SLASH,
        decreases s@.len() - a,
    {
        a = a + 1;
    }
    assert(a == slash_start(s@));
    let mut b: usize = s.len();
    while b > a && s[b - 1] == SLASH
        invariant
            a <= b <= s@.len(),
            slash_end(s@) <= b || slash_end(s@) < a,
            forall|j: int| slash_end(s@) <= j < s@.len() ==> s@[j] == SLASH,
            slash_end(s@) > 0 ==> s@[slash_end(s@) - 1] != SLASH,
        decreases b,
    {
        b = b - 1;
    }
    if b <= a {
        proof {
            if slash_start(s@) <= slash_end(s@) {
                assert(trim_slashes(s@) =~= Seq::<u8>::empty());
            }
        }
        Vec::new()
    } else {
        assert(b == slash_end(s@));
        text::copy_range(s, a, b)
    }
}

/// Resolve a request path to its route.
pub fn route_of(p: &[u8]) -> (r: Route)
    ensures
        r@ == spec_route_of(p@),
{
    if text::bytes_eq(p, "/".as_bytes()) || text::bytes_eq(p, "/index.html".as_bytes()) {
        return Route::Home;
    }
    if text::bytes_eq(p, "/archives".as_bytes()) || text::bytes_eq(p, "/archives/".as_bytes()) {
        return Route::Archives;
    }
    let posts_prefix = "/posts/".as_bytes();
    if has_prefix(p, posts_prefix) {
        let rest = text::copy_range(p, posts_prefix.len(), p.len());
        proof {
            assert(rest@ =~= p@.skip("/posts/".spec_bytes().len() as int));
        }
        let slug = trim_slashes_exec(rest.as_slice());
        if slug.len() == 0 {
            return Route::NotFound;
        }
        return Route::Post(slug);
    }
    let archives_prefix = "/archives/posts/".as_bytes();
    if has_prefix(p, archives_prefix) {
        let rest = text::copy_range(p, archives_prefix.len(), p.len());
        proof {
            assert(rest@ =~= p@.skip("/archives/posts/".spec_bytes().len() as int));
        }
        let slug = trim_slashes_exec(rest.as_slice());
        if slug.len() == 0 {
            return Route::NotFound;
        }
        return Route::ArchivePost(slug);
    }
    Route::NotFound
}

} // verus!
