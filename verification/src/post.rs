//! The canonical content entity: a normalized `Post`, built from one source
//! document's front matter and rendered body.  Slug resolution: the explicit
//! front-matter slug when present, otherwise the normalized file stem of the
//! source path.

use vstd::prelude::*;
use vstd::string::*;
use crate::date::Date;
use crate::front_matter;
use crate::front_matter::{FrontMatter, ParseReason};
use crate::render;
use crate::text;

verus! {

/// The two disjoint content namespaces.
#[derive(Clone, Copy, PartialEq, Eq, Structural, Debug)]
pub enum Category {
    Post,
    Archive,
}

/// A normalized post (mathematical model).
pub struct PostModel {
    pub slug: Seq<u8>,
    pub title: Seq<u8>,
    pub publish_date: Date,
    pub tags: Seq<Seq<u8>>,
    pub excerpt: Seq<u8>,
    pub rendered_body: Seq<u8>,
    pub category: Category,
    pub source_path: Seq<u8>,
}

/// A normalized post.  `source_path` is carried along so that a slug
/// collision can name both offending documents.
pub struct Post {
    pub slug: Vec<u8>,
    pub title: Vec<u8>,
    pub publish_date: Date,
    pub tags: Vec<Vec<u8>>,
    pub excerpt: Vec<u8>,
    pub rendered_body: Vec<u8>,
    pub category: Category,
    pub source_path: Vec<u8>,
}

impl View for Post {
    type V = PostModel;

    open spec fn view(&self) -> PostModel {
        PostModel {
            slug: self.slug@,
            title: self.title@,
            publish_date: self.publish_date,
            tags: front_matter::seqs_view(self.tags@),
            excerpt: self.excerpt@,
            rendered_body: self.rendered_body@,
            category: self.category,
            source_path: self.source_path@,
        }
    }
}

/// Index of the last occurrence of `b` in `s`, or -1.
pub open spec fn rfind_byte(s: Seq<u8>, b: u8) -> int
    decreases s.len(),
{
    if s.len() == 0 {
        -1
    } else if s.last() == b {
        s.len() - 1
    } else {
        rfind_byte(s.drop_last(), b)
    }
}

pub proof fn lemma_rfind_byte(s: Seq<u8>, b: u8)
    ensures
        -1 <= rfind_byte(s, b) < s.len(),
        rfind_byte(s, b) >= 0 ==> s[rfind_byte(s, b)] == b,
        forall|j: int| rfind_byte(s, b) < j < s.len() ==> s[j] != b,
    decreases s.len(),
{
    if s.len() == 0 {
    } else if s.last() == b {
    } else {
        lemma_rfind_byte(s.drop_last(), b);
        assert forall|j: int| rfind_byte(s, b) < j < s.len() implies s[j] != b by {
            if j < s.len() - 1 {
                assert(s.drop_last()[j] == s[j]);
            }
        }
    }
}

/// `rfind_byte` is pinned down by its characteristic properties.
pub proof fn lemma_rfind_byte_is(s: Seq<u8>, b: u8, k: int)
    requires
        -1 <= k < s.len(),
        k >= 0 ==> s[k] == b,
        forall|j: int| k < j < s.len() ==> s[j] != b,
    ensures
        rfind_byte(s, b) == k,
{
    lemma_rfind_byte(s, b);
    let f = rfind_byte(s, b);
    if f < k {
        assert(s[k] == b);
    }
    if f > k {
        assert(s[f] == b);
    }
}

/// Find the last occurrence of `b`, as one past its index (0 when absent).
pub fn rfind_byte_in(s: &[u8], b: u8) -> (r: usize)
    ensures
        r == rfind_byte(s@, b) + 1,
{
    let mut i: usize = s.len();
    while i > 0
        invariant
            0 <= i <= s@.len(),
            forall|j: int| i <= j < s@.len() ==> s@[j] != b,
        decreases i,
    {
        if s[i - 1] == b {
            proof {
                lemma_rfind_byte_is(s@, b, i - 1);
            }
            return i;
        }
        i = i - 1;
    }
    proof {
        lemma_rfind_byte_is(s@, b, -1);
    }
    0
}

/// The file stem of a path: the part after the last `/`, with the extension
/// after the last interior `.` removed.  A name with no dot, or whose only
/// dot is the leading byte, is its own stem.
pub open spec fn file_stem(p: Seq<u8>) -> Seq<u8> {
    let name = p.skip(rfind_byte(p, 47) + 1);
    let d = rfind_byte(name, 46);
    if d <= 0 {
        name
    } else {
        name.take(d)
    }
}

/// Compute the file stem of a source path.
pub fn file_stem_of(p: &[u8]) -> (r: Vec<u8>)
    ensures
        r@ == file_stem(p@),
{
    let start = rfind_byte_in(p, 47);
    proof {
        lemma_rfind_byte(p@, 47);
    }
    let name = text::copy_range(p, start, p.len());
    proof {
        assert(name@ =~= p@.skip(rfind_byte(p@, 47) + 1));
    }
    let d = rfind_byte_in(name.as_slice(), 46);
    if d <= 1 {
        proof {
            assert(rfind_byte(name@, 46) <= 0);
        }
        name
    } else {
        proof {
            lemma_rfind_byte(name@, 46);
        }
        let stem = text::copy_range(name.as_slice(), 0, d - 1);
        proof {
            assert(stem@ =~= name@.take(rfind_byte(name@, 46)));
        }
        stem
    }
}

/// The extension of a path's file name (empty when there is none).
pub open spec fn file_ext(p: Seq<u8>) -> Seq<u8> {
    let name = p.skip(rfind_byte(p, 47) + 1);
    let d = rfind_byte(name, 46);
    if d <= 0 {
        Seq::empty()
    } else {
        name.skip(d + 1)
    }
}

/// The extensions the document loader recognizes as content files.
pub open spec fn is_content_path(p: Seq<u8>) -> bool {
    file_ext(p) == "md".spec_bytes() || file_ext(p) == "markdown".spec_bytes() || file_ext(p)
        == "txt".spec_bytes()
}

/// Is this a content file the loader should pick up?
pub fn content_path(p: &[u8]) -> (r: bool)
    ensures
        r == is_content_path(p@),
{
    let start = rfind_byte_in(p, 47);
    proof {
        lemma_rfind_byte(p@, 47);
    }
    let name = text::copy_range(p, start, p.len());
    proof {
        assert(name@ =~= p@.skip(rfind_byte(p@, 47) + 1));
    }
    let d = rfind_byte_in(name.as_slice(), 46);
    if d <= 1 {
        proof {
            assert(rfind_byte(name@, 46) <= 0);
            assert(file_ext(p@) =~= Seq::<u8>::empty());
            if is_content_path(p@) {
                assert("md".spec_bytes().len() > 0) by {
                    reveal_strlit("md");
                }
                assert("markdown".spec_bytes().len() > 0) by {
                    reveal_strlit("markdown");
                }
                assert("txt".spec_bytes().len() > 0) by {
                    reveal_strlit("txt");
                }
            }
        }
        false
    } else {
        proof {
            lemma_rfind_byte(name@, 46);
        }
        let ext = text::copy_range(name.as_slice(), d, name.len());
        proof {
            assert(ext@ =~= name@.skip(rfind_byte(name@, 46) + 1));
            assert(ext@ == file_ext(p@));
        }
        text::bytes_eq(ext.as_slice(), "md".as_bytes()) || text::bytes_eq(
            ext.as_slice(),
            "markdown".as_bytes(),
        ) || text::bytes_eq(ext.as_slice(), "txt".as_bytes())
    }
}

/// The slug a document resolves to: the explicit front-matter slug when
/// present, else the normalized file stem of the source path.
pub open spec fn resolve_slug(
    explicit: Option<Seq<u8>>,
    path: Seq<u8>,
) -> Seq<u8> {
    match explicit {
        Some(s) => s,
        None => text::slug_of(file_stem(path)),
    }
}

/// The whole per-document pipeline: parse, render, normalize.
pub open spec fn spec_make_post(
    path: Seq<u8>,
    bytes: Seq<u8>,
    category: Category,
    excerpt_len: int,
) -> Result<PostModel, ParseReason> {
    match front_matter::spec_parse_document(bytes) {
        Err(e) => Err(e),
        Ok((fm, body)) => Ok(
            PostModel {
                slug: resolve_slug(fm.explicit_slug, path),
                title: fm.title,
                publish_date: fm.publish_date,
                tags: fm.tags,
                excerpt: render::spec_excerpt(fm.summary, body, excerpt_len),
                rendered_body: render::html_escaped(body),
                category: category,
                source_path: path,
            },
        ),
    }
}

/// Parse one source document and normalize it into a `Post`.
///
/// Returns exactly what the canonical per-document pipeline
/// `spec_make_post` gives: the normalized post, or the document's first
/// parse failure.
pub fn make_post(path: &[u8], bytes: &[u8], category: Category, excerpt_len: usize) -> (r: Result<
    Post,
    ParseReason,
>)
    ensures
        match r {
            Ok(p) => spec_make_post(path@, bytes@, category, excerpt_len as int) == Ok::<
                PostModel,
                ParseReason,
            >(p@),
            Err(e) => spec_make_post(path@, bytes@, category, excerpt_len as int) == Err::<
                PostModel,
                ParseReason,
            >(e),
        },
{
    let (fm, body) = match front_matter::parse_document(bytes) {
        Err(e) => {
            return Err(e);
        },
        Ok(p) => p,
    };
    let slug: Vec<u8> = match fm.explicit_slug {
        Some(s) => s,
        None => text::slugify(file_stem_of(path).as_slice()),
    };
    let excerpt = render::make_excerpt(&fm.summary, body.as_slice(), excerpt_len);
    let rendered_body = render::escape_html(body.as_slice());
    let mut source_path: Vec<u8> = Vec::new();
    text::push_bytes(&mut source_path, path);
    proof {
        assert(source_path@ =~= path@);
    }
    Ok(
        Post {
            slug,
            title: fm.title,
            publish_date: fm.publish_date,
            tags: fm.tags,
            excerpt,
            rendered_body,
            category,
            source_path,
        },
    )
}

} // verus!
