//! JSON serialization of the output entities.  The payload field names are
//! the compatibility boundary with the runtime consumer and are emitted
//! exactly as the data model spells them.  Strings are escaped per JSON
//! (quote, backslash, and control bytes), numbers are unsigned decimals,
//! dates are `YYYY-MM-DD` strings.

use vstd::prelude::*;
use vstd::string::*;
use crate::date;
use crate::date::Date;
use crate::paginate::{PageData, PageDataModel, PostSummary, PostSummaryModel};
use crate::post::{Category, Post, PostModel};
use crate::site::{SiteMetaData, SiteMetaDataModel};
use crate::text;

verus! {

/// Decimal spelling of a non-negative number.
pub open spec fn dec_bytes(n: int) -> Seq<u8>
    decreases n,
{
    if n < 10 {
        seq![(48 + if n >= 0 {
            n
        } else {
            0
        }) as u8]
    } else {
        dec_bytes(n / 10) + seq![(48 + n % 10) as u8]
    }
}

/// Append the decimal spelling of `n`.
pub fn push_dec(out: &mut Vec<u8>, n: u64)
    ensures
        final(out)@ == old(out)@ + dec_bytes(n as int),
    decreases n,
{
    if n < 10 {
        out.push(48 + n as u8);
        proof {
            assert(final(out)@ =~= old(out)@ + dec_bytes(n as int));
        }
    } else {
        push_dec(out, n / 10);
        out.push(48 + (n % 10) as u8);
        proof {
            assert(old(out)@ + (dec_bytes(n as int / 10) + seq![(48 + n as int % 10) as u8]) =~= (
            old(out)@ + dec_bytes(n as int / 10)).push((48 + n as int % 10) as u8));
        }
    }
}

/// Hexadecimal digit of a value in 0..=15.
pub open spec fn hex_digit(v: int) -> u8 {
    if v < 10 {
        (48 + v) as u8
    } else {
        (87 + v) as u8
    }
}

/// The JSON escape of one string byte.
pub open spec fn json_esc_byte(b: u8) -> Seq<u8> {
    if b == 34 {  // "
        seq![92u8, 34u8]
    } else if b == 92 {  // backslash
        seq![92u8, 92u8]
    } else if b == 10 {  // newline
        seq![92u8, 110u8]
    } else if b == 13 {  // carriage return
        seq![92u8, 114u8]
    } else if b == 9 {  // tab
        seq![92u8, 116u8]
    } else if b < 32 {
        "\\u00".spec_bytes() + seq![hex_digit(b as int / 16), hex_digit(b as int % 16)]
    } else {
        seq![b]
    }
}

/// A whole string escaped for a JSON string literal.
pub open spec fn json_escaped(s: Seq<u8>) -> Seq<u8>
    decreases s.len(),
{
    if s.len() == 0 {
        Seq::empty()
    } else {
        json_escaped(s.drop_last()) + json_esc_byte(s.last())
    }
}

/// A JSON string literal: quotes around the escaped bytes.
pub open spec fn json_string(s: Seq<u8>) -> Seq<u8> {
    seq![34u8] + json_escaped(s) + seq![34u8]
}

/// Append the JSON string literal of `s`.
pub fn push_json_string(out: &mut Vec<u8>, s: &[u8])
    ensures
        final(out)@ == old(out)@ + json_string(s@),
{
    out.push(34);
    let ghost base = out@;
    let mut i: usize = 0;
    proof {
        assert(out@ =~= base + json_escaped(s@.take(0)));
    }
    while i < s.len()
        invariant
            0 <= i <= s@.len(),
            out@ == base + json_escaped(s@.take(i as int)),
        decreases s@.len() - i,
    {
        let b = s[i];
        proof {
            assert(s@.take(i + 1).drop_last() =~= s@.take(i as int));
            assert(s@.take(i + 1).last() == s@[i as int]);
        }
        if b == 34 {
            out.push(92);
            out.push(34);
        } else if b == 92 {
            out.push(92);
            out.push(92);
        } else if b == 10 {
            out.push(92);
            out.push(110);
        } else if b == 13 {
            out.push(92);
            out.push(114);
        } else if b == 9 {
            out.push(92);
            out.push(116);
        } else if b < 32 {
            text::push_bytes(out, "\\u00".as_bytes());
            let hi = b / 16;
            let lo = b % 16;
            out.push(if hi < 10 {
                48 + hi
            } else {
                87 + hi
            });
            out.push(if lo < 10 {
                48 + lo
            } else {
                87 + lo
            });
        } else {
            out.push(b);
        }
        proof {
            assert(out@ =~= base + (json_escaped(s@.take(i as int)) + json_esc_byte(
                s@[i as int],
            )));
        }
        i = i + 1;
    }
    proof {
        assert(s@.take(s@.len() as int) =~= s@);
    }
    out.push(34);
    proof {
        assert(out@ =~= old(out)@ + json_string(s@));
    }
}

/// `true` or `false`.
pub open spec fn json_bool(b: bool) -> Seq<u8> {
    if b {
        "true".spec_bytes()
    } else {
        "false".spec_bytes()
    }
}

pub fn push_json_bool(out: &mut Vec<u8>, b: bool)
    ensures
        final(out)@ == old(out)@ + json_bool(b),
{
    if b {
        text::push_bytes(out, "true".as_bytes());
    } else {
        text::push_bytes(out, "false".as_bytes());
    }
}

/// A date as a JSON string in the canonical form.
pub open spec fn json_date(d: Date) -> Seq<u8> {
    seq![34u8] + date::date_bytes(d) + seq![34u8]
}

pub fn push_json_date(out: &mut Vec<u8>, d: &Date)
    requires
        d.valid(),
    ensures
        final(out)@ == old(out)@ + json_date(*d),
{
    out.push(34);
    let r = date::render_date(d);
    text::push_bytes(out, r.as_slice());
    out.push(34);
    proof {
        assert(out@ =~= old(out)@ + json_date(*d));
    }
}

/// A JSON array of string literals, in list order.
pub open spec fn json_string_array(ts: Seq<Seq<u8>>) -> Seq<u8>
    decreases ts.len(),
{
    if ts.len() == 0 {
        "[]".spec_bytes()
    } else if ts.len() == 1 {
        seq![91u8] + json_string(ts[0]) + seq![93u8]
    } else {
        json_string_array(ts.drop_last()).drop_last() + seq![44u8] + json_string(ts.last())
            + seq![93u8]
    }
}

/// The array body up to the closing bracket.
pub proof fn lemma_json_string_array_last(ts: Seq<Seq<u8>>)
    requires
        ts.len() > 0,
    ensures
        json_string_array(ts).len() > 0,
        json_string_array(ts).last() == 93u8,
    decreases ts.len(),
{
    if ts.len() > 1 {
        lemma_json_string_array_last(ts.drop_last());
    }
}

/// Append the JSON array of the string list `ts`.
pub fn push_json_string_array(out: &mut Vec<u8>, ts: &Vec<Vec<u8>>)
    ensures
        final(out)@ == old(out)@ + json_string_array(crate::front_matter::seqs_view(ts@)),
{
    let ghost tv = crate::front_matter::seqs_view(ts@);
    if ts.len() == 0 {
        text::push_bytes(out, "[]".as_bytes());
        proof {
            assert(tv =~= Seq::<Seq<u8>>::empty());
        }
        return ;
    }
    out.push(91);
    let mut i: usize = 0;
    while i < ts.len()
        invariant
            tv == crate::front_matter::seqs_view(ts@),
            0 <= i <= ts@.len(),
            ts@.len() > 0,
            i > 0 ==> out@ + seq![93u8] == old(out)@ + json_string_array(tv.take(i as int)),
            i == 0 ==> out@ == old(out)@ + seq![91u8],
        decreases ts@.len() - i,
    {
        let ghost arr = json_string_array(tv.take(i as int));
        proof {
            if i > 0 {
                lemma_json_string_array_last(tv.take(i as int));
                assert(out@ == old(out)@ + arr.drop_last()) by {
                    assert((out@ + seq![93u8]).drop_last() =~= out@);
                    assert((old(out)@ + arr).drop_last() =~= old(out)@ + arr.drop_last());
                }
            }
        }
        if i > 0 {
            out.push(44);
        }
        push_json_string(out, ts[i].as_slice());
        proof {
            assert(tv.take(i + 1).drop_last() =~= tv.take(i as int));
            assert(tv.take(i + 1).last() == tv[i as int]);
            assert(tv[i as int] == ts@[i as int]@);
            if i == 0 {
                assert(tv.take(1) =~= seq![tv[0]]);
                assert(out@ + seq![93u8] =~= old(out)@ + (seq![91u8] + json_string(tv[0])
                    + seq![93u8]));
            } else {
                assert(json_string_array(tv.take(i + 1)) == arr.drop_last() + seq![44u8]
                    + json_string(tv[i as int]) + seq![93u8]);
                assert(out@ + seq![93u8] =~= old(out)@ + (arr.drop_last() + seq![44u8]
                    + json_string(tv[i as int]) + seq![93u8]));
            }
        }
        i = i + 1;
    }
    out.push(93);
    proof {
        assert(tv.take(ts@.len() as int) =~= tv);
        assert(out@ =~= old(out)@ + json_string_array(tv));
    }
}

/// The category names the runtime consumer sees.
pub open spec fn category_bytes(c: Category) -> Seq<u8> {
    match c {
        Category::Post => "post".spec_bytes(),
        Category::Archive => "archive".spec_bytes(),
    }
}

/// The JSON document of one full post.
pub open spec fn json_of_post(p: PostModel) -> Seq<u8> {
    "{\"slug\":".spec_bytes() + json_string(p.slug) + ",\"title\":".spec_bytes() + json_string(
        p.title,
    ) + ",\"publish_date\":".spec_bytes() + json_date(p.publish_date) + ",\"tags\":".spec_bytes()
        + json_string_array(p.tags) + ",\"excerpt\":".spec_bytes() + json_string(p.excerpt)
        + ",\"rendered_body\":".spec_bytes() + json_string(p.rendered_body)
        + ",\"category\":".spec_bytes() + json_string(category_bytes(p.category))
        + "}".spec_bytes()
}

/// Serialize one full post.
pub fn post_to_json(p: &Post) -> (r: Vec<u8>)
    requires
        p.publish_date.valid(),
    ensures
        r@ == json_of_post(p@),
{
    let mut out: Vec<u8> = Vec::new();
    text::push_bytes(&mut out, "{\"slug\":".as_bytes());
    push_json_string(&mut out, p.slug.as_slice());
    text::push_bytes(&mut out, ",\"title\":".as_bytes());
    push_json_string(&mut out, p.title.as_slice());
    text::push_bytes(&mut out, ",\"publish_date\":".as_bytes());
    push_json_date(&mut out, &p.publish_date);
    text::push_bytes(&mut out, ",\"tags\":".as_bytes());
    push_json_string_array(&mut out, &p.tags);
    text::push_bytes(&mut out, ",\"excerpt\":".as_bytes());
    push_json_string(&mut out, p.excerpt.as_slice());
    text::push_bytes(&mut out, ",\"rendered_body\":".as_bytes());
    push_json_string(&mut out, p.rendered_body.as_slice());
    text::push_bytes(&mut out, ",\"category\":".as_bytes());
    match p.category {
        Category::Post => {
            push_json_string(&mut out, "post".as_bytes());
        },
        Category::Archive => {
            push_json_string(&mut out, "archive".as_bytes());
        },
    }
    text::push_bytes(&mut out, "}".as_bytes());
    proof {
        assert(out@ =~= json_of_post(p@));
    }
    out
}

/// The JSON object of one post summary.
pub open spec fn json_of_summary(s: PostSummaryModel) -> Seq<u8> {
    "{\"slug\":".spec_bytes() + json_string(s.slug) + ",\"title\":".spec_bytes() + json_string(
        s.title,
    ) + ",\"publish_date\":".spec_bytes() + json_date(s.publish_date) + ",\"tags\":".spec_bytes()
        + json_string_array(s.tags) + ",\"excerpt\":".spec_bytes() + json_string(s.excerpt)
        + "}".spec_bytes()
}

/// Serialize one post summary.
pub fn summary_to_json(s: &PostSummary) -> (r: Vec<u8>)
    requires
        s.publish_date.valid(),
    ensures
        r@ == json_of_summary(s@),
{
    let mut out: Vec<u8> = Vec::new();
    text::push_bytes(&mut out, "{\"slug\":".as_bytes());
    push_json_string(&mut out, s.slug.as_slice());
    text::push_bytes(&mut out, ",\"title\":".as_bytes());
    push_json_string(&mut out, s.title.as_slice());
    text::push_bytes(&mut out, ",\"publish_date\":".as_bytes());
    push_json_date(&mut out, &s.publish_date);
    text::push_bytes(&mut out, ",\"tags\":".as_bytes());
    push_json_string_array(&mut out, &s.tags);
    text::push_bytes(&mut out, ",\"excerpt\":".as_bytes());
    push_json_string(&mut out, s.excerpt.as_slice());
    text::push_bytes(&mut out, "}".as_bytes());
    proof {
        assert(out@ =~= json_of_summary(s@));
    }
    out
}

/// A JSON array of summary objects, in item order.
pub open spec fn json_summary_array(items: Seq<PostSummaryModel>) -> Seq<u8>
    decreases items.len(),
{
    if items.len() == 0 {
        "[]".spec_bytes()
    } else if items.len() == 1 {
        seq![91u8] + json_of_summary(items[0]) + seq![93u8]
    } else {
        json_summary_array(items.drop_last()).drop_last() + seq![44u8] + json_of_summary(
            items.last(),
        ) + seq![93u8]
    }
}

pub proof fn lemma_json_summary_array_last(items: Seq<PostSummaryModel>)
    requires
        items.len() > 0,
    ensures
        json_summary_array(items).len() > 0,
        json_summary_array(items).last() == 93u8,
    decreases items.len(),
{
    if items.len() > 1 {
        lemma_json_summary_array_last(items.drop_last());
    }
}

/// All summaries of a page have valid dates.
pub open spec fn summaries_dates_valid(items: Seq<PostSummaryModel>) -> bool {
    forall|i: int| 0 <= i < items.len() ==> (#[trigger] items[i]).publish_date.valid()
}

/// Append the JSON array of a page's items.
pub fn push_summary_array(out: &mut Vec<u8>, items: &Vec<PostSummary>)
    requires
        summaries_dates_valid(items@.map_values(|x: PostSummary| x@)),
    ensures
        final(out)@ == old(out)@ + json_summary_array(items@.map_values(|x: PostSummary| x@)),
{
    let ghost tv = items@.map_values(|x: PostSummary| x@);
    if items.len() == 0 {
        text::push_bytes(out, "[]".as_bytes());
        proof {
            assert(tv =~= Seq::<PostSummaryModel>::empty());
        }
        return ;
    }
    out.push(91);
    let mut i: usize = 0;
    while i < items.len()
        invariant
            tv == items@.map_values(|x: PostSummary| x@),
            summaries_dates_valid(tv),
            0 <= i <= items@.len(),
            items@.len() > 0,
            i > 0 ==> out@ + seq![93u8] == old(out)@ + json_summary_array(tv.take(i as int)),
            i == 0 ==> out@ == old(out)@ + seq![91u8],
        decreases items@.len() - i,
    {
        let ghost arr = json_summary_array(tv.take(i as int));
        proof {
            if i > 0 {
                lemma_json_summary_array_last(tv.take(i as int));
                assert(out@ == old(out)@ + arr.drop_last()) by {
                    assert((out@ + seq![93u8]).drop_last() =~= out@);
                    assert((old(out)@ + arr).drop_last() =~= old(out)@ + arr.drop_last());
                }
            }
            assert(tv[i as int] == items@[i as int]@);
            assert(tv[i as int].publish_date.valid());
        }
        if i > 0 {
            out.push(44);
        }
        let piece = summary_to_json(&items[i]);
        text::push_bytes(out, piece.as_slice());
        proof {
            assert(tv.take(i + 1).drop_last() =~= tv.take(i as int));
            assert(tv.take(i + 1).last() == tv[i as int]);
            if i == 0 {
                assert(tv.take(1) =~= seq![tv[0]]);
                assert(out@ + seq![93u8] =~= old(out)@ + (seq![91u8] + json_of_summary(tv[0])
                    + seq![93u8]));
            } else {
                assert(json_summary_array(tv.take(i + 1)) == arr.drop_last() + seq![44u8]
                    + json_of_summary(tv[i as int]) + seq![93u8]);
                assert(out@ + seq![93u8] =~= old(out)@ + (arr.drop_last() + seq![44u8]
                    + json_of_summary(tv[i as int]) + seq![93u8]));
            }
        }
        i = i + 1;
    }
    out.push(93);
    proof {
        assert(tv.take(items@.len() as int) =~= tv);
        assert(out@ =~= old(out)@ + json_summary_array(tv));
    }
}

/// The JSON document of one listing page.
pub open spec fn json_of_page(pg: PageDataModel) -> Seq<u8> {
    "{\"page_number\":".spec_bytes() + dec_bytes(pg.page_number) + ",\"items\":".spec_bytes()
        + json_summary_array(pg.items) + ",\"total_pages\":".spec_bytes() + dec_bytes(
        pg.total_pages,
    ) + ",\"has_previous\":".spec_bytes() + json_bool(pg.has_previous)
        + ",\"has_next\":".spec_bytes() + json_bool(pg.has_next) + "}".spec_bytes()
}

/// Serialize one listing page.
pub fn page_to_json(pg: &PageData) -> (r: Vec<u8>)
    requires
        summaries_dates_valid(pg.items@.map_values(|x: PostSummary| x@)),
    ensures
        r@ == json_of_page(pg@),
{
    let mut out: Vec<u8> = Vec::new();
    text::push_bytes(&mut out, "{\"page_number\":".as_bytes());
    push_dec(&mut out, pg.page_number as u64);
    text::push_bytes(&mut out, ",\"items\":".as_bytes());
    push_summary_array(&mut out, &pg.items);
    text::push_bytes(&mut out, ",\"total_pages\":".as_bytes());
    push_dec(&mut out, pg.total_pages as u64);
    text::push_bytes(&mut out, ",\"has_previous\":".as_bytes());
    push_json_bool(&mut out, pg.has_previous);
    text::push_bytes(&mut out, ",\"has_next\":".as_bytes());
    push_json_bool(&mut out, pg.has_next);
    text::push_bytes(&mut out, "}".as_bytes());
    proof {
        assert(out@ =~= json_of_page(pg@));
    }
    out
}

/// The JSON document of the site metadata.
pub open spec fn json_of_site_meta(m: SiteMetaDataModel) -> Seq<u8> {
    "{\"site_title\":".spec_bytes() + json_string(m.site_title) + ",\"description\":".spec_bytes()
        + json_string(m.description) + ",\"base_url\":".spec_bytes() + json_string(m.base_url)
        + ",\"pagination_size\":".spec_bytes() + dec_bytes(m.pagination_size)
        + ",\"total_posts\":".spec_bytes() + dec_bytes(m.total_posts)
        + ",\"total_pages\":".spec_bytes() + dec_bytes(m.total_pages)
        + ",\"total_archive_pages\":".spec_bytes() + dec_bytes(m.total_archive_pages)
        + ",\"theme_default\":".spec_bytes() + json_string(m.theme_default) + "}".spec_bytes()
}

/// Serialize the site metadata.
pub fn site_meta_to_json(m: &SiteMetaData) -> (r: Vec<u8>)
    ensures
        r@ == json_of_site_meta(m@),
{
    let mut out: Vec<u8> = Vec::new();
    text::push_bytes(&mut out, "{\"site_title\":".as_bytes());
    push_json_string(&mut out, m.site_title.as_slice());
    text::push_bytes(&mut out, ",\"description\":".as_bytes());
    push_json_string(&mut out, m.description.as_slice());
    text::push_bytes(&mut out, ",\"base_url\":".as_bytes());
    push_json_string(&mut out, m.base_url.as_slice());
    text::push_bytes(&mut out, ",\"pagination_size\":".as_bytes());
    push_dec(&mut out, m.pagination_size as u64);
    text::push_bytes(&mut out, ",\"total_posts\":".as_bytes());
    push_dec(&mut out, m.total_posts as u64);
    text::push_bytes(&mut out, ",\"total_pages\":".as_bytes());
    push_dec(&mut out, m.total_pages as u64);
    text::push_bytes(&mut out, ",\"total_archive_pages\":".as_bytes());
    push_dec(&mut out, m.total_archive_pages as u64);
    text::push_bytes(&mut out, ",\"theme_default\":".as_bytes());
    push_json_string(&mut out, m.theme_default.as_slice());
    text::push_bytes(&mut out, "}".as_bytes());
    proof {
        assert(out@ =~= json_of_site_meta(m@));
    }
    out
}

} // verus!
