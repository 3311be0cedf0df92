//! Front matter: a delimited metadata block at the head of a source
//! document.  A document must open with a `---` line; the lines up to the
//! next `---` line are `key: value` pairs; everything after that closing
//! line is the body.  `title` and `publish_date` are required; `slug`,
//! `tags` (comma-separated) and `summary` are recognized; every other key
//! is kept in an open extra mapping, first occurrence winning.  Tags are
//! trimmed, lower-cased, deduplicated and kept in ascending order.

use vstd::prelude::*;
use vstd::string::*;
use crate::date;
use crate::date::Date;
use crate::text;

verus! {

pub const NL: u8 = 10u8;

pub const COLON: u8 = 58u8;

pub const COMMA: u8 = 44u8;

/// Why a document's front matter was rejected.
#[derive(Clone, Copy, PartialEq, Eq, Structural, Debug)]
pub enum ParseReason {
    /// The document does not open with a `---` line.
    MissingDelimiter,
    /// The metadata block is never closed by a second `---` line.
    UnterminatedFrontMatter,
    /// A non-empty metadata line has no `:` separator.
    MalformedLine,
    /// The required `title` field is absent.
    MissingTitle,
    /// The required `publish_date` field is absent.
    MissingPublishDate,
    /// The `publish_date` value is not a valid `YYYY-MM-DD` date.
    BadDate,
}

/// Parsed front matter (mathematical model).
pub struct FrontMatterModel {
    pub title: Seq<u8>,
    pub explicit_slug: Option<Seq<u8>>,
    pub publish_date: Date,
    pub tags: Seq<Seq<u8>>,
    pub summary: Option<Seq<u8>>,
    pub extra: Seq<(Seq<u8>, Seq<u8>)>,
}

/// Parsed front matter of one source document.
#[derive(Debug, PartialEq, Eq)]
pub struct FrontMatter {
    pub title: Vec<u8>,
    pub explicit_slug: Option<Vec<u8>>,
    pub publish_date: Date,
    pub tags: Vec<Vec<u8>>,
    pub summary: Option<Vec<u8>>,
    pub extra: Vec<(Vec<u8>, Vec<u8>)>,
}

/// Sequences of byte vectors, seen as sequences of byte sequences.
pub open spec fn seqs_view(v: Seq<Vec<u8>>) -> Seq<Seq<u8>> {
    v.map_values(|x: Vec<u8>| x@)
}

/// Key/value vectors, seen as pairs of byte sequences.
pub open spec fn pairs_view(v: Seq<(Vec<u8>, Vec<u8>)>) -> Seq<(Seq<u8>, Seq<u8>)> {
    v.map_values(|p: (Vec<u8>, Vec<u8>)| (p.0@, p.1@))
}

/// Optional byte vector, seen as an optional byte sequence.
pub open spec fn opt_view(v: Option<Vec<u8>>) -> Option<Seq<u8>> {
    match v {
        Some(x) => Some(x@),
        None => None,
    }
}

impl View for FrontMatter {
    type V = FrontMatterModel;

    open spec fn view(&self) -> FrontMatterModel {
        FrontMatterModel {
            title: self.title@,
            explicit_slug: opt_view(self.explicit_slug),
            publish_date: self.publish_date,
            tags: seqs_view(self.tags@),
            summary: opt_view(self.summary),
            extra: pairs_view(self.extra@),
        }
    }
}

/// Accumulated raw fields while the metadata lines are read (model).
pub struct RawModel {
    pub title: Option<Seq<u8>>,
    pub slug: Option<Seq<u8>>,
    pub date_raw: Option<Seq<u8>>,
    pub tags_raw: Option<Seq<u8>>,
    pub summary: Option<Seq<u8>>,
    pub extra: Seq<(Seq<u8>, Seq<u8>)>,
}

/// Accumulated raw fields while the metadata lines are read.
pub struct RawFields {
    pub title: Option<Vec<u8>>,
    pub slug: Option<Vec<u8>>,
    pub date_raw: Option<Vec<u8>>,
    pub tags_raw: Option<Vec<u8>>,
    pub summary: Option<Vec<u8>>,
    pub extra: Vec<(Vec<u8>, Vec<u8>)>,
}

impl View for RawFields {
    type V = RawModel;

    open spec fn view(&self) -> RawModel {
        RawModel {
            title: opt_view(self.title),
            slug: opt_view(self.slug),
            date_raw: opt_view(self.date_raw),
            tags_raw: opt_view(self.tags_raw),
            summary: opt_view(self.summary),
            extra: pairs_view(self.extra@),
        }
    }
}

pub open spec fn empty_raw() -> RawModel {
    RawModel {
        title: None,
        slug: None,
        date_raw: None,
        tags_raw: None,
        summary: None,
        extra: Seq::empty(),
    }
}

/// The block delimiter, three hyphens.
pub open spec fn delim() -> Seq<u8> {
    seq![45u8, 45u8, 45u8]
}

/// A line that, once trimmed, is exactly the delimiter.
pub open spec fn is_delim_line(l: Seq<u8>) -> bool {
    text::trimmed(l) == delim()
}

pub open spec fn key_title() -> Seq<u8> {
    "title".spec_bytes()
}

pub open spec fn key_slug() -> Seq<u8> {
    "slug".spec_bytes()
}

pub open spec fn key_publish_date() -> Seq<u8> {
    "publish_date".spec_bytes()
}

pub open spec fn key_tags() -> Seq<u8> {
    "tags".spec_bytes()
}

pub open spec fn key_summary() -> Seq<u8> {
    "summary".spec_bytes()
}

/// Whether the open mapping already holds `key`.
pub open spec fn extra_has(e: Seq<(Seq<u8>, Seq<u8>)>, key: Seq<u8>) -> bool {
    exists|i: int| 0 <= i < e.len() && (#[trigger] e[i]).0 == key
}

/// One `key: value` assignment applied to the accumulator; for every field
/// the first occurrence wins.
pub open spec fn set_field(acc: RawModel, key: Seq<u8>, value: Seq<u8>) -> RawModel {
    if key == key_title() {
        if acc.title is Some {
            acc
        } else {
            RawModel { title: Some(value), ..acc }
        }
    } else if key == key_slug() {
        if acc.slug is Some {
            acc
        } else {
            RawModel { slug: Some(value), ..acc }
        }
    } else if key == key_publish_date() {
        if acc.date_raw is Some {
            acc
        } else {
            RawModel { date_raw: Some(value), ..acc }
        }
    } else if key == key_tags() {
        if acc.tags_raw is Some {
            acc
        } else {
            RawModel { tags_raw: Some(value), ..acc }
        }
    } else if key == key_summary() {
        if acc.summary is Some {
            acc
        } else {
            RawModel { summary: Some(value), ..acc }
        }
    } else {
        if extra_has(acc.extra, key) {
            acc
        } else {
            RawModel { extra: acc.extra.push((key, value)), ..acc }
        }
    }
}

/// One metadata line applied to the accumulator: blank lines are skipped, a
/// line without `:` is malformed, otherwise key and value are trimmed and
/// assigned.
pub open spec fn apply_line(acc: RawModel, line: Seq<u8>) -> Result<RawModel, ParseReason> {
    let t = text::trimmed(line);
    if t.len() == 0 {
        Ok(acc)
    } else {
        let c = text::find_byte(t, COLON);
        if c >= t.len() {
            Err(ParseReason::MalformedLine)
        } else {
            Ok(set_field(acc, text::trimmed(t.take(c)), text::trimmed(t.skip(c + 1))))
        }
    }
}

/// Read metadata lines from `rest` (the bytes after the opening delimiter
/// line) until the closing delimiter; the remaining bytes are the body.
pub open spec fn parse_header(rest: Seq<u8>, acc: RawModel) -> Result<
    (RawModel, Seq<u8>),
    ParseReason,
>
    decreases rest.len(),
    via parse_header_dec
{
    let i = text::find_byte(rest, NL);
    let line = rest.take(i);
    if is_delim_line(line) {
        Ok(
            (
                acc,
                if i < rest.len() {
                    rest.skip(i + 1)
                } else {
                    Seq::empty()
                },
            ),
        )
    } else if i >= rest.len() {
        Err(ParseReason::UnterminatedFrontMatter)
    } else {
        match apply_line(acc, line) {
            Ok(acc2) => parse_header(rest.skip(i + 1), acc2),
            Err(e) => Err(e),
        }
    }
}

#[via_fn]
proof fn parse_header_dec(rest: Seq<u8>, acc: RawModel) {
    text::lemma_find_byte(rest, NL);
}

/// Split on commas (for the `tags` value).
pub open spec fn split_commas(s: Seq<u8>) -> Seq<Seq<u8>>
    decreases s.len(),
    via split_commas_dec
{
    let i = text::find_byte(s, COMMA);
    if i >= s.len() {
        seq![s]
    } else {
        seq![s.take(i)] + split_commas(s.skip(i + 1))
    }
}

#[via_fn]
proof fn split_commas_dec(s: Seq<u8>) {
    text::lemma_find_byte(s, COMMA);
}

/// Insert a tag into an ascending, duplicate-free tag list, keeping it so.
pub open spec fn insert_tag(ts: Seq<Seq<u8>>, t: Seq<u8>) -> Seq<Seq<u8>>
    decreases ts.len(),
{
    if ts.len() == 0 {
        seq![t]
    } else if t == ts[0] {
        ts
    } else if text::lex_le(t, ts[0]) {
        seq![t] + ts
    } else {
        seq![ts[0]] + insert_tag(ts.drop_first(), t)
    }
}

/// One raw comma segment added to the tag list: trimmed, lower-cased,
/// dropped when empty.
pub open spec fn add_tag(ts: Seq<Seq<u8>>, raw: Seq<u8>) -> Seq<Seq<u8>> {
    let t = text::lower_seq(text::trimmed(raw));
    if t.len() == 0 {
        ts
    } else {
        insert_tag(ts, t)
    }
}

pub open spec fn add_tags(ts: Seq<Seq<u8>>, parts: Seq<Seq<u8>>) -> Seq<Seq<u8>>
    decreases parts.len(),
{
    if parts.len() == 0 {
        ts
    } else {
        add_tags(add_tag(ts, parts[0]), parts.drop_first())
    }
}

/// The normalized tag list of a raw `tags` value: comma-split, trimmed,
/// lower-cased, deduplicated, ascending.
pub open spec fn normalize_tags(o: Option<Seq<u8>>) -> Seq<Seq<u8>> {
    match o {
        None => Seq::empty(),
        Some(s) => add_tags(Seq::empty(), split_commas(s)),
    }
}

/// A tag list in canonical shape: strictly ascending, so duplicate-free.
pub open spec fn tags_normalized(ts: Seq<Seq<u8>>) -> bool {
    forall|i: int, j: int|
        0 <= i < j < ts.len() ==> text::lex_le(#[trigger] ts[i], #[trigger] ts[j]) && ts[i] != ts[j]
}

proof fn lemma_insert_tag_normalized(ts: Seq<Seq<u8>>, t: Seq<u8>)
    requires
        tags_normalized(ts),
    ensures
        tags_normalized(insert_tag(ts, t)),
        forall|x: Seq<u8>|
            #[trigger] insert_tag(ts, t).contains(x) ==> ts.contains(x) || x == t,
    decreases ts.len(),
{
    let r = insert_tag(ts, t);
    if ts.len() == 0 {
    } else if t == ts[0] {
    } else if text::lex_le(t, ts[0]) {
        assert(r =~= seq![t] + ts);
        assert forall|i: int, j: int| 0 <= i < j < r.len() implies text::lex_le(
            #[trigger] r[i],
            #[trigger] r[j],
        ) && r[i] != r[j] by {
            if i == 0 {
                assert(r[j] == ts[j - 1]);
                if j > 1 {
                    text::lemma_lex_le_trans(t, ts[0], ts[j - 1]);
                }
                if t == ts[j - 1] {
                    if j > 1 {
                        text::lemma_lex_le_antisym(t, ts[0]);
                    }
                }
            } else {
                assert(r[i] == ts[i - 1] && r[j] == ts[j - 1]);
            }
        }
    } else {
        let rest = ts.drop_first();
        assert(tags_normalized(rest)) by {
            assert(forall|i: int| 0 <= i < rest.len() ==> #[trigger] rest[i] == ts[i + 1]);
        }
        lemma_insert_tag_normalized(rest, t);
        let r2 = insert_tag(rest, t);
        assert(r =~= seq![ts[0]] + r2);
        text::lemma_lex_le_total(t, ts[0]);
        assert forall|i: int, j: int| 0 <= i < j < r.len() implies text::lex_le(
            #[trigger] r[i],
            #[trigger] r[j],
        ) && r[i] != r[j] by {
            if i == 0 {
                let x = r2[j - 1];
                assert(r2.contains(x));
                if rest.contains(x) {
                    let w = choose|w: int| 0 <= w < rest.len() && rest[w] == x;
                    assert(rest[w] == ts[w + 1]);
                    assert(text::lex_le(ts[0], ts[w + 1]) && ts[0] != ts[w + 1]);
                } else {
                    assert(x == t);
                }
            } else {
                assert(r[i] == r2[i - 1] && r[j] == r2[j - 1]);
            }
        }
        assert forall|x: Seq<u8>| #[trigger] r.contains(x) implies ts.contains(x) || x == t by {
            let w = choose|w: int| 0 <= w < r.len() && r[w] == x;
            if w == 0 {
                assert(ts[0] == x);
            } else {
                assert(r2[w - 1] == x);
                assert(r2.contains(x));
                if rest.contains(x) {
                    let v = choose|v: int| 0 <= v < rest.len() && rest[v] == x;
                    assert(ts[v + 1] == x);
                }
            }
        }
    }
}

proof fn lemma_add_tags_normalized(ts: Seq<Seq<u8>>, parts: Seq<Seq<u8>>)
    requires
        tags_normalized(ts),
    ensures
        tags_normalized(add_tags(ts, parts)),
    decreases parts.len(),
{
    if parts.len() > 0 {
        let t = text::lower_seq(text::trimmed(parts[0]));
        if t.len() > 0 {
            lemma_insert_tag_normalized(ts, t);
        }
        lemma_add_tags_normalized(add_tag(ts, parts[0]), parts.drop_first());
    }
}

/// The tag list of any front matter is order-normalized: strictly
/// ascending, hence without duplicates.
pub proof fn lemma_tags_normalized(o: Option<Seq<u8>>)
    ensures
        tags_normalized(normalize_tags(o)),
{
    match o {
        None => {
        },
        Some(s) => {
            lemma_add_tags_normalized(Seq::empty(), split_commas(s));
        },
    }
}

/// The accumulator checked and shaped into front matter: `title` and a
/// well-formed `publish_date` are required, tags are normalized.
pub open spec fn finalize(raw: RawModel) -> Result<FrontMatterModel, ParseReason> {
    match raw.title {
        None => Err(ParseReason::MissingTitle),
        Some(title) => match raw.date_raw {
            None => Err(ParseReason::MissingPublishDate),
            Some(ds) => match date::date_of_bytes(ds) {
                None => Err(ParseReason::BadDate),
                Some(d) => Ok(
                    FrontMatterModel {
                        title: title,
                        explicit_slug: raw.slug,
                        publish_date: d,
                        tags: normalize_tags(raw.tags_raw),
                        summary: raw.summary,
                        extra: raw.extra,
                    },
                ),
            },
        },
    }
}

/// The whole document parse: front matter and body, or the first failure.
pub open spec fn spec_parse_document(s: Seq<u8>) -> Result<
    (FrontMatterModel, Seq<u8>),
    ParseReason,
> {
    let i = text::find_byte(s, NL);
    if !is_delim_line(s.take(i)) {
        Err(ParseReason::MissingDelimiter)
    } else if i >= s.len() {
        Err(ParseReason::UnterminatedFrontMatter)
    } else {
        match parse_header(s.skip(i + 1), empty_raw()) {
            Ok((raw, body)) => match finalize(raw) {
                Ok(fm) => Ok((fm, body)),
                Err(e) => Err(e),
            },
            Err(e) => Err(e),
        }
    }
}

/// An executable parse result, seen as its model.
pub open spec fn parse_result_view(r: Result<(FrontMatter, Vec<u8>), ParseReason>) -> Result<
    (FrontMatterModel, Seq<u8>),
    ParseReason,
> {
    match r {
        Ok(p) => Ok((p.0@, p.1@)),
        Err(e) => Err(e),
    }
}

/// Does the trimmed line equal the `---` delimiter?
fn is_delim(l: &[u8]) -> (r: bool)
    ensures
        r == is_delim_line(l@),
{
    let t = text::trim_bytes(l);
    if t.len() == 3 && t[0] == 45 && t[1] == 45 && t[2] == 45 {
        proof {
            assert(text::trimmed(l@) =~= delim());
        }
        true
    } else {
        proof {
            if text::trimmed(l@) == delim() {
                assert(text::trimmed(l@).len() == 3);
                assert(text::trimmed(l@)[0] == 45 && text::trimmed(l@)[1] == 45 && text::trimmed(
                    l@,
                )[2] == 45);
            }
        }
        false
    }
}

/// Does the open mapping already hold `key`?
fn extra_has_key(e: &Vec<(Vec<u8>, Vec<u8>)>, key: &[u8]) -> (r: bool)
    ensures
        r == extra_has(pairs_view(e@), key@),
{
    let mut i: usize = 0;
    while i < e.len()
        invariant
            0 <= i <= e@.len(),
            forall|j: int| 0 <= j < i ==> (#[trigger] pairs_view(e@)[j]).0 != key@,
        decreases e@.len() - i,
    {
        if text::bytes_eq(e[i].0.as_slice(), key) {
            assert(pairs_view(e@)[i as int].0 == key@);
            return true;
        }
        assert(pairs_view(e@)[i as int].0 == e@[i as int].0@);
        i = i + 1;
    }
    false
}

/// Apply one trimmed, non-empty `key: value` assignment.
fn set_field_exec(raw: &mut RawFields, key: Vec<u8>, value: Vec<u8>)
    ensures
        final(raw)@ == set_field(old(raw)@, key@, value@),
{
    if text::bytes_eq(key.as_slice(), "title".as_bytes()) {
        if raw.title.is_none() {
            raw.title = Some(value);
        }
    } else if text::bytes_eq(key.as_slice(), "slug".as_bytes()) {
        if raw.slug.is_none() {
            raw.slug = Some(value);
        }
    } else if text::bytes_eq(key.as_slice(), "publish_date".as_bytes()) {
        if raw.date_raw.is_none() {
            raw.date_raw = Some(value);
        }
    } else if text::bytes_eq(key.as_slice(), "tags".as_bytes()) {
        if raw.tags_raw.is_none() {
            raw.tags_raw = Some(value);
        }
    } else if text::bytes_eq(key.as_slice(), "summary".as_bytes()) {
        if raw.summary.is_none() {
            raw.summary = Some(value);
        }
    } else {
        if !extra_has_key(&raw.extra, key.as_slice()) {
            let ghost prev = pairs_view(raw.extra@);
            raw.extra.push((key, value));
            proof {
                assert(pairs_view(raw.extra@) =~= prev.push((key@, value@)));
            }
        }
    }
}

/// Apply one raw metadata line.
fn apply_line_exec(raw: &mut RawFields, line: &[u8]) -> (r: Result<(), ParseReason>)
    ensures
        match apply_line(old(raw)@, line@) {
            Ok(m) => r is Ok && final(raw)@ == m,
            Err(e) => r == Err::<(), ParseReason>(e) && final(raw)@ == old(raw)@,
        },
{
    let t = text::trim_bytes(line);
    if t.len() == 0 {
        return Ok(());
    }
    let c = text::find_byte_from(t.as_slice(), 0, COLON);
    proof {
        assert(t@.skip(0) =~= t@);
    }
    if c >= t.len() {
        return Err(ParseReason::MalformedLine);
    }
    let key = text::trim_bytes(text::copy_range(t.as_slice(), 0, c).as_slice());
    let value = text::trim_bytes(text::copy_range(t.as_slice(), c + 1, t.len()).as_slice());
    proof {
        assert(t@.subrange(0, c as int) =~= t@.take(c as int));
        assert(t@.subrange(c + 1, t@.len() as int) =~= t@.skip(c + 1));
    }
    set_field_exec(raw, key, value);
    Ok(())
}

/// Insert a tag into the ascending tag list.
fn insert_tag_exec(ts: &mut Vec<Vec<u8>>, t: Vec<u8>)
    ensures
        seqs_view(final(ts)@) == insert_tag(seqs_view(old(ts)@), t@),
{
    let ghost full = seqs_view(old(ts)@);
    let mut i: usize = 0;
    proof {
        assert(full.skip(0) =~= full);
        assert(full.take(0) + insert_tag(full.skip(0), t@) =~= insert_tag(full, t@));
    }
    while i < ts.len()
        invariant
            0 <= i <= ts@.len(),
            ts@ == old(ts)@,
            full == seqs_view(ts@),
            insert_tag(full, t@) == full.take(i as int) + insert_tag(full.skip(i as int), t@),
        decreases ts@.len() - i,
    {
        assert(full.skip(i as int)[0] == full[i as int]);
        if text::bytes_eq(t.as_slice(), ts[i].as_slice()) {
            proof {
                assert(insert_tag(full.skip(i as int), t@) == full.skip(i as int));
                assert(full.take(i as int) + full.skip(i as int) =~= full);
            }
            return ;
        }
        if text::lex_le_bytes(&t, &ts[i]) {
            let ghost tv = t@;
            ts.insert(i, t);
            proof {
                assert(insert_tag(full.skip(i as int), tv) == seq![tv] + full.skip(i as int));
                assert(seqs_view(ts@) =~= full.take(i as int) + (seq![tv] + full.skip(i as int)));
            }
            return ;
        }
        proof {
            assert(insert_tag(full.skip(i as int), t@) == seq![full[i as int]] + insert_tag(
                full.skip(i as int).drop_first(),
                t@,
            ));
            assert(full.skip(i as int).drop_first() =~= full.skip(i + 1));
            assert(full.take(i as int) + (seq![full[i as int]] + insert_tag(full.skip(i + 1), t@))
                =~= full.take(i + 1) + insert_tag(full.skip(i + 1), t@));
        }
        i = i + 1;
    }
    proof {
        assert(full.skip(full.len() as int) =~= Seq::<Seq<u8>>::empty());
        assert(insert_tag(Seq::<Seq<u8>>::empty(), t@) == seq![t@]);
    }
    let ghost tv = t@;
    ts.push(t);
    proof {
        assert(seqs_view(ts@) =~= full.take(full.len() as int) + seq![tv]);
    }
}

/// Normalize a raw `tags` value into the canonical tag list.
fn normalize_tags_exec(o: &Option<Vec<u8>>) -> (r: Vec<Vec<u8>>)
    ensures
        seqs_view(r@) == normalize_tags(opt_view(*o)),
{
    match o {
        None => {
            let r: Vec<Vec<u8>> = Vec::new();
            proof {
                assert(seqs_view(r@) =~= Seq::<Seq<u8>>::empty());
            }
            r
        },
        Some(s) => {
            let mut ts: Vec<Vec<u8>> = Vec::new();
            proof {
                assert(seqs_view(ts@) =~= Seq::<Seq<u8>>::empty());
                assert(s@.skip(0) =~= s@);
            }
            let mut p: usize = 0;
            loop
                invariant
                    0 <= p <= s@.len(),
                    opt_view(*o) == Some(s@),
                    add_tags(seqs_view(ts@), split_commas(s@.skip(p as int))) == normalize_tags(
                        Some(s@),
                    ),
                decreases s@.len() - p,
            {
                let ghost rem = s@.skip(p as int);
                let j = text::find_byte_from(s.as_slice(), p, COMMA);
                let seg = text::copy_range(s.as_slice(), p, j);
                proof {
                    assert(text::find_byte(rem, COMMA) == j - p);
                    assert(seg@ =~= rem.take(j - p));
                }
                let t = text::lower_bytes(text::trim_bytes(seg.as_slice()).as_slice());
                let ghost ts0 = seqs_view(ts@);
                if t.len() > 0 {
                    insert_tag_exec(&mut ts, t);
                }
                proof {
                    assert(add_tag(ts0, rem.take(j - p)) == seqs_view(ts@));
                }
                if j >= s.len() {
                    proof {
                        assert(rem.take(j - p) =~= rem);
                        assert(split_commas(rem) == seq![rem]);
                        assert(seq![rem][0] == rem);
                        assert(seq![rem].drop_first() =~= Seq::<Seq<u8>>::empty());
                        assert(add_tags(seqs_view(ts@), Seq::<Seq<u8>>::empty()) == seqs_view(
                            ts@,
                        ));
                    }
                    return ts;
                }
                proof {
                    assert(split_commas(rem) == seq![rem.take(j - p)] + split_commas(
                        rem.skip(j - p + 1),
                    ));
                    assert((seq![rem.take(j - p)] + split_commas(rem.skip(j - p + 1)))[0]
                        == rem.take(j - p));
                    assert((seq![rem.take(j - p)] + split_commas(rem.skip(j - p + 1))).drop_first()
                        =~= split_commas(rem.skip(j - p + 1)));
                    assert(rem.skip(j - p + 1) =~= s@.skip(j + 1));
                }
                p = j + 1;
            }
        },
    }
}

/// Read the metadata lines from `start` to the closing delimiter, filling
/// the accumulator, and return the body.
fn parse_header_exec(s: &[u8], start: usize, raw: &mut RawFields) -> (r: Result<
    Vec<u8>,
    ParseReason,
>)
    requires
        start <= s@.len(),
    ensures
        match r {
            Ok(body) => parse_header(s@.skip(start as int), old(raw)@) == Ok::<
                _,
                ParseReason,
            >((final(raw)@, body@)),
            Err(e) => parse_header(s@.skip(start as int), old(raw)@) == Err::<
                (RawModel, Seq<u8>),
                _,
            >(e),
        },
{
    let mut p: usize = start;
    loop
        invariant
            start <= p <= s@.len(),
            parse_header(s@.skip(p as int), raw@) == parse_header(s@.skip(start as int), old(
                raw,
            )@),
        decreases s@.len() - p,
    {
        let ghost rem = s@.skip(p as int);
        let j = text::find_byte_from(s, p, NL);
        let line = text::copy_range(s, p, j);
        proof {
            assert(text::find_byte(rem, NL) == j - p);
            assert(line@ =~= rem.take(j - p));
        }
        if is_delim(line.as_slice()) {
            let body: Vec<u8>;
            if j < s.len() {
                body = text::copy_range(s, j + 1, s.len());
                proof {
                    assert(body@ =~= rem.skip(j - p + 1));
                }
            } else {
                body = Vec::new();
                proof {
                    assert(body@ =~= Seq::<u8>::empty());
                }
            }
            proof {
                assert(parse_header(rem, raw@) == Ok::<_, ParseReason>((raw@, body@)));
            }
            return Ok(body);
        }
        if j >= s.len() {
            proof {
                assert(j - p >= rem.len());
                assert(parse_header(rem, raw@) == Err::<(RawModel, Seq<u8>), _>(
                    ParseReason::UnterminatedFrontMatter,
                ));
            }
            return Err(ParseReason::UnterminatedFrontMatter);
        }
        let ghost raw0 = raw@;
        let step = apply_line_exec(raw, line.as_slice());
        match step {
            Ok(_) => {
                proof {
                    assert(j - p < rem.len());
                    assert(parse_header(rem, raw0) == parse_header(rem.skip(j - p + 1), raw@));
                    assert(rem.skip(j - p + 1) =~= s@.skip(j + 1));
                }
                p = j + 1;
            },
            Err(e) => {
                proof {
                    assert(parse_header(rem, raw0) == Err::<(RawModel, Seq<u8>), _>(e));
                }
                return Err(e);
            },
        }
    }
}

/// Parse one source document into front matter and body.
///
/// The result is exactly the canonical parse `spec_parse_document` of the
/// document bytes: `Ok` on well-formed documents, the first failure
/// otherwise.
pub fn parse_document(s: &[u8]) -> (r: Result<(FrontMatter, Vec<u8>), ParseReason>)
    ensures
        parse_result_view(r) == spec_parse_document(s@),
{
    proof {
        assert(s@.skip(0) =~= s@);
    }
    let i = text::find_byte_from(s, 0, NL);
    let first = text::copy_range(s, 0, i);
    proof {
        assert(text::find_byte(s@, NL) == i);
        assert(first@ =~= s@.take(i as int));
    }
    if !is_delim(first.as_slice()) {
        return Err(ParseReason::MissingDelimiter);
    }
    if i >= s.len() {
        return Err(ParseReason::UnterminatedFrontMatter);
    }
    let mut raw = RawFields {
        title: None,
        slug: None,
        date_raw: None,
        tags_raw: None,
        summary: None,
        extra: Vec::new(),
    };
    proof {
        assert(pairs_view(raw.extra@) =~= Seq::<(Seq<u8>, Seq<u8>)>::empty());
        assert(raw@ == empty_raw());
    }
    let body = match parse_header_exec(s, i + 1, &mut raw) {
        Ok(b) => b,
        Err(e) => {
            return Err(e);
        },
    };
    // The metadata block is complete; check and shape it.
    let title = match raw.title {
        None => {
            return Err(ParseReason::MissingTitle);
        },
        Some(t) => t,
    };
    let ds = match raw.date_raw {
        None => {
            return Err(ParseReason::MissingPublishDate);
        },
        Some(d) => d,
    };
    let d = match date::parse_date(ds.as_slice()) {
        None => {
            return Err(ParseReason::BadDate);
        },
        Some(d) => d,
    };
    let tags = normalize_tags_exec(&raw.tags_raw);
    let fm = FrontMatter {
        title,
        explicit_slug: raw.slug,
        publish_date: d,
        tags,
        summary: raw.summary,
        extra: raw.extra,
    };
    Ok((fm, body))
}

} // verus!
