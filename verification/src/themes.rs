//! The theme registry: an ordered list of theme descriptors read from the
//! registry file, and the output path of each theme's CSS bundle.  The
//! registry is a list of `name: asset_source_path` lines; a name written
//! with a leading `*` marks the default theme; `#` begins a comment line;
//! a repeated name keeps its first entry.  A registered theme whose assets
//! are missing is skipped with a warning by the caller — never fatal — and
//! an absent registry file skips the whole theme step.

use vstd::prelude::*;
use vstd::string::*;
use crate::front_matter::{COLON, NL};
use crate::text;

verus! {

/// One registry entry (mathematical model).
pub struct ThemeDescriptorModel {
    pub name: Seq<u8>,
    pub asset_source_path: Seq<u8>,
    pub is_default: bool,
}

/// One registry entry.
pub struct ThemeDescriptor {
    pub name: Vec<u8>,
    pub asset_source_path: Vec<u8>,
    pub is_default: bool,
}

impl View for ThemeDescriptor {
    type V = ThemeDescriptorModel;

    open spec fn view(&self) -> ThemeDescriptorModel {
        ThemeDescriptorModel {
            name: self.name@,
            asset_source_path: self.asset_source_path@,
            is_default: self.is_default,
        }
    }
}

pub open spec fn themes_view(v: Seq<ThemeDescriptor>) -> Seq<ThemeDescriptorModel> {
    v.map_values(|d: ThemeDescriptor| d@)
}

/// Whether a name is already registered.
pub open spec fn has_theme(ts: Seq<ThemeDescriptorModel>, name: Seq<u8>) -> bool {
    exists|i: int| 0 <= i < ts.len() && (#[trigger] ts[i]).name == name
}

/// Names are unique keys.
pub open spec fn theme_names_unique(ts: Seq<ThemeDescriptorModel>) -> bool {
    forall|i: int, j: int| 0 <= i < j < ts.len() ==> (#[trigger] ts[i]).name != (#[trigger] ts[j]).name
}

/// One registry line applied to the list: blank lines, comments, lines
/// without `:` and empty names are ignored; the first entry of a name wins.
pub open spec fn theme_apply_line(acc: Seq<ThemeDescriptorModel>, line: Seq<u8>) -> Seq<
    ThemeDescriptorModel,
> {
    let t = text::trimmed(line);
    if t.len() == 0 || t[0] == 35 {
        acc
    } else {
        let c = text::find_byte(t, COLON);
        if c >= t.len() {
            acc
        } else {
            let rawname = text::trimmed(t.take(c));
            let path = text::trimmed(t.skip(c + 1));
            let star = rawname.len() > 0 && rawname[0] == 42;
            let name = if star {
                text::trimmed(rawname.drop_first())
            } else {
                rawname
            };
            if name.len() == 0 || has_theme(acc, name) {
                acc
            } else {
                acc.push(
                    ThemeDescriptorModel { name: name, asset_source_path: path, is_default: star },
                )
            }
        }
    }
}

/// All registry lines applied in order.
pub open spec fn theme_lines(rest: Seq<u8>, acc: Seq<ThemeDescriptorModel>) -> Seq<
    ThemeDescriptorModel,
>
    decreases rest.len(),
    via theme_lines_dec
{
    let i = text::find_byte(rest, NL);
    if i >= rest.len() {
        theme_apply_line(acc, rest)
    } else {
        theme_lines(rest.skip(i + 1), theme_apply_line(acc, rest.take(i)))
    }
}

#[via_fn]
proof fn theme_lines_dec(rest: Seq<u8>, acc: Seq<ThemeDescriptorModel>) {
    text::lemma_find_byte(rest, NL);
}

/// The registry spelled by a registry file.
pub open spec fn spec_parse_registry(s: Seq<u8>) -> Seq<ThemeDescriptorModel> {
    theme_lines(s, Seq::empty())
}

/// Applying a line keeps names unique.
proof fn lemma_theme_apply_line_unique(acc: Seq<ThemeDescriptorModel>, line: Seq<u8>)
    requires
        theme_names_unique(acc),
    ensures
        theme_names_unique(theme_apply_line(acc, line)),
{
    let r = theme_apply_line(acc, line);
    if r != acc {
        assert forall|i: int, j: int| 0 <= i < j < r.len() implies (#[trigger] r[i]).name != (
        #[trigger] r[j]).name by {
            if j == r.len() - 1 {
                assert(!has_theme(acc, r[j].name));
                assert(r[i] == acc[i]);
            }
        }
    }
}

/// The whole fold keeps names unique.
pub proof fn lemma_theme_lines_unique(rest: Seq<u8>, acc: Seq<ThemeDescriptorModel>)
    requires
        theme_names_unique(acc),
    ensures
        theme_names_unique(theme_lines(rest, acc)),
    decreases rest.len(),
{
    text::lemma_find_byte(rest, NL);
    let i = text::find_byte(rest, NL);
    if i >= rest.len() {
        lemma_theme_apply_line_unique(acc, rest);
    } else {
        lemma_theme_apply_line_unique(acc, rest.take(i));
        lemma_theme_lines_unique(rest.skip(i + 1), theme_apply_line(acc, rest.take(i)));
    }
}

/// Is the name already registered?
fn theme_has_name(ts: &Vec<ThemeDescriptor>, name: &[u8]) -> (r: bool)
    ensures
        r == has_theme(themes_view(ts@), name@),
{
    let mut i: usize = 0;
    while i < ts.len()
        invariant
            0 <= i <= ts@.len(),
            forall|j: int| 0 <= j < i ==> (#[trigger] themes_view(ts@)[j]).name != name@,
        decreases ts@.len() - i,
    {
        if text::bytes_eq(ts[i].name.as_slice(), name) {
            assert(themes_view(ts@)[i as int].name == name@);
            return true;
        }
        assert(themes_view(ts@)[i as int].name == ts@[i as int].name@);
        i = i + 1;
    }
    false
}

/// Apply one registry line.
fn theme_apply_line_exec(ts: &mut Vec<ThemeDescriptor>, line: &[u8])
    ensures
        themes_view(final(ts)@) == theme_apply_line(themes_view(old(ts)@), line@),
{
    let t = text::trim_bytes(line);
    if t.len() == 0 {
        return ;
    }
    if t[0] == 35 {
        return ;
    }
    let c = text::find_byte_from(t.as_slice(), 0, COLON);
    proof {
        assert(t@.skip(0) =~= t@);
    }
    if c >= t.len() {
        return ;
    }
    let rawname = text::trim_bytes(text::copy_range(t.as_slice(), 0, c).as_slice());
    let path = text::trim_bytes(text::copy_range(t.as_slice(), c + 1, t.len()).as_slice());
    proof {
        assert(t@.subrange(0, c as int) =~= t@.take(c as int));
        assert(t@.subrange(c + 1, t@.len() as int) =~= t@.skip(c + 1));
    }
    let star = rawname.len() > 0 && rawname[0] == 42;
    let name: Vec<u8> = if star {
        let inner = text::copy_range(rawname.as_slice(), 1, rawname.len());
        proof {
            assert(inner@ =~= rawname@.drop_first());
        }
        text::trim_bytes(inner.as_slice())
    } else {
        rawname
    };
    if name.len() == 0 {
        return ;
    }
    if theme_has_name(ts, name.as_slice()) {
        return ;
    }
    let ghost prev = themes_view(ts@);
    let ghost namev = name@;
    let ghost pathv = path@;
    ts.push(ThemeDescriptor { name, asset_source_path: path, is_default: star });
    proof {
        assert(!has_theme(prev, namev));
        assert(themes_view(ts@) =~= prev.push(
            ThemeDescriptorModel { name: namev, asset_source_path: pathv, is_default: star },
        ));
    }
}

/// Apply every registry line of `s` in order.
fn theme_lines_exec(s: &[u8], ts: &mut Vec<ThemeDescriptor>)
    ensures
        themes_view(final(ts)@) == theme_lines(s@, themes_view(old(ts)@)),
{
    proof {
        assert(s@.skip(0) =~= s@);
    }
    let mut p: usize = 0;
    loop
        invariant
            0 <= p <= s@.len(),
            theme_lines(s@.skip(p as int), themes_view(ts@)) == theme_lines(
                s@,
                themes_view(old(ts)@),
            ),
        decreases s@.len() - p,
    {
        let ghost rem = s@.skip(p as int);
        let j = text::find_byte_from(s, p, NL);
        let line = text::copy_range(s, p, j);
        proof {
            assert(text::find_byte(rem, NL) == j - p);
            assert(line@ =~= rem.take(j - p));
        }
        if j >= s.len() {
            proof {
                assert(j - p >= rem.len());
                assert(rem.take(j - p) =~= rem);
            }
            let ghost acc0 = themes_view(ts@);
            theme_apply_line_exec(ts, line.as_slice());
            proof {
                assert(theme_lines(rem, acc0) == theme_apply_line(acc0, rem));
            }
            return ;
        }
        let ghost acc0 = themes_view(ts@);
        theme_apply_line_exec(ts, line.as_slice());
        proof {
            assert(theme_lines(rem, acc0) == theme_lines(rem.skip(j - p + 1), themes_view(ts@)));
            assert(rem.skip(j - p + 1) =~= s@.skip(j + 1));
        }
        p = j + 1;
    }
}

/// Parse a theme registry file.
///
/// The result is exactly `spec_parse_registry` of the bytes: every
/// well-formed line in file order, first entry of each name winning, so the
/// registered names are unique.
pub fn parse_registry(s: &[u8]) -> (r: Vec<ThemeDescriptor>)
    ensures
        themes_view(r@) == spec_parse_registry(s@),
        theme_names_unique(themes_view(r@)),
{
    let mut ts: Vec<ThemeDescriptor> = Vec::new();
    proof {
        assert(themes_view(ts@) =~= Seq::<ThemeDescriptorModel>::empty());
    }
    theme_lines_exec(s, &mut ts);
    proof {
        lemma_theme_lines_unique(s@, Seq::empty());
    }
    ts
}

/// The theme a session settles on: a remembered choice, when it names a
/// registered theme, else the configured initial theme.
pub open spec fn spec_resolve_choice(
    ts: Seq<ThemeDescriptorModel>,
    stored: Option<Seq<u8>>,
    initial: Seq<u8>,
) -> Seq<u8> {
    match stored {
        Some(name) => if has_theme(ts, name) {
            name
        } else {
            initial
        },
        None => initial,
    }
}

/// Pick the theme to start with.
pub fn resolve_theme_choice(
    ts: &Vec<ThemeDescriptor>,
    stored: &Option<Vec<u8>>,
    initial: &[u8],
) -> (r: Vec<u8>)
    ensures
        r@ == spec_resolve_choice(
            themes_view(ts@),
            crate::front_matter::opt_view(*stored),
            initial@,
        ),
{
    match stored {
        Some(name) => {
            if theme_has_name(ts, name.as_slice()) {
                crate::paginate::copy_bytes(name)
            } else {
                let mut out: Vec<u8> = Vec::new();
                crate::text::push_bytes(&mut out, initial);
                proof {
                    assert(out@ =~= initial@);
                }
                out
            }
        },
        None => {
            let mut out: Vec<u8> = Vec::new();
            crate::text::push_bytes(&mut out, initial);
            proof {
                assert(out@ =~= initial@);
            }
            out
        },
    }
}

/// The output path of a theme's CSS bundle, relative to the themes output
/// directory: `<name>/default.css`.
pub open spec fn spec_theme_css_path(name: Seq<u8>) -> Seq<u8> {
    name + "/default.css".spec_bytes()
}

/// Compute the CSS bundle path of a theme.
pub fn theme_css_path(name: &[u8]) -> (r: Vec<u8>)
    ensures
        r@ == spec_theme_css_path(name@),
{
    let mut out: Vec<u8> = Vec::new();
    text::push_bytes(&mut out, name);
    text::push_bytes(&mut out, "/default.css".as_bytes());
    proof {
        assert(out@ =~= spec_theme_css_path(name@));
    }
    out
}

} // verus!
