//! Site configuration and the aggregate site metadata.  The configuration
//! file is a list of `key: value` lines (`site_title`, `description`,
//! `base_url`, `pagination_size`, `excerpt_length`, `theme_default`); every
//! key is optional and falls back to a default, malformed or unknown lines
//! are ignored, and the first occurrence of a key wins.

use vstd::prelude::*;
use vstd::string::*;
use crate::front_matter;
use crate::front_matter::NL;
use crate::text;

verus! {

/// Site configuration (mathematical model).
pub struct SiteConfigModel {
    pub site_title: Seq<u8>,
    pub description: Seq<u8>,
    pub base_url: Seq<u8>,
    pub pagination_size: int,
    pub excerpt_length: int,
    pub theme_default: Seq<u8>,
}

/// Site configuration.
pub struct SiteConfig {
    pub site_title: Vec<u8>,
    pub description: Vec<u8>,
    pub base_url: Vec<u8>,
    pub pagination_size: usize,
    pub excerpt_length: usize,
    pub theme_default: Vec<u8>,
}

impl View for SiteConfig {
    type V = SiteConfigModel;

    open spec fn view(&self) -> SiteConfigModel {
        SiteConfigModel {
            site_title: self.site_title@,
            description: self.description@,
            base_url: self.base_url@,
            pagination_size: self.pagination_size as int,
            excerpt_length: self.excerpt_length as int,
            theme_default: self.theme_default@,
        }
    }
}

impl SiteConfig {
    /// What every configuration must satisfy: a page holds at least one
    /// post summary.
    pub open spec fn wf(self) -> bool {
        self.pagination_size >= 1
    }
}

/// The value of an all-digit byte string.
pub open spec fn dec_value(s: Seq<u8>) -> int
    decreases s.len(),
{
    if s.len() == 0 {
        0
    } else {
        dec_value(s.drop_last()) * 10 + (s.last() - 48)
    }
}

pub open spec fn all_digits(s: Seq<u8>) -> bool {
    forall|i: int| 0 <= i < s.len() ==> text::is_digit(#[trigger] s[i])
}

/// A size value parses when it is one to six digits (so at most 999999),
/// and is taken only when positive.
pub open spec fn parse_size(s: Seq<u8>) -> Option<int> {
    if 1 <= s.len() <= 6 && all_digits(s) && dec_value(s) >= 1 {
        Some(dec_value(s))
    } else {
        None
    }
}

/// Ten to the `k`.
pub open spec fn pow10(k: int) -> int
    decreases k,
{
    if k <= 0 {
        1
    } else {
        10 * pow10(k - 1)
    }
}

proof fn lemma_dec_value_bound(s: Seq<u8>)
    requires
        all_digits(s),
    ensures
        0 <= dec_value(s) < pow10(s.len() as int),
    decreases s.len(),
{
    if s.len() > 0 {
        assert(all_digits(s.drop_last())) by {
            assert(forall|i: int| 0 <= i < s.len() - 1 ==> s.drop_last()[i] == #[trigger] s[i]);
        }
        lemma_dec_value_bound(s.drop_last());
    }
}

/// Parse a positive size of at most six digits.
pub fn parse_size_exec(s: &[u8]) -> (r: Option<usize>)
    ensures
        match r {
            Some(v) => parse_size(s@) == Some(v as int),
            None => parse_size(s@) is None,
        },
{
    if s.len() < 1 || s.len() > 6 {
        return None;
    }
    let mut i: usize = 0;
    let mut v: usize = 0;
    while i < s.len()
        invariant
            0 <= i <= s@.len(),
            s@.len() <= 6,
            forall|j: int| 0 <= j < i ==> text::is_digit(#[trigger] s@[j]),
            v as int == dec_value(s@.take(i as int)),
            v < 1000000,
        decreases s@.len() - i,
    {
        let b = s[i];
        if !(48 <= b && b <= 57) {
            return None;
        }
        proof {
            assert(s@.take(i + 1).drop_last() =~= s@.take(i as int));
            assert(s@.take(i + 1).last() == s@[i as int]);
            assert(all_digits(s@.take(i + 1)));
            lemma_dec_value_bound(s@.take(i + 1));
            assert(pow10(0) == 1);
            assert(pow10(1) == 10);
            assert(pow10(2) == 100);
            assert(pow10(3) == 1000);
            assert(pow10(4) == 10000);
            assert(pow10(5) == 100000);
            assert(pow10(6) == 1000000);
        }
        v = v * 10 + (b - 48) as usize;
        i = i + 1;
    }
    proof {
        assert(s@.take(s@.len() as int) =~= s@);
    }
    if v >= 1 {
        Some(v)
    } else {
        None
    }
}

/// Raw configuration fields while the lines are read (model).
pub struct ConfigRawModel {
    pub site_title: Option<Seq<u8>>,
    pub description: Option<Seq<u8>>,
    pub base_url: Option<Seq<u8>>,
    pub pagination_size: Option<Seq<u8>>,
    pub excerpt_length: Option<Seq<u8>>,
    pub theme_default: Option<Seq<u8>>,
}

/// Raw configuration fields while the lines are read.
pub struct ConfigRaw {
    pub site_title: Option<Vec<u8>>,
    pub description: Option<Vec<u8>>,
    pub base_url: Option<Vec<u8>>,
    pub pagination_size: Option<Vec<u8>>,
    pub excerpt_length: Option<Vec<u8>>,
    pub theme_default: Option<Vec<u8>>,
}

impl View for ConfigRaw {
    type V = ConfigRawModel;

    open spec fn view(&self) -> ConfigRawModel {
        ConfigRawModel {
            site_title: front_matter::opt_view(self.site_title),
            description: front_matter::opt_view(self.description),
            base_url: front_matter::opt_view(self.base_url),
            pagination_size: front_matter::opt_view(self.pagination_size),
            excerpt_length: front_matter::opt_view(self.excerpt_length),
            theme_default: front_matter::opt_view(self.theme_default),
        }
    }
}

pub open spec fn empty_config_raw() -> ConfigRawModel {
    ConfigRawModel {
        site_title: None,
        description: None,
        base_url: None,
        pagination_size: None,
        excerpt_length: None,
        theme_default: None,
    }
}

/// One configuration assignment; the first occurrence of a key wins, and
/// anything else is ignored.
pub open spec fn config_set_field(acc: ConfigRawModel, key: Seq<u8>, value: Seq<u8>)
    -> ConfigRawModel {
    if key == "site_title".spec_bytes() && acc.site_title is None {
        ConfigRawModel { site_title: Some(value), ..acc }
    } else if key == "description".spec_bytes() && acc.description is None {
        ConfigRawModel { description: Some(value), ..acc }
    } else if key == "base_url".spec_bytes() && acc.base_url is None {
        ConfigRawModel { base_url: Some(value), ..acc }
    } else if key == "pagination_size".spec_bytes() && acc.pagination_size is None {
        ConfigRawModel { pagination_size: Some(value), ..acc }
    } else if key == "excerpt_length".spec_bytes() && acc.excerpt_length is None {
        ConfigRawModel { excerpt_length: Some(value), ..acc }
    } else if key == "theme_default".spec_bytes() && acc.theme_default is None {
        ConfigRawModel { theme_default: Some(value), ..acc }
    } else {
        acc
    }
}

/// One configuration line: blank or separator-free lines are ignored.
pub open spec fn config_apply_line(acc: ConfigRawModel, line: Seq<u8>) -> ConfigRawModel {
    let t = text::trimmed(line);
    if t.len() == 0 {
        acc
    } else {
        let c = text::find_byte(t, front_matter::COLON);
        if c >= t.len() {
            acc
        } else {
            config_set_field(acc, text::trimmed(t.take(c)), text::trimmed(t.skip(c + 1)))
        }
    }
}

/// All configuration lines applied in order.
pub open spec fn config_lines(rest: Seq<u8>, acc: ConfigRawModel) -> ConfigRawModel
    decreases rest.len(),
    via config_lines_dec
{
    let i = text::find_byte(rest, NL);
    if i >= rest.len() {
        config_apply_line(acc, rest)
    } else {
        config_lines(rest.skip(i + 1), config_apply_line(acc, rest.take(i)))
    }
}

#[via_fn]
proof fn config_lines_dec(rest: Seq<u8>, acc: ConfigRawModel) {
    text::lemma_find_byte(rest, NL);
}

/// The defaults applied to the raw fields.  A `pagination_size` or
/// `excerpt_length` that is not a positive number of at most six digits
/// falls back to its default.
pub open spec fn config_of_raw(raw: ConfigRawModel) -> SiteConfigModel {
    SiteConfigModel {
        site_title: match raw.site_title {
            Some(v) => v,
            None => Seq::empty(),
        },
        description: match raw.description {
            Some(v) => v,
            None => Seq::empty(),
        },
        base_url: match raw.base_url {
            Some(v) => v,
            None => Seq::empty(),
        },
        pagination_size: match raw.pagination_size {
            Some(v) => match parse_size(v) {
                Some(n) => n,
                None => crate::DEFAULT_PAGINATION_SIZE as int,
            },
            None => crate::DEFAULT_PAGINATION_SIZE as int,
        },
        excerpt_length: match raw.excerpt_length {
            Some(v) => match parse_size(v) {
                Some(n) => n,
                None => crate::DEFAULT_EXCERPT_LENGTH as int,
            },
            None => crate::DEFAULT_EXCERPT_LENGTH as int,
        },
        theme_default: match raw.theme_default {
            Some(v) => v,
            None => "default".spec_bytes(),
        },
    }
}

/// The configuration spelled by a configuration file.
pub open spec fn spec_parse_config(s: Seq<u8>) -> SiteConfigModel {
    config_of_raw(config_lines(s, empty_config_raw()))
}

/// Apply one configuration assignment.
fn config_set_field_exec(raw: &mut ConfigRaw, key: Vec<u8>, value: Vec<u8>)
    ensures
        final(raw)@ == config_set_field(old(raw)@, key@, value@),
{
    if text::bytes_eq(key.as_slice(), "site_title".as_bytes()) && raw.site_title.is_none() {
        raw.site_title = Some(value);
    } else if text::bytes_eq(key.as_slice(), "description".as_bytes())
        && raw.description.is_none() {
        raw.description = Some(value);
    } else if text::bytes_eq(key.as_slice(), "base_url".as_bytes()) && raw.base_url.is_none() {
        raw.base_url = Some(value);
    } else if text::bytes_eq(key.as_slice(), "pagination_size".as_bytes())
        && raw.pagination_size.is_none() {
        raw.pagination_size = Some(value);
    } else if text::bytes_eq(key.as_slice(), "excerpt_length".as_bytes())
        && raw.excerpt_length.is_none() {
        raw.excerpt_length = Some(value);
    } else if text::bytes_eq(key.as_slice(), "theme_default".as_bytes())
        && raw.theme_default.is_none() {
        raw.theme_default = Some(value);
    }
}

/// Apply one configuration line.
fn config_apply_line_exec(raw: &mut ConfigRaw, line: &[u8])
    ensures
        final(raw)@ == config_apply_line(old(raw)@, line@),
{
    let t = text::trim_bytes(line);
    if t.len() == 0 {
        return ;
    }
    let c = text::find_byte_from(t.as_slice(), 0, front_matter::COLON);
    proof {
        assert(t@.skip(0) =~= t@);
    }
    if c >= t.len() {
        return ;
    }
    let key = text::trim_bytes(text::copy_range(t.as_slice(), 0, c).as_slice());
    let value = text::trim_bytes(text::copy_range(t.as_slice(), c + 1, t.len()).as_slice());
    proof {
        assert(t@.subrange(0, c as int) =~= t@.take(c as int));
        assert(t@.subrange(c + 1, t@.len() as int) =~= t@.skip(c + 1));
    }
    config_set_field_exec(raw, key, value);
}

/// Apply every configuration line of `s` in order.
fn config_lines_exec(s: &[u8], raw: &mut ConfigRaw)
    ensures
        final(raw)@ == config_lines(s@, old(raw)@),
{
    proof {
        assert(s@.skip(0) =~= s@);
    }
    let mut p: usize = 0;
    loop
        invariant
            0 <= p <= s@.len(),
            config_lines(s@.skip(p as int), raw@) == config_lines(s@, old(raw)@),
        decreases s@.len() - p,
    {
        let ghost rem = s@.skip(p as int);
        let j = text::find_byte_from(s, p, NL);
        let line = text::copy_range(s, p, j);
        proof {
            assert(text::find_byte(rem, NL) == j - p);
            assert(line@ =~= rem.take(j - p));
        }
        if j >= s.len() {
            proof {
                assert(j - p >= rem.len());
                assert(rem.take(j - p) =~= rem);
            }
            let ghost raw0 = raw@;
            config_apply_line_exec(raw, line.as_slice());
            proof {
                assert(config_lines(rem, raw0) == config_apply_line(raw0, rem));
            }
            return ;
        }
        let ghost raw0 = raw@;
        config_apply_line_exec(raw, line.as_slice());
        proof {
            assert(config_lines(rem, raw0) == config_lines(rem.skip(j - p + 1), raw@));
            assert(rem.skip(j - p + 1) =~= s@.skip(j + 1));
        }
        p = j + 1;
    }
}

/// Parse a configuration file.  Every field is optional; the result is
/// exactly `spec_parse_config` of the bytes, and is always well-formed.
pub fn parse_config(s: &[u8]) -> (r: SiteConfig)
    ensures
        r@ == spec_parse_config(s@),
        r.wf(),
{
    let mut raw = ConfigRaw {
        site_title: None,
        description: None,
        base_url: None,
        pagination_size: None,
        excerpt_length: None,
        theme_default: None,
    };
    proof {
        assert(raw@ == empty_config_raw());
    }
    config_lines_exec(s, &mut raw);
    // Fill the defaults.
    let site_title = match raw.site_title {
        Some(v) => v,
        None => Vec::new(),
    };
    let description = match raw.description {
        Some(v) => v,
        None => Vec::new(),
    };
    let base_url = match raw.base_url {
        Some(v) => v,
        None => Vec::new(),
    };
    let pagination_size: usize = match &raw.pagination_size {
        Some(v) => match parse_size_exec(v.as_slice()) {
            Some(n) => n,
            None => crate::DEFAULT_PAGINATION_SIZE,
        },
        None => crate::DEFAULT_PAGINATION_SIZE,
    };
    let excerpt_length: usize = match &raw.excerpt_length {
        Some(v) => match parse_size_exec(v.as_slice()) {
            Some(n) => n,
            None => crate::DEFAULT_EXCERPT_LENGTH,
        },
        None => crate::DEFAULT_EXCERPT_LENGTH,
    };
    let theme_default: Vec<u8> = match raw.theme_default {
        Some(v) => v,
        None => {
            let mut d: Vec<u8> = Vec::new();
            text::push_bytes(&mut d, "default".as_bytes());
            proof {
                assert(d@ =~= "default".spec_bytes());
            }
            d
        },
    };
    SiteConfig { site_title, description, base_url, pagination_size, excerpt_length, theme_default }
}

/// The aggregate metadata of the whole site (mathematical model).
pub struct SiteMetaDataModel {
    pub site_title: Seq<u8>,
    pub description: Seq<u8>,
    pub base_url: Seq<u8>,
    pub pagination_size: int,
    pub total_posts: int,
    pub total_pages: int,
    pub total_archive_pages: int,
    pub theme_default: Seq<u8>,
}

/// The aggregate metadata of the whole site: configuration plus the derived
/// totals of both categories.
pub struct SiteMetaData {
    pub site_title: Vec<u8>,
    pub description: Vec<u8>,
    pub base_url: Vec<u8>,
    pub pagination_size: usize,
    pub total_posts: usize,
    pub total_pages: usize,
    pub total_archive_pages: usize,
    pub theme_default: Vec<u8>,
}

impl View for SiteMetaData {
    type V = SiteMetaDataModel;

    open spec fn view(&self) -> SiteMetaDataModel {
        SiteMetaDataModel {
            site_title: self.site_title@,
            description: self.description@,
            base_url: self.base_url@,
            pagination_size: self.pagination_size as int,
            total_posts: self.total_posts as int,
            total_pages: self.total_pages as int,
            total_archive_pages: self.total_archive_pages as int,
            theme_default: self.theme_default@,
        }
    }
}

} // verus!
