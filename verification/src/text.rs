//! Byte-level text utilities: ASCII classification, lower-casing, slug
//! normalization, lexicographic ordering and small building blocks used by
//! the parsers and the output writer.

use vstd::prelude::*;

verus! {

pub const HYPHEN: u8 = 45u8;

/// ASCII decimal digit.
pub open spec fn is_digit(b: u8) -> bool {
    48 <= b <= 57
}

/// ASCII lower-case letter.
pub open spec fn is_lower(b: u8) -> bool {
    97 <= b <= 122
}

/// ASCII upper-case letter.
pub open spec fn is_upper(b: u8) -> bool {
    65 <= b <= 90
}

/// ASCII letter or digit: the bytes a slug keeps.
pub open spec fn is_alnum(b: u8) -> bool {
    is_digit(b) || is_lower(b) || is_upper(b)
}

/// Upper-case ASCII letters folded to lower case; all other bytes unchanged.
pub open spec fn to_lower(b: u8) -> u8 {
    if is_upper(b) { (b + 32) as u8 } else { b }
}

/// Executable byte classification matching the spec functions above.
pub fn byte_is_alnum(b: u8) -> (r: bool)
    ensures
        r == is_alnum(b),
{
    (48 <= b && b <= 57) || (97 <= b && b <= 122) || (65 <= b && b <= 90)
}

pub fn byte_to_lower(b: u8) -> (r: u8)
    ensures
        r == to_lower(b),
{
    if 65 <= b && b <= 90 { b + 32 } else { b }
}

/// The slug body built from a name, before trailing-hyphen trimming:
/// alphanumerics are lower-cased and kept, every other run of bytes becomes
/// a single interior hyphen.
pub open spec fn slug_core(s: Seq<u8>) -> Seq<u8>
    decreases s.len(),
{
    if s.len() == 0 {
        Seq::<u8>::empty()
    } else {
        let prev = slug_core(s.drop_last());
        let b = s.last();
        if is_alnum(b) {
            prev.push(to_lower(b))
        } else if prev.len() > 0 && prev.last() != HYPHEN {
            prev.push(HYPHEN)
        } else {
            prev
        }
    }
}

/// Normalized slug of a name: lower-cased, non-alphanumeric runs collapsed
/// to single hyphens, no leading or trailing hyphen.
pub open spec fn slug_of(s: Seq<u8>) -> Seq<u8> {
    let c = slug_core(s);
    if c.len() > 0 && c.last() == HYPHEN {
        c.drop_last()
    } else {
        c
    }
}

/// Derive the normalized slug of a name (for content files, the file stem).
pub fn slugify(s: &[u8]) -> (r: Vec<u8>)
    ensures
        r@ == slug_of(s@),
{
    let mut out: Vec<u8> = Vec::new();
    let mut i: usize = 0;
    while i < s.len()
        invariant
            0 <= i <= s@.len(),
            out@ == slug_core(s@.take(i as int)),
        decreases s@.len() - i,
    {
        let b = s[i];
        proof {
            assert(s@.take(i + 1).drop_last() =~= s@.take(i as int));
            assert(s@.take(i + 1).last() == s@[i as int]);
        }
        if byte_is_alnum(b) {
            out.push(byte_to_lower(b));
        } else if out.len() > 0 && out[out.len() - 1] != HYPHEN {
            out.push(HYPHEN);
        }
        i = i + 1;
    }
    proof {
        assert(s@.take(s@.len() as int) =~= s@);
    }
    if out.len() > 0 && out[out.len() - 1] == HYPHEN {
        out.pop();
        proof {
            assert(out@ =~= slug_core(s@).drop_last());
        }
    }
    out
}

/// Non-strict lexicographic order on byte sequences: the empty sequence
/// first, then by leading byte, ties decided by the remainders.
pub open spec fn lex_le(a: Seq<u8>, b: Seq<u8>) -> bool
    decreases a.len(),
{
    if a.len() == 0 {
        true
    } else if b.len() == 0 {
        false
    } else if a[0] < b[0] {
        true
    } else if a[0] > b[0] {
        false
    } else {
        lex_le(a.drop_first(), b.drop_first())
    }
}

/// Any two byte sequences are ordered one way or the other.
pub proof fn lemma_lex_le_total(a: Seq<u8>, b: Seq<u8>)
    ensures
        lex_le(a, b) || lex_le(b, a),
    decreases a.len(),
{
    if a.len() == 0 || b.len() == 0 {
    } else if a[0] == b[0] {
        lemma_lex_le_total(a.drop_first(), b.drop_first());
    }
}

/// Lexicographic order is transitive.
pub proof fn lemma_lex_le_trans(a: Seq<u8>, b: Seq<u8>, c: Seq<u8>)
    requires
        lex_le(a, b),
        lex_le(b, c),
    ensures
        lex_le(a, c),
    decreases a.len(),
{
    if a.len() == 0 {
    } else {
        if b.len() == 0 {
        } else if c.len() == 0 {
        } else {
            if a[0] == b[0] && b[0] == c[0] {
                lemma_lex_le_trans(a.drop_first(), b.drop_first(), c.drop_first());
            }
        }
    }
}

/// Sequences ordered both ways are equal.
pub proof fn lemma_lex_le_antisym(a: Seq<u8>, b: Seq<u8>)
    requires
        lex_le(a, b),
        lex_le(b, a),
    ensures
        a == b,
    decreases a.len(),
{
    if a.len() == 0 {
        assert(b.len() == 0);
        assert(a =~= b);
    } else {
        assert(b.len() > 0);
        assert(a[0] == b[0]);
        lemma_lex_le_antisym(a.drop_first(), b.drop_first());
        assert(a =~= seq![a[0]] + a.drop_first());
        assert(b =~= seq![b[0]] + b.drop_first());
    }
}

/// Decide `lex_le` on two byte vectors.
pub fn lex_le_bytes(a: &Vec<u8>, b: &Vec<u8>) -> (r: bool)
    ensures
        r == lex_le(a@, b@),
{
    let mut i: usize = 0;
    proof {
        assert(a@.skip(0) =~= a@);
        assert(b@.skip(0) =~= b@);
    }
    loop
        invariant
            0 <= i <= a@.len(),
            i <= b@.len(),
            lex_le(a@, b@) == lex_le(a@.skip(i as int), b@.skip(i as int)),
            lex_le(b@, a@) == lex_le(b@.skip(i as int), a@.skip(i as int)),
        decreases a@.len() - i,
    {
        if i == a.len() {
            return true;
        }
        if i == b.len() {
            return false;
        }
        let x = a[i];
        let y = b[i];
        if x < y {
            return true;
        }
        if x > y {
            return false;
        }
        proof {
            assert(a@.skip(i as int).drop_first() =~= a@.skip(i + 1));
            assert(b@.skip(i as int).drop_first() =~= b@.skip(i + 1));
        }
        i = i + 1;
    }
}

/// True when `b` occurs in `s` (used to find line breaks and separators).
pub open spec fn contains_byte(s: Seq<u8>, b: u8) -> bool {
    exists|i: int| 0 <= i < s.len() && s[i] == b
}

/// Index of the first occurrence of `b` in `s`, or the length of `s`.
pub open spec fn find_byte(s: Seq<u8>, b: u8) -> int
    decreases s.len(),
{
    if s.len() == 0 {
        0
    } else if s[0] == b {
        0
    } else {
        1 + find_byte(s.drop_first(), b)
    }
}

pub proof fn lemma_find_byte(s: Seq<u8>, b: u8)
    ensures
        0 <= find_byte(s, b) <= s.len(),
        find_byte(s, b) < s.len() ==> s[find_byte(s, b)] == b,
        forall|j: int| 0 <= j < find_byte(s, b) ==> s[j] != b,
        find_byte(s, b) == s.len() ==> !contains_byte(s, b),
    decreases s.len(),
{
    if s.len() == 0 {
    } else if s[0] == b {
    } else {
        lemma_find_byte(s.drop_first(), b);
        let k = find_byte(s, b);
        assert forall|j: int| 0 <= j < k implies s[j] != b by {
            if j > 0 {
                assert(s.drop_first()[j - 1] == s[j]);
            }
        }
        if k < s.len() {
            assert(s.drop_first()[k - 1] == s[k]);
        }
    }
}

/// `find_byte` is pinned down by its characteristic properties.
pub proof fn lemma_find_byte_is(t: Seq<u8>, b: u8, k: int)
    requires
        0 <= k <= t.len(),
        forall|j: int| 0 <= j < k ==> t[j] != b,
        k < t.len() ==> t[k] == b,
    ensures
        find_byte(t, b) == k,
{
    lemma_find_byte(t, b);
    let f = find_byte(t, b);
    if f < k {
        assert(t[f] == b);
    }
    if f > k {
        assert(k < t.len());
    }
}

/// Find the first occurrence of `b` at or after `from`; the result is the
/// absolute index of that occurrence, or the length of `s`.
pub fn find_byte_from(s: &[u8], from: usize, b: u8) -> (r: usize)
    requires
        from <= s@.len(),
    ensures
        from <= r <= s@.len(),
        r - from == find_byte(s@.skip(from as int), b),
{
    let mut i: usize = from;
    while i < s.len()
        invariant
            from <= i <= s@.len(),
            forall|j: int| from <= j < i ==> s@[j] != b,
        decreases s@.len() - i,
    {
        if s[i] == b {
            proof {
                let t = s@.skip(from as int);
                assert(forall|j: int| 0 <= j < i - from ==> t[j] == s@[j + from] && t[j] != b);
                assert(t[i - from] == b);
                lemma_find_byte_is(t, b, i - from);
            }
            return i;
        }
        i = i + 1;
    }
    proof {
        let t = s@.skip(from as int);
        assert(forall|j: int| 0 <= j < t.len() ==> t[j] == s@[j + from] && t[j] != b);
        lemma_find_byte_is(t, b, t.len() as int);
    }
    s.len()
}

/// Leading and trailing ASCII spaces and tabs removed.
pub open spec fn is_space(b: u8) -> bool {
    b == 32 || b == 9 || b == 13
}

/// Index of the first non-space byte of `s` (the length when all spaces).
pub open spec fn trim_start_idx(s: Seq<u8>) -> int
    decreases s.len(),
{
    if s.len() == 0 {
        0
    } else if !is_space(s[0]) {
        0
    } else {
        1 + trim_start_idx(s.drop_first())
    }
}

/// One past the last non-space byte of `s` (0 when all spaces).
pub open spec fn trim_end_idx(s: Seq<u8>) -> int
    decreases s.len(),
{
    if s.len() == 0 {
        0
    } else if !is_space(s.last()) {
        s.len() as int
    } else {
        trim_end_idx(s.drop_last())
    }
}

/// `s` with leading and trailing spaces, tabs and carriage returns removed.
pub open spec fn trimmed(s: Seq<u8>) -> Seq<u8> {
    let a = trim_start_idx(s);
    let b = trim_end_idx(s);
    if a <= b {
        s.subrange(a, b)
    } else {
        Seq::<u8>::empty()
    }
}

pub proof fn lemma_trim_idx(s: Seq<u8>)
    ensures
        0 <= trim_start_idx(s) <= s.len(),
        0 <= trim_end_idx(s) <= s.len(),
        forall|j: int| 0 <= j < trim_start_idx(s) ==> is_space(s[j]),
        trim_start_idx(s) < s.len() ==> !is_space(s[trim_start_idx(s)]),
        forall|j: int| trim_end_idx(s) <= j < s.len() ==> is_space(s[j]),
        trim_end_idx(s) > 0 ==> !is_space(s[trim_end_idx(s) - 1]),
    decreases s.len(),
{
    if s.len() == 0 {
    } else {
        if is_space(s[0]) {
            lemma_trim_idx(s.drop_first());
            assert forall|j: int| 0 <= j < trim_start_idx(s) implies is_space(s[j]) by {
                if j > 0 {
                    assert(s.drop_first()[j - 1] == s[j]);
                }
            }
            if trim_start_idx(s) < s.len() {
                assert(s.drop_first()[trim_start_idx(s) - 1] == s[trim_start_idx(s)]);
            }
        } else {
            lemma_trim_idx(s.drop_first());
        }
        if is_space(s.last()) {
            lemma_trim_idx(s.drop_last());
            assert forall|j: int| trim_end_idx(s) <= j < s.len() implies is_space(s[j]) by {
                if j < s.len() - 1 {
                    assert(s.drop_last()[j] == s[j]);
                }
            }
        } else {
            lemma_trim_idx(s.drop_last());
        }
    }
}

/// Copy of `s[from..to]` as a fresh vector.
pub fn copy_range(s: &[u8], from: usize, to: usize) -> (r: Vec<u8>)
    requires
        from <= to <= s@.len(),
    ensures
        r@ == s@.subrange(from as int, to as int),
{
    let mut out: Vec<u8> = Vec::new();
    let mut i: usize = from;
    while i < to
        invariant
            from <= i <= to <= s@.len(),
            out@ == s@.subrange(from as int, i as int),
        decreases to - i,
    {
        out.push(s[i]);
        proof {
            assert(s@.subrange(from as int, i + 1) =~= s@.subrange(from as int, i as int).push(
                s@[i as int],
            ));
        }
        i = i + 1;
    }
    out
}

/// Copy of `s` with surrounding spaces removed.
pub fn trim_bytes(s: &[u8]) -> (r: Vec<u8>)
    ensures
        r@ == trimmed(s@),
{
    proof {
        lemma_trim_idx(s@);
    }
    let mut a: usize = 0;
    while a < s.len() && (s[a] == 32 || s[a] == 9 || s[a] == 13)
        invariant
            0 <= a <= s@.len(),
            a <= trim_start_idx(s@),
            forall|j: int| 0 <= j < trim_start_idx(s@) ==> is_space(s@[j]),
            trim_start_idx(s@) < s@.len() ==> !is_space(s@[trim_start_idx(s@)]),
        decreases s@.len() - a,
    {
        a = a + 1;
    }
    assert(a == trim_start_idx(s@));
    let mut b: usize = s.len();
    while b > a && (s[b - 1] == 32 || s[b - 1] == 9 || s[b - 1] == 13)
        invariant
            a <= b <= s@.len(),
            trim_end_idx(s@) <= b || trim_end_idx(s@) < a,
            forall|j: int| trim_end_idx(s@) <= j < s@.len() ==> is_space(s@[j]),
            trim_end_idx(s@) > 0 ==> !is_space(s@[trim_end_idx(s@) - 1]),
        decreases b,
    {
        b = b - 1;
    }
    if b <= a {
        proof {
            if trim_start_idx(s@) <= trim_end_idx(s@) {
                assert(trimmed(s@) =~= Seq::<u8>::empty());
            }
        }
        Vec::new()
    } else {
        assert(b == trim_end_idx(s@));
        copy_range(s, a, b)
    }
}

/// Byte-for-byte equality of two byte strings.
pub fn bytes_eq(a: &[u8], b: &[u8]) -> (r: bool)
    ensures
        r == (a@ == b@),
{
    if a.len() != b.len() {
        return false;
    }
    let mut i: usize = 0;
    while i < a.len()
        invariant
            a@.len() == b@.len(),
            0 <= i <= a@.len(),
            forall|j: int| 0 <= j < i ==> a@[j] == b@[j],
        decreases a@.len() - i,
    {
        if a[i] != b[i] {
            return false;
        }
        i = i + 1;
    }
    proof {
        assert(a@ =~= b@);
    }
    true
}

/// `s` with every ASCII upper-case letter folded to lower case.
pub open spec fn lower_seq(s: Seq<u8>) -> Seq<u8> {
    s.map_values(|b: u8| to_lower(b))
}

/// Lower-case a byte string.
pub fn lower_bytes(s: &[u8]) -> (r: Vec<u8>)
    ensures
        r@ == lower_seq(s@),
{
    let mut out: Vec<u8> = Vec::new();
    let mut i: usize = 0;
    while i < s.len()
        invariant
            0 <= i <= s@.len(),
            out@ == lower_seq(s@.take(i as int)),
        decreases s@.len() - i,
    {
        out.push(byte_to_lower(s[i]));
        proof {
            assert(lower_seq(s@.take(i + 1)) =~= lower_seq(s@.take(i as int)).push(
                to_lower(s@[i as int]),
            ));
        }
        i = i + 1;
    }
    proof {
        assert(s@.take(s@.len() as int) =~= s@);
    }
    out
}

/// Append `src` to `out` (the output writer's basic step).
pub fn push_bytes(out: &mut Vec<u8>, src: &[u8])
    ensures
        final(out)@ == old(out)@ + src@,
{
    let mut i: usize = 0;
    while i < src.len()
        invariant
            0 <= i <= src@.len(),
            out@ == old(out)@ + src@.take(i as int),
        decreases src@.len() - i,
    {
        out.push(src[i]);
        proof {
            assert(old(out)@ + src@.take(i + 1) =~= (old(out)@ + src@.take(i as int)).push(
                src@[i as int],
            ));
        }
        i = i + 1;
    }
    proof {
        assert(old(out)@ + src@.take(src@.len() as int) =~= old(out)@ + src@);
    }
}

} // verus!
