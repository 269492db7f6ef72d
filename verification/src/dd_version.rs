//! Data Dictionary version values.
//!
//! Accepts exactly the released (`MAJOR.MINOR.PATCH`) and development
//! (`MAJOR.MINOR.PATCH-N-gHASH`) spellings, against the known 35-version DD
//! chain (`3.22.0` to `4.1.1`). Released versions order as numeric triples,
//! a development version sorts after its base release without ever being
//! equal to it, and two development versions compare equal only on complete
//! string identity: every other pair of development versions is
//! incomparable.
use core::cmp::Ordering;
use vstd::prelude::*;

use crate::text::{
    cat3, cat5, chars_between, chars_of, decimal, decimal_string, digit_char, find_char, first_index,
    has_char, is_first_index, join_with, lemma_join_split, lemma_split_join, split_chars, str_eq,
    split_on, string_of, views,
};

verus! {

/// One DD version, released or development.
#[derive(Debug, Hash)]
pub enum DdVersion {
    Released { major: u32, minor: u32, patch: u32 },
    /// `raw` is the complete input spelling: two development versions are
    /// equal only when it matches verbatim.
    Development { base: (u32, u32, u32), raw: String },
}

/// The mathematical value of a [`DdVersion`].
pub enum DdVersionView {
    Released(u32, u32, u32),
    Development((u32, u32, u32), Seq<char>),
}

impl View for DdVersion {
    type V = DdVersionView;

    open spec fn view(&self) -> DdVersionView {
        match self {
            DdVersion::Released { major, minor, patch } => DdVersionView::Released(
                *major,
                *minor,
                *patch,
            ),
            DdVersion::Development { base, raw } => DdVersionView::Development(*base, raw@),
        }
    }
}

/// Whether `(major, minor, patch)` is one of the 35 released DD versions.
pub open spec fn known_release(major: u32, minor: u32, patch: u32) -> bool {
    ||| (major == 3 && minor == 22 && patch == 0)
    ||| (major == 3 && minor == 23 && patch == 0)
    ||| (major == 3 && minor == 23 && patch == 1)
    ||| (major == 3 && minor == 23 && patch == 2)
    ||| (major == 3 && minor == 23 && patch == 3)
    ||| (major == 3 && minor == 24 && patch == 0)
    ||| (major == 3 && minor == 25 && patch == 0)
    ||| (major == 3 && minor == 26 && patch == 0)
    ||| (major == 3 && minor == 27 && patch == 0)
    ||| (major == 3 && minor == 28 && patch == 0)
    ||| (major == 3 && minor == 28 && patch == 1)
    ||| (major == 3 && minor == 29 && patch == 0)
    ||| (major == 3 && minor == 30 && patch == 0)
    ||| (major == 3 && minor == 31 && patch == 0)
    ||| (major == 3 && minor == 32 && patch == 0)
    ||| (major == 3 && minor == 32 && patch == 1)
    ||| (major == 3 && minor == 33 && patch == 0)
    ||| (major == 3 && minor == 34 && patch == 0)
    ||| (major == 3 && minor == 35 && patch == 0)
    ||| (major == 3 && minor == 36 && patch == 0)
    ||| (major == 3 && minor == 37 && patch == 0)
    ||| (major == 3 && minor == 37 && patch == 1)
    ||| (major == 3 && minor == 37 && patch == 2)
    ||| (major == 3 && minor == 38 && patch == 0)
    ||| (major == 3 && minor == 38 && patch == 1)
    ||| (major == 3 && minor == 39 && patch == 0)
    ||| (major == 3 && minor == 40 && patch == 0)
    ||| (major == 3 && minor == 40 && patch == 1)
    ||| (major == 3 && minor == 41 && patch == 0)
    ||| (major == 3 && minor == 42 && patch == 0)
    ||| (major == 3 && minor == 42 && patch == 1)
    ||| (major == 3 && minor == 42 && patch == 2)
    ||| (major == 4 && minor == 0 && patch == 0)
    ||| (major == 4 && minor == 1 && patch == 0)
    ||| (major == 4 && minor == 1 && patch == 1)
}

fn is_known_release(major: u32, minor: u32, patch: u32) -> (r: bool)
    ensures
        r == known_release(major, minor, patch),
{
    (major == 3 && minor == 22 && patch == 0) ||
    (major == 3 && minor == 23 && patch == 0) ||
    (major == 3 && minor == 23 && patch == 1) ||
    (major == 3 && minor == 23 && patch == 2) ||
    (major == 3 && minor == 23 && patch == 3) ||
    (major == 3 && minor == 24 && patch == 0) ||
    (major == 3 && minor == 25 && patch == 0) ||
    (major == 3 && minor == 26 && patch == 0) ||
    (major == 3 && minor == 27 && patch == 0) ||
    (major == 3 && minor == 28 && patch == 0) ||
    (major == 3 && minor == 28 && patch == 1) ||
    (major == 3 && minor == 29 && patch == 0) ||
    (major == 3 && minor == 30 && patch == 0) ||
    (major == 3 && minor == 31 && patch == 0) ||
    (major == 3 && minor == 32 && patch == 0) ||
    (major == 3 && minor == 32 && patch == 1) ||
    (major == 3 && minor == 33 && patch == 0) ||
    (major == 3 && minor == 34 && patch == 0) ||
    (major == 3 && minor == 35 && patch == 0) ||
    (major == 3 && minor == 36 && patch == 0) ||
    (major == 3 && minor == 37 && patch == 0) ||
    (major == 3 && minor == 37 && patch == 1) ||
    (major == 3 && minor == 37 && patch == 2) ||
    (major == 3 && minor == 38 && patch == 0) ||
    (major == 3 && minor == 38 && patch == 1) ||
    (major == 3 && minor == 39 && patch == 0) ||
    (major == 3 && minor == 40 && patch == 0) ||
    (major == 3 && minor == 40 && patch == 1) ||
    (major == 3 && minor == 41 && patch == 0) ||
    (major == 3 && minor == 42 && patch == 0) ||
    (major == 3 && minor == 42 && patch == 1) ||
    (major == 3 && minor == 42 && patch == 2) ||
    (major == 4 && minor == 0 && patch == 0) ||
    (major == 4 && minor == 1 && patch == 0) ||
    (major == 4 && minor == 1 && patch == 1)
}

/// `char::is_whitespace`: the Unicode `White_Space` property.
pub open spec fn is_whitespace(c: char) -> bool {
    ||| ('\u{9}' <= c && c <= '\u{d}')
    ||| c == ' '
    ||| c == '\u{85}'
    ||| c == '\u{a0}'
    ||| c == '\u{1680}'
    ||| ('\u{2000}' <= c && c <= '\u{200a}')
    ||| c == '\u{2028}'
    ||| c == '\u{2029}'
    ||| c == '\u{202f}'
    ||| c == '\u{205f}'
    ||| c == '\u{3000}'
}

fn char_is_whitespace(c: char) -> (r: bool)
    ensures
        r == is_whitespace(c),
{
    ('\u{9}' <= c && c <= '\u{d}') || c == ' ' || c == '\u{85}' || c == '\u{a0}' || c
        == '\u{1680}' || ('\u{2000}' <= c && c <= '\u{200a}') || c == '\u{2028}' || c
        == '\u{2029}' || c == '\u{202f}' || c == '\u{205f}' || c == '\u{3000}'
}

pub open spec fn is_digit(c: char) -> bool {
    '0' <= c && c <= '9'
}

/// A non-empty run of ASCII digits with no leading zero unless it is
/// exactly `"0"`.
pub open spec fn is_canonical_decimal(s: Seq<char>) -> bool {
    &&& s.len() > 0
    &&& forall|i: int| 0 <= i < s.len() ==> is_digit(#[trigger] s[i])
    &&& (s.len() == 1 || s[0] != '0')
}

/// The number a run of decimal digits spells.
pub open spec fn digits_value(s: Seq<char>) -> nat
    decreases s.len(),
{
    if s.len() == 0 {
        0
    } else {
        digits_value(s.drop_last()) * 10 + ((s.last() as int - '0' as int) as nat)
    }
}

/// The number of bytes `s` takes in UTF-8 (`str::len`).
pub open spec fn utf8_len(s: Seq<char>) -> nat
    decreases s.len(),
{
    if s.len() == 0 {
        0
    } else {
        let c = s.last();
        utf8_len(s.drop_last()) + if (c as u32) < 0x80 {
            1nat
        } else if (c as u32) < 0x800 {
            2nat
        } else if (c as u32) < 0x10000 {
            3nat
        } else {
            4nat
        }
    }
}

/// A lowercase hexadecimal digit.
pub open spec fn is_lower_hex(c: char) -> bool {
    ('0' <= c && c <= '9') || ('a' <= c && c <= 'f')
}

/// `'` + `s` + `'`, the quoting every message below uses.
pub open spec fn quoted_then(s: Seq<char>, rest: Seq<char>) -> Seq<char> {
    "'"@ + s + rest
}

/// The result of parsing one version component of `whole`.
pub open spec fn parse_component_spec(component: Seq<char>, whole: Seq<char>) -> Result<
    u32,
    Seq<char>,
> {
    if !is_canonical_decimal(component) {
        Err(
            quoted_then(whole, "' has a non-canonical version component '"@) + component + "'"@,
        )
    } else if digits_value(component) > u32::MAX {
        Err(
            quoted_then(whole, "' has an out-of-range version component '"@) + component + "'"@,
        )
    } else {
        Ok(digits_value(component) as u32)
    }
}

/// The result of parsing `input` as `MAJOR.MINOR.PATCH`.
pub open spec fn parse_triple_spec(input: Seq<char>) -> Result<(u32, u32, u32), Seq<char>> {
    let parts = split_on(input, '.');
    if parts.len() < 3 {
        Err(quoted_then(input, "' is not MAJOR.MINOR.PATCH"@))
    } else if parts.len() > 3 {
        Err(quoted_then(input, "' has extra '.'-separated components"@))
    } else {
        match parse_component_spec(parts[0], input) {
            Err(e) => Err(e),
            Ok(major) => match parse_component_spec(parts[1], input) {
                Err(e) => Err(e),
                Ok(minor) => match parse_component_spec(parts[2], input) {
                    Err(e) => Err(e),
                    Ok(patch) => Ok((major, minor, patch)),
                },
            },
        }
    }
}

/// The result of parsing a released spelling.
pub open spec fn parse_released_spec(input: Seq<char>) -> Result<DdVersionView, Seq<char>> {
    match parse_triple_spec(input) {
        Err(e) => Err(e),
        Ok(t) => if known_release(t.0, t.1, t.2) {
            Ok(DdVersionView::Released(t.0, t.1, t.2))
        } else {
            Err(quoted_then(input, "' is not a known DD release"@))
        },
    }
}

/// The result of parsing the `-N-gHASH` part of a development spelling.
pub open spec fn parse_suffix_spec(raw: Seq<char>, base: (u32, u32, u32), rest: Seq<char>) -> Result<
    DdVersionView,
    Seq<char>,
> {
    match first_index(rest, '-') {
        None => Err(quoted_then(raw, "' is missing the '-N-gHASH' development suffix"@)),
        Some(i) => {
            let distance = rest.subrange(0, i);
            let hash_part = rest.subrange(i + 1, rest.len() as int);
            if !is_canonical_decimal(distance) {
                Err(quoted_then(raw, "' has a non-canonical development commit distance"@))
            } else if distance == seq!['0'] {
                Err(
                    quoted_then(
                        raw,
                        "' has a zero commit distance, which is not a development build"@,
                    ),
                )
            } else if hash_part.len() == 0 || hash_part[0] != 'g' {
                Err(quoted_then(raw, "' is missing the 'g' hash prefix"@))
            } else {
                let hash = hash_part.subrange(1, hash_part.len() as int);
                if utf8_len(hash) < 7 || utf8_len(hash) > 64 {
                    Err(
                        quoted_then(raw, "' hash must be 7 to 64 characters, got "@) + decimal(
                            utf8_len(hash),
                        ),
                    )
                } else if exists|k: int| 0 <= k < hash.len() && !is_lower_hex(#[trigger] hash[k]) {
                    Err(quoted_then(raw, "' hash must be lowercase hexadecimal"@))
                } else {
                    Ok(DdVersionView::Development(base, raw))
                }
            }
        },
    }
}

/// The result of parsing a development spelling split at its first `-`.
pub open spec fn parse_development_spec(
    raw: Seq<char>,
    base_text: Seq<char>,
    rest: Seq<char>,
) -> Result<DdVersionView, Seq<char>> {
    match parse_triple_spec(base_text) {
        Err(e) => Err(e),
        Ok(t) => if !known_release(t.0, t.1, t.2) {
            Err(quoted_then(raw, "' has an unknown base release '"@) + base_text + "'"@)
        } else {
            parse_suffix_spec(raw, t, rest)
        },
    }
}

/// What parsing `input` as a DD version gives: the version, or the message
/// naming the first thing wrong with it.
pub open spec fn parse_spec(input: Seq<char>) -> Result<DdVersionView, Seq<char>> {
    if has_whitespace(input) {
        Err("DD version '"@ + input + "' must not contain whitespace"@)
    } else {
        match first_index(input, '-') {
            None => parse_released_spec(input),
            Some(i) => parse_development_spec(
                input,
                input.subrange(0, i),
                input.subrange(i + 1, input.len() as int),
            ),
        }
    }
}

pub open spec fn has_whitespace(s: Seq<char>) -> bool {
    exists|i: int| 0 <= i < s.len() && is_whitespace(#[trigger] s[i])
}

/// The spelling a version is shown with.
pub open spec fn version_text(v: DdVersionView) -> Seq<char> {
    match v {
        DdVersionView::Released(a, b, c) => decimal(a as nat) + "."@ + decimal(b as nat) + "."@
            + decimal(c as nat),
        DdVersionView::Development(_, raw) => raw,
    }
}

/// The numeric key released versions and development bases order by.
pub open spec fn sort_key(v: DdVersionView) -> (u32, u32, u32, u8) {
    match v {
        DdVersionView::Released(a, b, c) => (a, b, c, 0),
        DdVersionView::Development(base, _) => (base.0, base.1, base.2, 1),
    }
}

pub open spec fn key_less(a: (u32, u32, u32, u8), b: (u32, u32, u32, u8)) -> bool {
    ||| a.0 < b.0
    ||| (a.0 == b.0 && a.1 < b.1)
    ||| (a.0 == b.0 && a.1 == b.1 && a.2 < b.2)
    ||| (a.0 == b.0 && a.1 == b.1 && a.2 == b.2 && a.3 < b.3)
}

/// How two versions compare: development versions only with an identical
/// spelling, everything else by numeric key.
pub open spec fn version_order(a: DdVersionView, b: DdVersionView) -> Option<Ordering> {
    match (a, b) {
        (DdVersionView::Development(_, x), DdVersionView::Development(_, y)) => if x == y {
            Some(Ordering::Equal)
        } else {
            None
        },
        _ => if key_less(sort_key(a), sort_key(b)) {
            Some(Ordering::Less)
        } else if key_less(sort_key(b), sort_key(a)) {
            Some(Ordering::Greater)
        } else {
            Some(Ordering::Equal)
        },
    }
}

/// An exec result agrees with a spec result: the same version, or the same
/// message.
pub open spec fn parse_agrees(r: Result<DdVersion, String>, s: Result<DdVersionView, Seq<char>>) -> bool {
    match (r, s) {
        (Ok(v), Ok(w)) => v@ == w,
        (Err(e), Err(m)) => e@ == m,
        _ => false,
    }
}

pub open spec fn triple_agrees(
    r: Result<(u32, u32, u32), String>,
    s: Result<(u32, u32, u32), Seq<char>>,
) -> bool {
    match (r, s) {
        (Ok(v), Ok(w)) => v == w,
        (Err(e), Err(m)) => e@ == m,
        _ => false,
    }
}

pub open spec fn component_agrees(r: Result<u32, String>, s: Result<u32, Seq<char>>) -> bool {
    match (r, s) {
        (Ok(v), Ok(w)) => v == w,
        (Err(e), Err(m)) => e@ == m,
        _ => false,
    }
}

proof fn lemma_digits_value_monotone(s: Seq<char>, i: int, j: int)
    requires
        0 <= i <= j <= s.len(),
        forall|k: int| 0 <= k < s.len() ==> is_digit(#[trigger] s[k]),
    ensures
        digits_value(s.subrange(0, i)) <= digits_value(s.subrange(0, j)),
    decreases j - i,
{
    if i < j {
        lemma_digits_value_monotone(s, i, j - 1);
        assert(s.subrange(0, j).drop_last() =~= s.subrange(0, j - 1));
    }
}

fn is_canonical(v: &[char]) -> (r: bool)
    ensures
        r == is_canonical_decimal(v@),
{
    if v.len() == 0 {
        return false;
    }
    let mut i: usize = 0;
    while i < v.len()
        invariant
            i <= v@.len(),
            forall|k: int| 0 <= k < i ==> is_digit(#[trigger] v@[k]),
        decreases v@.len() - i,
    {
        if !('0' <= v[i] && v[i] <= '9') {
            return false;
        }
        i = i + 1;
    }
    v.len() == 1 || v[0] != '0'
}

fn parse_component(component: &[char], whole: &[char]) -> (r: Result<u32, String>)
    ensures
        component_agrees(r, parse_component_spec(component@, whole@)),
{
    if !is_canonical(component) {
        return Err(
            cat5("'", whole, "' has a non-canonical version component '", component, "'"),
        );
    }
    let mut value: u64 = 0;
    let mut i: usize = 0;
    while i < component.len()
        invariant
            i <= component@.len(),
            is_canonical_decimal(component@),
            value == digits_value(component@.subrange(0, i as int)),
            value <= u32::MAX,
        decreases component@.len() - i,
    {
        let c = component[i];
        let d: u64 = (c as u32 - '0' as u32) as u64;
        assert(component@.subrange(0, i + 1).drop_last() =~= component@.subrange(0, i as int));
        assert(component@.subrange(0, i + 1).last() == c);
        if value > (0xFFFF_FFFFu64 - d) / 10 {
            proof {
                assert(value * 10 + d > 0xFFFF_FFFFu64) by (nonlinear_arith)
                    requires
                        value > (0xFFFF_FFFFu64 - d) / 10,
                        d <= 9,
                ;
                lemma_digits_value_monotone(component@, i + 1, component@.len() as int);
                assert(component@.subrange(0, component@.len() as int) =~= component@);
            }
            return Err(
                cat5("'", whole, "' has an out-of-range version component '", component, "'"),
            );
        }
        proof {
            assert(value * 10 + d <= 0xFFFF_FFFFu64) by (nonlinear_arith)
                requires
                    value <= (0xFFFF_FFFFu64 - d) / 10,
                    d <= 9,
            ;
        }
        value = value * 10 + d;
        i = i + 1;
    }
    assert(component@.subrange(0, component@.len() as int) =~= component@);
    Ok(value as u32)
}

fn parse_triple(input: &[char]) -> (r: Result<(u32, u32, u32), String>)
    ensures
        triple_agrees(r, parse_triple_spec(input@)),
{
    let parts = split_chars(input, '.');
    let ghost p = split_on(input@, '.');
    assert(views(parts@) == p);
    if parts.len() < 3 {
        return Err(cat3("'", input, "' is not MAJOR.MINOR.PATCH"));
    }
    if parts.len() > 3 {
        return Err(cat3("'", input, "' has extra '.'-separated components"));
    }
    assert(parts@[0]@ == p[0] && parts@[1]@ == p[1] && parts@[2]@ == p[2]);
    let major = match parse_component(&parts[0], input) {
        Ok(v) => v,
        Err(e) => return Err(e),
    };
    let minor = match parse_component(&parts[1], input) {
        Ok(v) => v,
        Err(e) => return Err(e),
    };
    let patch = match parse_component(&parts[2], input) {
        Ok(v) => v,
        Err(e) => return Err(e),
    };
    Ok((major, minor, patch))
}

/// The number of bytes `v` takes in UTF-8.
fn utf8_length(v: &[char]) -> (n: u128)
    ensures
        n == utf8_len(v@),
{
    let mut n: u128 = 0;
    let mut i: usize = 0;
    while i < v.len()
        invariant
            i <= v@.len(),
            n == utf8_len(v@.subrange(0, i as int)),
            n <= 4 * i,
        decreases v@.len() - i,
    {
        let c = v[i];
        let code = c as u32;
        let w: u128 = if code < 0x80 {
            1
        } else if code < 0x800 {
            2
        } else if code < 0x10000 {
            3
        } else {
            4
        };
        assert(v@.subrange(0, i + 1).drop_last() =~= v@.subrange(0, i as int));
        assert(v@.subrange(0, i + 1).last() == c);
        n = n + w;
        i = i + 1;
    }
    assert(v@.subrange(0, v@.len() as int) =~= v@);
    n
}

#[verifier::loop_isolation(false)]
fn parse_suffix(raw: &[char], base: (u32, u32, u32), rest: &[char]) -> (r: Result<
    DdVersion,
    String,
>)
    ensures
        parse_agrees(r, parse_suffix_spec(raw@, base, rest@)),
{
    let split = find_char(rest, '-');
    let i = match split {
        None => {
            return Err(cat3("'", raw, "' is missing the '-N-gHASH' development suffix"));
        },
        Some(i) => i,
    };
    let rest_len = rest.len();
    assert(i < rest_len);
    let distance = chars_between(rest, 0, i);
    let hash_part = chars_between(rest, i + 1, rest.len());
    if !is_canonical(&distance) {
        return Err(cat3("'", raw, "' has a non-canonical development commit distance"));
    }
    if distance.len() == 1 && distance[0] == '0' {
        assert(distance@ =~= seq!['0']);
        return Err(
            cat3("'", raw, "' has a zero commit distance, which is not a development build"),
        );
    }
    assert(distance@ != seq!['0']) by {
        if distance@ == seq!['0'] {
            assert(distance@.len() == 1 && distance@[0] == '0');
        }
    }
    if hash_part.len() == 0 || hash_part[0] != 'g' {
        return Err(cat3("'", raw, "' is missing the 'g' hash prefix"));
    }
    let hash = chars_between(&hash_part, 1, hash_part.len());
    let n = utf8_length(&hash);
    if n < 7 || n > 64 {
        let mut e = cat3("'", raw, "' hash must be 7 to 64 characters, got ");
        let count = decimal_string(n);
        e.append(count.as_str());
        return Err(e);
    }
    let mut k: usize = 0;
    while k < hash.len()
        invariant
            k <= hash@.len(),
            forall|j: int| 0 <= j < k ==> is_lower_hex(#[trigger] hash@[j]),
        decreases hash@.len() - k,
    {
        let c = hash[k];
        if !(('0' <= c && c <= '9') || ('a' <= c && c <= 'f')) {
            proof {
                let hp = rest@.subrange(i + 1, rest@.len() as int);
                let hs = hp.subrange(1, hp.len() as int);
                assert(hs =~= hash@);
                assert(!is_lower_hex(hs[k as int]));
            }
            return Err(cat3("'", raw, "' hash must be lowercase hexadecimal"));
        }
        k = k + 1;
    }
    Ok(DdVersion::Development { base, raw: string_of(raw) })
}

fn parse_development(raw: &[char], base_text: &[char], rest: &[char]) -> (r: Result<
    DdVersion,
    String,
>)
    ensures
        parse_agrees(r, parse_development_spec(raw@, base_text@, rest@)),
{
    let base = match parse_triple(base_text) {
        Ok(t) => t,
        Err(e) => return Err(e),
    };
    if !is_known_release(base.0, base.1, base.2) {
        return Err(cat5("'", raw, "' has an unknown base release '", base_text, "'"));
    }
    parse_suffix(raw, base, rest)
}

impl DdVersion {
    /// Parses a DD version spelling, or names the first thing wrong with it.
    pub fn parse(input: &str) -> (r: Result<DdVersion, String>)
        ensures
            parse_agrees(r, parse_spec(input@)),
    {
        let chars = chars_of(input);
        let mut i: usize = 0;
        while i < chars.len()
            invariant
                chars@ == input@,
                i <= chars@.len(),
                forall|k: int| 0 <= k < i ==> !is_whitespace(#[trigger] chars@[k]),
            decreases chars@.len() - i,
        {
            if char_is_whitespace(chars[i]) {
                return Err(cat3("DD version '", &chars, "' must not contain whitespace"));
            }
            i = i + 1;
        }
        match find_char(&chars, '-') {
            None => {
                let t = match parse_triple(&chars) {
                    Ok(t) => t,
                    Err(e) => return Err(e),
                };
                if is_known_release(t.0, t.1, t.2) {
                    Ok(DdVersion::Released { major: t.0, minor: t.1, patch: t.2 })
                } else {
                    Err(cat3("'", &chars, "' is not a known DD release"))
                }
            },
            Some(i) => {
                let base_text = chars_between(&chars, 0, i);
                let rest = chars_between(&chars, i + 1, chars.len());
                parse_development(&chars, &base_text, &rest)
            },
        }
    }

    /// An equal copy of this version.
    pub fn duplicate(&self) -> (r: DdVersion)
        ensures
            r@ == self@,
    {
        match self {
            DdVersion::Released { major, minor, patch } => DdVersion::Released {
                major: *major,
                minor: *minor,
                patch: *patch,
            },
            DdVersion::Development { base, raw } => DdVersion::Development {
                base: *base,
                raw: raw.clone(),
            },
        }
    }

    /// Whether two versions are the same version.
    pub fn same_as(&self, other: &DdVersion) -> (r: bool)
        ensures
            r == (self@ == other@),
    {
        match (self, other) {
            (
                DdVersion::Released { major: a, minor: b, patch: c },
                DdVersion::Released { major: x, minor: y, patch: z },
            ) => *a == *x && *b == *y && *c == *z,
            (DdVersion::Development { base: a, raw: r }, DdVersion::Development { base: b, raw: s }) => {
                a.0 == b.0 && a.1 == b.1 && a.2 == b.2 && str_eq(r.as_str(), s.as_str())
            },
            _ => false,
        }
    }

    /// The spelling this version is shown with (`3.39.0`, or a development
    /// version's exact input).
    pub fn text(&self) -> (r: String)
        ensures
            r@ == version_text(self@),
    {
        match self {
            DdVersion::Released { major, minor, patch } => {
                let mut r = decimal_string(*major as u128);
                r.append(".");
                let b = decimal_string(*minor as u128);
                r.append(b.as_str());
                r.append(".");
                let c = decimal_string(*patch as u128);
                r.append(c.as_str());
                r
            },
            DdVersion::Development { raw, .. } => raw.clone(),
        }
    }
}

impl DdVersion {
    /// The numeric key this version orders by.
    fn key(&self) -> (k: (u32, u32, u32, u8))
        ensures
            k == sort_key(self@),
    {
        match self {
            DdVersion::Released { major, minor, patch } => (*major, *minor, *patch, 0),
            DdVersion::Development { base, .. } => (base.0, base.1, base.2, 1),
        }
    }
}

fn key_lt(a: (u32, u32, u32, u8), b: (u32, u32, u32, u8)) -> (r: bool)
    ensures
        r == key_less(a, b),
{
    a.0 < b.0 || (a.0 == b.0 && a.1 < b.1) || (a.0 == b.0 && a.1 == b.1 && a.2 < b.2) || (a.0
        == b.0 && a.1 == b.1 && a.2 == b.2 && a.3 < b.3)
}

impl Clone for DdVersion {
    fn clone(&self) -> (r: Self)
        ensures
            r@ == self@,
    {
        self.duplicate()
    }
}

impl PartialEq for DdVersion {
    fn eq(&self, other: &Self) -> (r: bool) {
        self.same_as(other)
    }
}

impl vstd::std_specs::cmp::PartialEqSpecImpl for DdVersion {
    open spec fn obeys_eq_spec() -> bool {
        true
    }

    open spec fn eq_spec(&self, other: &Self) -> bool {
        self@ == other@
    }
}

impl Eq for DdVersion {

}

impl PartialOrd for DdVersion {
    fn partial_cmp(&self, other: &Self) -> (r: Option<Ordering>) {
        match (self, other) {
            (DdVersion::Development { raw: a, .. }, DdVersion::Development { raw: b, .. }) => {
                if str_eq(a.as_str(), b.as_str()) {
                    Some(Ordering::Equal)
                } else {
                    None
                }
            },
            _ => {
                let ka = self.key();
                let kb = other.key();
                if key_lt(ka, kb) {
                    Some(Ordering::Less)
                } else if key_lt(kb, ka) {
                    Some(Ordering::Greater)
                } else {
                    Some(Ordering::Equal)
                }
            },
        }
    }
}

impl vstd::std_specs::cmp::PartialOrdSpecImpl for DdVersion {
    open spec fn obeys_partial_cmp_spec() -> bool {
        true
    }

    open spec fn partial_cmp_spec(&self, other: &Self) -> Option<Ordering> {
        version_order(self@, other@)
    }
}

impl core::str::FromStr for DdVersion {
    type Err = String;

    fn from_str(input: &str) -> (r: Result<DdVersion, String>)
        ensures
            parse_agrees(r, parse_spec(input@)),
    {
        DdVersion::parse(input)
    }
}

// ---------------------------------------------------------------------------
// Laws of the order
// ---------------------------------------------------------------------------

/// Released versions order as numeric triples.
pub proof fn law_released_versions_order_as_triples(a: (u32, u32, u32), b: (u32, u32, u32))
    ensures
        version_order(
            DdVersionView::Released(a.0, a.1, a.2),
            DdVersionView::Released(b.0, b.1, b.2),
        ) == if a.0 < b.0 || (a.0 == b.0 && a.1 < b.1) || (a.0 == b.0 && a.1 == b.1 && a.2 < b.2) {
            Some(Ordering::Less)
        } else if a == b {
            Some(Ordering::Equal)
        } else {
            Some(Ordering::Greater)
        },
{
}

/// A development version sorts after its base release and is never equal
/// to it; two development versions compare equal only when spelled
/// identically, and are otherwise incomparable.
pub proof fn law_development_versions_order(
    base: (u32, u32, u32),
    other_base: (u32, u32, u32),
    raw: Seq<char>,
    other_raw: Seq<char>,
)
    ensures
        version_order(
            DdVersionView::Development(base, raw),
            DdVersionView::Released(base.0, base.1, base.2),
        ) == Some(Ordering::Greater),
        version_order(
            DdVersionView::Released(base.0, base.1, base.2),
            DdVersionView::Development(base, raw),
        ) == Some(Ordering::Less),
        version_order(
            DdVersionView::Development(base, raw),
            DdVersionView::Development(other_base, other_raw),
        ) == if raw == other_raw {
            Some(Ordering::Equal)
        } else {
            None
        },
{
}

/// Comparing the other way round gives the opposite answer.
pub proof fn law_version_order_is_antisymmetric(a: DdVersionView, b: DdVersionView)
    ensures
        version_order(b, a) == match version_order(a, b) {
            Some(Ordering::Less) => Some(Ordering::Greater),
            Some(Ordering::Greater) => Some(Ordering::Less),
            other => other,
        },
{
}

/// Being older is transitive, except between two development versions,
/// which compare only by spelling.
pub proof fn law_version_order_is_transitive(a: DdVersionView, b: DdVersionView, c: DdVersionView)
    requires
        !(a is Development && c is Development),
        version_order(a, b) == Some(Ordering::Less),
        version_order(b, c) == Some(Ordering::Less),
    ensures
        version_order(a, c) == Some(Ordering::Less),
{
}

// ---------------------------------------------------------------------------
// Spellings
// ---------------------------------------------------------------------------

proof fn lemma_leading_digit_positive(s: Seq<char>)
    requires
        s.len() > 0,
        forall|i: int| 0 <= i < s.len() ==> is_digit(#[trigger] s[i]),
        s[0] != '0',
    ensures
        digits_value(s) >= 1,
    decreases s.len(),
{
    if s.len() > 1 {
        let p = s.drop_last();
        assert forall|i: int| 0 <= i < p.len() implies is_digit(#[trigger] p[i]) by {
            assert(p[i] == s[i]);
        }
        lemma_leading_digit_positive(p);
    }
}

/// A canonical decimal spelling is the shortest spelling of its value.
proof fn lemma_canonical_decimal_round_trips(s: Seq<char>)
    requires
        is_canonical_decimal(s),
    ensures
        decimal(digits_value(s)) == s,
    decreases s.len(),
{
    let last = s.last();
    let d = (last as int - '0' as int) as nat;
    assert(is_digit(s[s.len() - 1]));
    assert(d < 10);
    assert(digit_char(d) == last);
    if s.len() == 1 {
        assert(s.drop_last() =~= Seq::<char>::empty());
        assert(digits_value(Seq::<char>::empty()) == 0);
        assert(digits_value(s) == digits_value(s.drop_last()) * 10 + d);
        assert(digits_value(s) == d);
        assert(s =~= seq![last]);
    } else {
        let p = s.drop_last();
        assert forall|i: int| 0 <= i < p.len() implies is_digit(#[trigger] p[i]) by {
            assert(p[i] == s[i]);
        }
        assert(p[0] == s[0]);
        lemma_leading_digit_positive(p);
        lemma_canonical_decimal_round_trips(p);
        let v = digits_value(p);
        let n = digits_value(s);
        assert(n == v * 10 + d);
        assert(n / 10 == v && n % 10 == d) by (nonlinear_arith)
            requires
                n == v * 10 + d,
                d < 10,
        ;
        assert(n >= 10);
        assert(decimal(n) == decimal(n / 10).push(digit_char(n % 10)));
        assert(s =~= p.push(last));
    }
}

/// Every character of a decimal spelling is a digit, the spelling is
/// canonical, and it spells its number.
proof fn lemma_decimal_is_canonical(n: nat)
    ensures
        is_canonical_decimal(decimal(n)),
        digits_value(decimal(n)) == n,
    decreases n,
{
    if n < 10 {
        let s = decimal(n);
        assert(s =~= seq![digit_char(n)]);
        assert(s.drop_last() =~= Seq::<char>::empty());
        assert(digits_value(s) == digits_value(s.drop_last()) * 10 + ((s.last() as int - '0' as int) as nat));
    } else {
        lemma_decimal_is_canonical(n / 10);
        let p = decimal(n / 10);
        let s = decimal(n);
        assert(s == p.push(digit_char(n % 10)));
        assert(s.drop_last() =~= p);
        assert forall|i: int| 0 <= i < s.len() implies is_digit(#[trigger] s[i]) by {
            if i < p.len() {
                assert(s[i] == p[i]);
            }
        }
        assert(s[0] == p[0]);
        assert(p.len() == 1 ==> p[0] != '0') by {
            if p.len() == 1 && p[0] == '0' {
                assert(p.drop_last() =~= Seq::<char>::empty());
                assert(digits_value(Seq::<char>::empty()) == 0);
                assert(p.last() == '0');
                assert(digits_value(p) == digits_value(p.drop_last()) * 10 + ((p.last() as int
                    - '0' as int) as nat));
                assert(digits_value(p) == 0);
            }
        }
        assert(n == (n / 10) * 10 + n % 10) by (nonlinear_arith);
    }
}

proof fn lemma_decimal_free_of(n: nat, c: char)
    requires
        !is_digit(c),
    ensures
        !has_char(decimal(n), c),
{
    lemma_decimal_is_canonical(n);
    let s = decimal(n);
    if has_char(s, c) {
        let i = choose|i: int| 0 <= i < s.len() && s[i] == c;
        assert(is_digit(s[i]));
    }
}

/// A released version is accepted from exactly one spelling: its three
/// numbers in canonical decimal joined by `.`, naming a known release.
pub proof fn law_released_spellings_are_exactly_known_triples(s: Seq<char>, x: u32, y: u32, z: u32)
    ensures
        parse_spec(s) == Ok::<DdVersionView, Seq<char>>(DdVersionView::Released(x, y, z)) <==> (s
            == triple_text(x, y, z) && known_release(x, y, z)),
{
    if parse_spec(s) == Ok::<DdVersionView, Seq<char>>(DdVersionView::Released(x, y, z)) {
        law_accepted_spellings_are_canonical(s);
        assert(version_text(DdVersionView::Released(x, y, z)) =~= triple_text(x, y, z));
    }
    if s == triple_text(x, y, z) && known_release(x, y, z) {
        lemma_triple_text_parses(x, y, z);
        lemma_plain_has_no_whitespace(s);
        if exists|i: int| is_first_index(s, '-', i) {
            let i = choose|i: int| is_first_index(s, '-', i);
            assert(s[i] == '-');
        }
    }
}

/// The canonical spelling of a release triple.
pub open spec fn triple_text(x: u32, y: u32, z: u32) -> Seq<char> {
    decimal(x as nat) + "."@ + decimal(y as nat) + "."@ + decimal(z as nat)
}

/// The development spelling with base `x.y.z`, commit distance `n` and
/// hash `h`.
pub open spec fn development_text(x: u32, y: u32, z: u32, n: Seq<char>, h: Seq<char>) -> Seq<char> {
    triple_text(x, y, z) + "-"@ + n + "-g"@ + h
}

/// A character that may stand in a version spelling.
spec fn plain(c: char) -> bool {
    is_digit(c) || c == '.' || c == '-' || c == 'g' || is_lower_hex(c)
}

spec fn all_plain(s: Seq<char>) -> bool {
    forall|i: int| 0 <= i < s.len() ==> plain(#[trigger] s[i])
}

proof fn lemma_all_plain_concat(a: Seq<char>, b: Seq<char>)
    requires
        all_plain(a),
        all_plain(b),
    ensures
        all_plain(a + b),
{
    assert forall|i: int| 0 <= i < (a + b).len() implies plain(#[trigger] (a + b)[i]) by {
        if i < a.len() {
            assert((a + b)[i] == a[i]);
        } else {
            assert((a + b)[i] == b[i - a.len()]);
        }
    }
}

proof fn lemma_plain_has_no_whitespace(s: Seq<char>)
    requires
        all_plain(s),
    ensures
        !has_whitespace(s),
{
    if has_whitespace(s) {
        let i = choose|i: int| 0 <= i < s.len() && is_whitespace(#[trigger] s[i]);
        assert(plain(s[i]));
    }
}

/// Lowercase hexadecimal digits take one byte each.
proof fn lemma_hex_utf8_len(h: Seq<char>)
    requires
        forall|i: int| 0 <= i < h.len() ==> is_lower_hex(#[trigger] h[i]),
    ensures
        utf8_len(h) == h.len(),
    decreases h.len(),
{
    if h.len() > 0 {
        let d = h.drop_last();
        assert forall|i: int| 0 <= i < d.len() implies is_lower_hex(#[trigger] d[i]) by {
            assert(d[i] == h[i]);
        }
        lemma_hex_utf8_len(d);
        assert(is_lower_hex(h[h.len() - 1]));
        assert((h.last() as u32) < 0x80);
    }
}

/// Where `c` first occurs after a prefix free of it.
proof fn lemma_first_index_after(a: Seq<char>, c: char, b: Seq<char>)
    requires
        forall|i: int| 0 <= i < a.len() ==> (#[trigger] a[i]) != c,
    ensures
        first_index(a + seq![c] + b, c) == Some(a.len() as int),
{
    let s = a + seq![c] + b;
    assert(s[a.len() as int] == c);
    assert forall|j: int| 0 <= j < a.len() implies s[j] != c by {
        assert(s[j] == a[j]);
    }
    assert(is_first_index(s, c, a.len() as int));
    let j = choose|j: int| is_first_index(s, c, j);
    assert(is_first_index(s, c, j));
    if j < a.len() {
        assert(s[j] == a[j]);
    }
}

/// The canonical spelling of a triple is plain, holds no `-`, and parses
/// back to the triple.
proof fn lemma_triple_text_parses(x: u32, y: u32, z: u32)
    ensures
        all_plain(triple_text(x, y, z)),
        forall|i: int| 0 <= i < triple_text(x, y, z).len() ==> (#[trigger] triple_text(x, y, z)[i]) != '-',
        parse_triple_spec(triple_text(x, y, z)) == Ok::<(u32, u32, u32), Seq<char>>((x, y, z)),
{
    reveal_strlit(".");
    assert("."@ =~= seq!['.']);
    let dx = decimal(x as nat);
    let dy = decimal(y as nat);
    let dz = decimal(z as nat);
    let t = triple_text(x, y, z);
    lemma_decimal_is_canonical(x as nat);
    lemma_decimal_is_canonical(y as nat);
    lemma_decimal_is_canonical(z as nat);
    assert forall|i: int| 0 <= i < t.len() implies is_digit(#[trigger] t[i]) || t[i] == '.' by {
        if i < dx.len() {
            assert(t[i] == dx[i]);
        } else if i == dx.len() {
        } else if i < dx.len() + 1 + dy.len() {
            assert(t[i] == dy[i - dx.len() - 1]);
        } else if i == dx.len() + 1 + dy.len() {
        } else {
            assert(t[i] == dz[i - dx.len() - 2 - dy.len()]);
        }
    }
    assert forall|i: int| 0 <= i < t.len() implies plain(#[trigger] t[i]) by {
        assert(is_digit(t[i]) || t[i] == '.');
    }
    assert forall|i: int| 0 <= i < t.len() implies (#[trigger] t[i]) != '-' by {
        assert(is_digit(t[i]) || t[i] == '.');
    }
    lemma_decimal_free_of(x as nat, '.');
    lemma_decimal_free_of(y as nat, '.');
    lemma_decimal_free_of(z as nat, '.');
    let parts = seq![dx, dy, dz];
    assert(parts.drop_last() =~= seq![dx, dy]);
    assert(join_with(seq![dx], '.') == dx);
    assert(seq![dx, dy].drop_last() =~= seq![dx]);
    assert(join_with(seq![dx, dy], '.') == dx + seq!['.'] + dy);
    assert(join_with(parts, '.') == join_with(seq![dx, dy], '.') + seq!['.'] + dz);
    assert(join_with(parts, '.') =~= t);
    assert forall|i: int| 0 <= i < parts.len() implies !has_char(#[trigger] parts[i], '.') by {}
    lemma_split_join(parts, '.');
    assert(split_on(t, '.') == parts);
}

/// A spelling that parses as a triple is that triple's canonical spelling.
proof fn lemma_parsed_triple_is_canonical(b: Seq<char>)
    ensures
        parse_triple_spec(b) matches Ok(t) ==> b == triple_text(t.0, t.1, t.2),
{
    if let Ok(t) = parse_triple_spec(b) {
        let parts = split_on(b, '.');
        assert(parts.len() == 3);
        lemma_canonical_decimal_round_trips(parts[0]);
        lemma_canonical_decimal_round_trips(parts[1]);
        lemma_canonical_decimal_round_trips(parts[2]);
        lemma_join_split(b, '.');
        reveal_strlit(".");
        let two = parts.drop_last();
        assert(two.drop_last() =~= seq![parts[0]]);
        assert(join_with(two.drop_last(), '.') == parts[0]);
        assert(two.last() == parts[1]);
        assert(join_with(two, '.') == parts[0] + seq!['.'] + parts[1]);
        assert(triple_text(t.0, t.1, t.2) =~= join_with(parts, '.'));
    }
}

/// The spellings a development version with base `x.y.z` is accepted from.
pub open spec fn development_form(s: Seq<char>, x: u32, y: u32, z: u32) -> bool {
    &&& known_release(x, y, z)
    &&& exists|n: Seq<char>, h: Seq<char>|
        #![trigger development_text(x, y, z, n, h)]
        {
            &&& s == development_text(x, y, z, n, h)
            &&& is_canonical_decimal(n)
            &&& n != seq!['0']
            &&& 7 <= h.len() <= 64
            &&& forall|k: int| 0 <= k < h.len() ==> is_lower_hex(#[trigger] h[k])
        }
}

proof fn lemma_accepted_development_has_the_form(s: Seq<char>, x: u32, y: u32, z: u32)
    requires
        parse_spec(s) == Ok::<DdVersionView, Seq<char>>(DdVersionView::Development((x, y, z), s)),
    ensures
        development_form(s, x, y, z),
{
    reveal_strlit("-");
    reveal_strlit("-g");
    assert("-"@ =~= seq!['-']);
    assert("-g"@ =~= seq!['-', 'g']);
    let i = first_index(s, '-')->0;
    assert(first_index(s, '-') is Some);
    assert(is_first_index(s, '-', i));
    let base_text = s.subrange(0, i);
    let rest = s.subrange(i + 1, s.len() as int);
    lemma_parsed_triple_is_canonical(base_text);
    let j = first_index(rest, '-')->0;
    assert(is_first_index(rest, '-', j));
    let n = rest.subrange(0, j);
    let hash_part = rest.subrange(j + 1, rest.len() as int);
    let h = hash_part.subrange(1, hash_part.len() as int);
    assert(forall|k: int| 0 <= k < h.len() ==> is_lower_hex(#[trigger] h[k]));
    lemma_hex_utf8_len(h);
    assert(hash_part =~= seq!['g'] + h);
    assert(rest =~= n + seq!['-'] + hash_part);
    assert(s =~= base_text + seq!['-'] + rest);
    assert(s =~= development_text(x, y, z, n, h));
}

proof fn lemma_plain_development_text(x: u32, y: u32, z: u32, n: Seq<char>, h: Seq<char>)
    requires
        is_canonical_decimal(n),
        forall|k: int| 0 <= k < h.len() ==> is_lower_hex(#[trigger] h[k]),
    ensures
        all_plain(development_text(x, y, z, n, h)),
{
    reveal_strlit("-");
    reveal_strlit("-g");
    assert("-"@ =~= seq!['-']);
    assert("-g"@ =~= seq!['-', 'g']);
    lemma_triple_text_parses(x, y, z);
    let t = triple_text(x, y, z);
    assert(all_plain(n)) by {
        assert forall|k: int| 0 <= k < n.len() implies plain(#[trigger] n[k]) by {
            assert(is_digit(n[k]));
        }
    }
    assert(all_plain(h)) by {
        assert forall|k: int| 0 <= k < h.len() implies plain(#[trigger] h[k]) by {
            assert(is_lower_hex(h[k]));
        }
    }
    let dash = seq!['-'];
    let dash_g = seq!['-', 'g'];
    assert(all_plain(dash)) by {
        assert forall|k: int| 0 <= k < 1 implies plain(#[trigger] dash[k]) by {}
    }
    assert(all_plain(dash_g)) by {
        assert forall|k: int| 0 <= k < 2 implies plain(#[trigger] dash_g[k]) by {}
    }
    lemma_all_plain_concat(t, seq!['-']);
    lemma_all_plain_concat(t + seq!['-'], n);
    lemma_all_plain_concat(t + seq!['-'] + n, seq!['-', 'g']);
    lemma_all_plain_concat(t + seq!['-'] + n + seq!['-', 'g'], h);
}

proof fn lemma_development_form_is_accepted(s: Seq<char>, x: u32, y: u32, z: u32, n: Seq<char>, h: Seq<char>)
    requires
        known_release(x, y, z),
        s == development_text(x, y, z, n, h),
        is_canonical_decimal(n),
        n != seq!['0'],
        7 <= h.len() <= 64,
        forall|k: int| 0 <= k < h.len() ==> is_lower_hex(#[trigger] h[k]),
    ensures
        parse_spec(s) == Ok::<DdVersionView, Seq<char>>(DdVersionView::Development((x, y, z), s)),
{
    reveal_strlit("-");
    reveal_strlit("-g");
    assert("-"@ =~= seq!['-']);
    assert("-g"@ =~= seq!['-', 'g']);
    let t = triple_text(x, y, z);
    lemma_triple_text_parses(x, y, z);
    lemma_hex_utf8_len(h);
    lemma_plain_development_text(x, y, z, n, h);
    lemma_plain_has_no_whitespace(s);
    let rest = n + seq!['-'] + (seq!['g'] + h);
    assert(s =~= t + seq!['-'] + rest);
    lemma_first_index_after(t, '-', rest);
    assert(s.subrange(0, t.len() as int) =~= t);
    assert(s.subrange(t.len() as int + 1, s.len() as int) =~= rest);
    assert forall|k: int| 0 <= k < n.len() implies (#[trigger] n[k]) != '-' by {
        assert(is_digit(n[k]));
    }
    lemma_first_index_after(n, '-', seq!['g'] + h);
    assert(rest.subrange(0, n.len() as int) =~= n);
    assert(rest.subrange(n.len() as int + 1, rest.len() as int) =~= seq!['g'] + h);
    assert((seq!['g'] + h).subrange(1, h.len() as int + 1) =~= h);
    assert(!exists|k: int| 0 <= k < h.len() && !is_lower_hex(#[trigger] h[k]));
}

/// A development version is accepted from exactly the spellings
/// `B-N-gH`: `B` the canonical spelling of a known release, `N` a
/// canonical commit distance other than `0`, and `H` seven to sixty-four
/// lowercase hexadecimal digits; the version keeps the spelling whole.
pub proof fn law_development_spellings_are_exactly_these(s: Seq<char>, x: u32, y: u32, z: u32)
    ensures
        parse_spec(s) == Ok::<DdVersionView, Seq<char>>(DdVersionView::Development((x, y, z), s))
            <==> development_form(s, x, y, z),
{
    if parse_spec(s) == Ok::<DdVersionView, Seq<char>>(DdVersionView::Development((x, y, z), s)) {
        lemma_accepted_development_has_the_form(s, x, y, z);
    }
    if development_form(s, x, y, z) {
        let (n, h) = choose|n: Seq<char>, h: Seq<char>|
            #![trigger development_text(x, y, z, n, h)]
            {
                &&& s == development_text(x, y, z, n, h)
                &&& is_canonical_decimal(n)
                &&& n != seq!['0']
                &&& 7 <= h.len() <= 64
                &&& forall|k: int| 0 <= k < h.len() ==> is_lower_hex(#[trigger] h[k])
            };
        lemma_development_form_is_accepted(s, x, y, z, n, h);
    }
}

/// Every spelling a version is accepted from is the spelling it is shown
/// with: a version prints exactly as it was parsed, so showing a parsed
/// version and parsing it again gives the same version.
pub proof fn law_accepted_spellings_are_canonical(s: Seq<char>)
    ensures
        parse_spec(s) matches Ok(v) ==> version_text(v) == s,
{
    if let Ok(v) = parse_spec(s) {
        if first_index(s, '-') is None {
            let parts = split_on(s, '.');
            assert(parts.len() == 3);
            lemma_canonical_decimal_round_trips(parts[0]);
            lemma_canonical_decimal_round_trips(parts[1]);
            lemma_canonical_decimal_round_trips(parts[2]);
            lemma_join_split(s, '.');
            reveal_strlit(".");
            let two = parts.drop_last();
            assert(two.drop_last() =~= seq![parts[0]]);
            assert(join_with(two.drop_last(), '.') == parts[0]);
            assert(two.last() == parts[1]);
            assert(join_with(two, '.') == parts[0] + seq!['.'] + parts[1]);
            assert(version_text(v) =~= join_with(parts, '.'));
        }
    }
}

} // verus!
