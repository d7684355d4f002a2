//! Semantic versions: ordering, text parsing, and the one documented
//! compatibility quirk (the bare version text `3.2` reads as `3.2.0`).
use vstd::prelude::*;

use crate::Version;
use crate::text::{parse_dec_u64, parse_u64_range};

verus! {

pub open spec fn version_le(a: Version, b: Version) -> bool {
    ||| a.major < b.major
    ||| (a.major == b.major && a.minor < b.minor)
    ||| (a.major == b.major && a.minor == b.minor && a.patch <= b.patch)
}

pub open spec fn version_lt(a: Version, b: Version) -> bool {
    version_le(a, b) && a != b
}

pub proof fn lemma_version_order(a: Version, b: Version, c: Version)
    ensures
        version_le(a, b) && version_le(b, c) ==> version_le(a, c),
        version_le(a, b) || version_le(b, a),
        version_le(a, b) && version_le(b, a) ==> a == b,
{
}

pub fn version_le_value(a: &Version, b: &Version) -> (r: bool)
    ensures
        r == version_le(*a, *b),
{
    if a.major != b.major {
        a.major < b.major
    } else if a.minor != b.minor {
        a.minor < b.minor
    } else {
        a.patch <= b.patch
    }
}

pub fn version_lt_value(a: &Version, b: &Version) -> (r: bool)
    ensures
        r == version_lt(*a, *b),
{
    if a.major != b.major {
        a.major < b.major
    } else if a.minor != b.minor {
        a.minor < b.minor
    } else {
        a.patch < b.patch
    }
}

/// A half-open range of versions: `from` inclusive, `to` exclusive.
pub open spec fn range_contains(from: Version, to: Version, v: Version) -> bool {
    version_le(from, v) && version_lt(v, to)
}

// ---------------------------------------------------------------------------
// version text
// ---------------------------------------------------------------------------

/// The first position of `c` in `s` at or after `from` (the length when absent).
pub open spec fn find_char(s: Seq<char>, c: char, from: int) -> int
    decreases s.len() - from,
{
    if from < 0 || from >= s.len() {
        s.len() as int
    } else if s[from] == c {
        from
    } else {
        find_char(s, c, from + 1)
    }
}

pub proof fn lemma_find_char(s: Seq<char>, c: char, from: int)
    requires
        0 <= from <= s.len(),
    ensures
        from <= find_char(s, c, from) <= s.len(),
        find_char(s, c, from) < s.len() ==> s[find_char(s, c, from)] == c,
        forall|k: int| from <= k < find_char(s, c, from) ==> s[k] != c,
    decreases s.len() - from,
{
    if from < s.len() && s[from] != c {
        lemma_find_char(s, c, from + 1);
    }
}

pub fn find_char_at(s: &Vec<char>, c: char, from: usize) -> (r: usize)
    requires
        from <= s@.len(),
    ensures
        r == find_char(s@, c, from as int),
        from <= r <= s@.len(),
    decreases s@.len() - from,
{
    proof {
        lemma_find_char(s@, c, from as int);
    }
    if from >= s.len() {
        s.len()
    } else if s[from] == c {
        from
    } else {
        find_char_at(s, c, from + 1)
    }
}

/// What one dot-separated component denotes: digits without a redundant
/// leading zero, small enough for a `u64`.
pub open spec fn spec_parse_component(s: Seq<char>) -> Option<u64> {
    if s.len() > 1 && s[0] == '0' {
        None
    } else {
        parse_dec_u64(s)
    }
}

fn parse_component(s: &Vec<char>, from: usize, to: usize) -> (r: Option<u64>)
    requires
        from <= to <= s@.len(),
    ensures
        r == spec_parse_component(s@.subrange(from as int, to as int)),
{
    if to - from > 1 && s[from] == '0' {
        return None;
    }
    parse_u64_range(s, from, to)
}

/// What a whole version text denotes: exactly `major.minor.patch`.
pub open spec fn spec_parse_version(s: Seq<char>) -> Option<Version> {
    let i = find_char(s, '.', 0);
    let j = find_char(s, '.', i + 1);
    let k = find_char(s, '.', j + 1);
    if i >= s.len() || j >= s.len() || k < s.len() {
        None
    } else {
        let ma = spec_parse_component(s.subrange(0, i));
        let mi = spec_parse_component(s.subrange(i + 1, j));
        let pa = spec_parse_component(s.subrange(j + 1, s.len() as int));
        if ma is Some && mi is Some && pa is Some {
            Some(Version { major: ma->0, minor: mi->0, patch: pa->0 })
        } else {
            None
        }
    }
}

pub fn parse_version_chars(s: &Vec<char>) -> (r: Option<Version>)
    ensures
        r == spec_parse_version(s@),
{
    let i = find_char_at(s, '.', 0);
    if i >= s.len() {
        return None;
    }
    let j = find_char_at(s, '.', i + 1);
    if j >= s.len() {
        return None;
    }
    let k = find_char_at(s, '.', j + 1);
    if k < s.len() {
        return None;
    }
    let ma = parse_component(s, 0, i);
    let mi = parse_component(s, i + 1, j);
    let pa = parse_component(s, j + 1, s.len());
    match (ma, mi, pa) {
        (Some(ma), Some(mi), Some(pa)) => Some(Version { major: ma, minor: mi, patch: pa }),
        _ => None,
    }
}

/// The version text a capture stands for: the bare `3.2` of one known log
/// family reads as `3.2.0`; anything else stands as written.
pub open spec fn coerced_version_text(s: Seq<char>) -> Seq<char> {
    if s == "3.2"@ {
        "3.2.0"@
    } else {
        s
    }
}

/// Parse a captured version text, with the `3.2` coercion applied first.
pub fn parse_version_capture(s: &String) -> (r: Option<Version>)
    ensures
        r == spec_parse_version(coerced_version_text(s@)),
{
    let coerced: Vec<char> = if chars_eq_str_helper(s) {
        proof {
            reveal_strlit("3.2");
        }
        let v = crate::text::chars_of("3.2.0");
        v
    } else {
        crate::text::chars_of(s.as_str())
    };
    parse_version_chars(&coerced)
}

fn chars_eq_str_helper(s: &String) -> (r: bool)
    ensures
        r == (s@ == "3.2"@),
{
    let v = crate::text::chars_of(s.as_str());
    crate::text::chars_eq_str(&v, "3.2")
}

/// One `M-m-p` component group of a range name: dashes for dots.
pub open spec fn spec_parse_dashed_version(s: Seq<char>) -> Option<Version> {
    let i = find_char(s, '-', 0);
    let j = find_char(s, '-', i + 1);
    let k = find_char(s, '-', j + 1);
    if i >= s.len() || j >= s.len() || k < s.len() {
        None
    } else {
        let ma = spec_parse_component(s.subrange(0, i));
        let mi = spec_parse_component(s.subrange(i + 1, j));
        let pa = spec_parse_component(s.subrange(j + 1, s.len() as int));
        if ma is Some && mi is Some && pa is Some {
            Some(Version { major: ma->0, minor: mi->0, patch: pa->0 })
        } else {
            None
        }
    }
}

fn parse_dashed_version(s: &Vec<char>, from: usize, to: usize) -> (r: Option<Version>)
    requires
        from <= to <= s@.len(),
    ensures
        r == spec_parse_dashed_version(s@.subrange(from as int, to as int)),
{
    let ghost whole = s@.subrange(from as int, to as int);
    let mut part: Vec<char> = Vec::new();
    let mut k: usize = from;
    while k < to
        invariant
            from <= k <= to <= s@.len(),
            part@ =~= s@.subrange(from as int, k as int),
        decreases to - k,
    {
        part.push(s[k]);
        assert(part@ =~= s@.subrange(from as int, k + 1 as int));
        k = k + 1;
    }
    assert(part@ =~= whole);
    let i = find_char_at(&part, '-', 0);
    if i >= part.len() {
        return None;
    }
    let j = find_char_at(&part, '-', i + 1);
    if j >= part.len() {
        return None;
    }
    let k2 = find_char_at(&part, '-', j + 1);
    if k2 < part.len() {
        return None;
    }
    let ma = parse_component(&part, 0, i);
    let mi = parse_component(&part, i + 1, j);
    let pa = parse_component(&part, j + 1, part.len());
    match (ma, mi, pa) {
        (Some(ma), Some(mi), Some(pa)) => Some(Version { major: ma, minor: mi, patch: pa }),
        _ => None,
    }
}

/// The version range a pattern specification's name encodes:
/// `M-m-p_M-m-p`, the lower bound inclusive, the upper exclusive.
pub open spec fn spec_range_from_stem(s: Seq<char>) -> Option<(Version, Version)> {
    let u = find_char(s, '_', 0);
    if u >= s.len() {
        None
    } else {
        let from = spec_parse_dashed_version(s.subrange(0, u));
        let to = spec_parse_dashed_version(s.subrange(u + 1, s.len() as int));
        if from is Some && to is Some {
            Some((from->0, to->0))
        } else {
            None
        }
    }
}

pub fn range_from_stem(stem: &str) -> (r: Option<(Version, Version)>)
    ensures
        r == spec_range_from_stem(stem@),
{
    let chars = crate::text::chars_of(stem);
    let u = find_char_at(&chars, '_', 0);
    if u >= chars.len() {
        return None;
    }
    let from = parse_dashed_version(&chars, 0, u);
    let to = parse_dashed_version(&chars, u + 1, chars.len());
    match (from, to) {
        (Some(f), Some(t)) => Some((f, t)),
        _ => None,
    }
}

} // verus!
