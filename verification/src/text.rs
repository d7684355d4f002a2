//! Character-level utilities: decimal and hexadecimal rendering and parsing,
//! substring search, and the conversions between `String` and `Vec<char>`
//! that the rest of the crate builds its text on.
use vstd::prelude::*;

verus! {

// ---------------------------------------------------------------------------
// character classes
// ---------------------------------------------------------------------------

pub open spec fn is_dec_digit(c: char) -> bool {
    48 <= c as u32 && c as u32 <= 57
}

pub open spec fn digit_val(c: char) -> int {
    c as u32 - 48
}

pub open spec fn all_dec_digits(s: Seq<char>) -> bool {
    forall|i: int| 0 <= i < s.len() ==> is_dec_digit(#[trigger] s[i])
}

pub fn dec_digit(c: char) -> (r: bool)
    ensures
        r == is_dec_digit(c),
{
    '0' <= c && c <= '9'
}

/// The character for one decimal digit value.
pub open spec fn digit_char(d: int) -> char {
    if d == 0 { '0' } else if d == 1 { '1' } else if d == 2 { '2' } else if d == 3 { '3' }
    else if d == 4 { '4' } else if d == 5 { '5' } else if d == 6 { '6' } else if d == 7 { '7' }
    else if d == 8 { '8' } else { '9' }
}

pub fn digit_char_of(d: u64) -> (r: char)
    requires
        d < 10,
    ensures
        r == digit_char(d as int),
{
    if d == 0 { '0' } else if d == 1 { '1' } else if d == 2 { '2' } else if d == 3 { '3' }
    else if d == 4 { '4' } else if d == 5 { '5' } else if d == 6 { '6' } else if d == 7 { '7' }
    else if d == 8 { '8' } else { '9' }
}

/// The character for one hexadecimal digit value, lowercase.
pub open spec fn hex_char(d: int) -> char {
    if d < 10 { digit_char(d) }
    else if d == 10 { 'a' } else if d == 11 { 'b' } else if d == 12 { 'c' }
    else if d == 13 { 'd' } else if d == 14 { 'e' } else { 'f' }
}

pub fn hex_char_of(d: u64) -> (r: char)
    requires
        d < 16,
    ensures
        r == hex_char(d as int),
{
    if d < 10 { digit_char_of(d) }
    else if d == 10 { 'a' } else if d == 11 { 'b' } else if d == 12 { 'c' }
    else if d == 13 { 'd' } else if d == 14 { 'e' } else { 'f' }
}

pub open spec fn is_hex_digit(c: char) -> bool {
    is_dec_digit(c) || (97 <= c as u32 && c as u32 <= 102) || (65 <= c as u32 && c as u32 <= 70)
}

pub fn hex_digit(c: char) -> (r: bool)
    ensures
        r == is_hex_digit(c),
{
    dec_digit(c) || ('a' <= c && c <= 'f') || ('A' <= c && c <= 'F')
}

// ---------------------------------------------------------------------------
// decimal rendering
// ---------------------------------------------------------------------------

/// The decimal digits of `n`, most significant first, no leading zeros
/// (a single `'0'` for zero).
pub open spec fn dec_digits(n: nat) -> Seq<char>
    decreases n,
{
    if n < 10 { seq![digit_char(n as int)] } else { dec_digits(n / 10) + seq![digit_char((n % 10) as int)] }
}

pub fn render_u64(n: u64) -> (r: Vec<char>)
    ensures
        r@ == dec_digits(n as nat),
    decreases n,
{
    if n < 10 {
        let mut v: Vec<char> = Vec::new();
        v.push(digit_char_of(n));
        assert(v@ =~= dec_digits(n as nat));
        v
    } else {
        let mut v = render_u64(n / 10);
        v.push(digit_char_of(n % 10));
        assert(v@ =~= dec_digits(n as nat));
        v
    }
}

/// The decimal text of a signed value: a minus sign for negatives.
pub open spec fn dec_int(n: int) -> Seq<char> {
    if n < 0 { seq!['-'] + dec_digits((-n) as nat) } else { dec_digits(n as nat) }
}

pub fn render_i64(n: i64) -> (r: Vec<char>)
    ensures
        r@ == dec_int(n as int),
{
    if n < 0 {
        let mag: u64 = if n == i64::MIN { 9223372036854775808 } else { (-n) as u64 };
        let mut v: Vec<char> = Vec::new();
        v.push('-');
        let mut digits = render_u64(mag);
        v.append(&mut digits);
        assert(v@ =~= dec_int(n as int));
        v
    } else {
        render_u64(n as u64)
    }
}

// ---------------------------------------------------------------------------
// decimal parsing
// ---------------------------------------------------------------------------

/// The value of a digit string, most significant first.
pub open spec fn dec_value(s: Seq<char>) -> int
    decreases s.len(),
{
    if s.len() == 0 { 0 } else { dec_value(s.drop_last()) * 10 + digit_val(s.last()) }
}

/// A digit string's value is never negative.
pub proof fn lemma_dec_value_nonneg(s: Seq<char>)
    requires
        all_dec_digits(s),
    ensures
        dec_value(s) >= 0,
    decreases s.len(),
{
    if s.len() > 0 {
        lemma_dec_value_nonneg(s.drop_last());
        assert(is_dec_digit(s.last()));
    }
}

/// Appending digits never lowers the value.
pub proof fn lemma_dec_value_extend(s: Seq<char>, t: Seq<char>)
    requires
        all_dec_digits(s),
        all_dec_digits(t),
    ensures
        dec_value(s + t) >= dec_value(s),
        dec_value(s) >= 0,
    decreases t.len(),
{
    lemma_dec_value_nonneg(s);
    if t.len() == 0 {
        assert(s + t =~= s);
    } else {
        lemma_dec_value_extend(s, t.drop_last());
        assert((s + t).drop_last() =~= s + t.drop_last());
        assert((s + t).last() == t.last());
        assert(is_dec_digit(t.last()));
    }
}

/// What a whole string of decimal digits denotes as a `u64`:
/// nothing if it is empty, holds a non-digit, or overflows.
pub open spec fn parse_dec_u64(s: Seq<char>) -> Option<u64> {
    if s.len() == 0 || !all_dec_digits(s) || dec_value(s) > u64::MAX {
        None
    } else {
        Some(dec_value(s) as u64)
    }
}

pub fn parse_u64(s: &Vec<char>) -> (r: Option<u64>)
    ensures
        r == parse_dec_u64(s@),
{
    let r = parse_u64_range(s, 0, s.len());
    assert(s@.subrange(0, s@.len() as int) =~= s@);
    r
}

/// Parse the digits of `s[from..to]` as a `u64`.
pub fn parse_u64_range(s: &Vec<char>, from: usize, to: usize) -> (r: Option<u64>)
    requires
        from <= to <= s@.len(),
    ensures
        r == parse_dec_u64(s@.subrange(from as int, to as int)),
{
    let ghost whole = s@.subrange(from as int, to as int);
    if from == to {
        return None;
    }
    let mut acc: u64 = 0;
    let mut i: usize = from;
    while i < to
        invariant
            from <= i <= to <= s@.len(),
            all_dec_digits(s@.subrange(from as int, i as int)),
            acc == dec_value(s@.subrange(from as int, i as int)),
            whole == s@.subrange(from as int, to as int),
        decreases to - i,
    {
        let c = s[i];
        if !dec_digit(c) {
            assert(whole[i - from] == c);
            return None;
        }
        let d: u64 = (c as u32 as u64) - 48;
        assert(d == digit_val(c) && d < 10);
        let next = match acc.checked_mul(10) {
            Some(m) => m.checked_add(d),
            None => None,
        };
        let ghost pre = s@.subrange(from as int, i as int);
        assert(s@.subrange(from as int, i + 1 as int).drop_last() =~= pre);
        assert(s@.subrange(from as int, i + 1 as int).last() == c);
        match next {
            Some(v) => {
                acc = v;
            },
            None => {
                // The prefix through `c` already exceeds `u64::MAX`; so does the whole.
                proof {
                    let through = s@.subrange(from as int, i + 1 as int);
                    lemma_dec_value_extend(pre, seq![c]);
                    assert(dec_value(through) > u64::MAX);
                    let rest = s@.subrange(i + 1 as int, to as int);
                    if all_dec_digits(whole) {
                        assert(all_dec_digits(through));
                        assert forall|k: int| 0 <= k < rest.len() implies is_dec_digit(#[trigger] rest[k]) by {
                            assert(rest[k] == whole[k + (i + 1 - from)]);
                        }
                        lemma_dec_value_extend(through, rest);
                        assert(through + rest =~= whole);
                        assert(dec_value(whole) > u64::MAX);
                    } else {
                    }
                }
                return None;
            },
        }
        i = i + 1;
    }
    assert(whole =~= s@.subrange(from as int, i as int));
    Some(acc)
}

// ---------------------------------------------------------------------------
// padded decimal, and the facts tying digits back to values
// ---------------------------------------------------------------------------

pub open spec fn pow10(w: nat) -> nat
    decreases w,
{
    if w == 0 { 1 } else { 10 * pow10((w - 1) as nat) }
}

pub proof fn lemma_pow10_pos(a: nat)
    ensures
        pow10(a) >= 1,
    decreases a,
{
    if a > 0 {
        lemma_pow10_pos((a - 1) as nat);
    }
}

pub proof fn lemma_pow10_add(a: nat, b: nat)
    ensures
        pow10(a + b) == pow10(a) * pow10(b),
    decreases a,
{
    if a == 0 {
        assert(a + b == b);
        assert(pow10(a) == 1);
        assert(pow10(a + b) == pow10(b));
        assert(pow10(a) * pow10(b) == pow10(b)) by (nonlinear_arith)
            requires
                pow10(a) == 1,
        ;
    } else {
        lemma_pow10_add((a - 1) as nat, b);
        let x = pow10((a - 1) as nat);
        let y = pow10(b);
        assert(pow10((a - 1) as nat + b) == x * y);
        assert((a - 1) as nat + b == (a + b - 1) as nat);
        assert(pow10(a + b) == 10 * pow10((a + b - 1) as nat));
        assert(pow10(a) == 10 * x);
        assert(10 * (x * y) == (10 * x) * y) by (nonlinear_arith);
        assert(pow10(a + b) == (10 * x) * y);
        assert(pow10(a) * pow10(b) == (10 * x) * y) by (nonlinear_arith)
            requires
                pow10(a) == 10 * x,
                pow10(b) == y,
        ;
    }
}

pub proof fn lemma_pow10_mono(a: nat, b: nat)
    requires
        a <= b,
    ensures
        1 <= pow10(a) <= pow10(b),
    decreases b - a,
{
    lemma_pow10_pos(a);
    if a < b {
        lemma_pow10_mono(a, (b - 1) as nat);
        lemma_pow10_pos((b - 1) as nat);
    }
}

/// Decimal zero-padded on the left to a given width
/// (wider values keep all their digits).
pub open spec fn dec_padded(n: nat, width: nat) -> Seq<char> {
    let ds = dec_digits(n);
    if ds.len() >= width { ds } else { Seq::new((width - ds.len()) as nat, |i: int| '0') + ds }
}

pub fn render_dec_padded(n: u64, width: usize) -> (r: Vec<char>)
    ensures
        r@ == dec_padded(n as nat, width as nat),
{
    let ds = render_u64(n);
    if ds.len() >= width {
        ds
    } else {
        let mut v: Vec<char> = Vec::new();
        let pad = width - ds.len();
        let mut k: usize = 0;
        while k < pad
            invariant
                k <= pad,
                v@ =~= Seq::new(k as nat, |i: int| '0'),
            decreases pad - k,
        {
            v.push('0');
            k = k + 1;
        }
        let mut tail = ds;
        v.append(&mut tail);
        assert(v@ =~= dec_padded(n as nat, width as nat));
        v
    }
}

/// The digits of `n` denote `n`.
pub proof fn lemma_dec_digits_value(n: nat)
    ensures
        all_dec_digits(dec_digits(n)),
        dec_value(dec_digits(n)) == n,
        dec_digits(n).len() >= 1,
    decreases n,
{
    if n < 10 {
        let s = dec_digits(n);
        assert(s =~= seq![digit_char(n as int)]);
        assert(s.drop_last() =~= Seq::<char>::empty());
        assert(dec_value(s) == dec_value(s.drop_last()) * 10 + digit_val(s.last()));
        assert(digit_val(digit_char(n as int)) == n);
    } else {
        lemma_dec_digits_value(n / 10);
        let s = dec_digits(n / 10);
        let whole = s + seq![digit_char((n % 10) as int)];
        assert(whole.drop_last() =~= s);
        assert(dec_value(whole) == dec_value(s) * 10 + digit_val(digit_char((n % 10) as int)));
        assert(digit_val(digit_char((n % 10) as int)) == n % 10);
        assert(all_dec_digits(whole));
    }
}

/// Leading zeros do not change a digit string's value.
pub proof fn lemma_dec_value_leading_zeros(z: Seq<char>, s: Seq<char>)
    requires
        forall|i: int| 0 <= i < z.len() ==> z[i] == '0',
    ensures
        dec_value(z + s) == dec_value(s),
    decreases s.len(),
{
    if s.len() == 0 {
        assert(z + s =~= z);
        lemma_dec_value_zeros(z);
    } else {
        lemma_dec_value_leading_zeros(z, s.drop_last());
        assert((z + s).drop_last() =~= z + s.drop_last());
        assert((z + s).last() == s.last());
    }
}

proof fn lemma_dec_value_zeros(z: Seq<char>)
    requires
        forall|i: int| 0 <= i < z.len() ==> z[i] == '0',
    ensures
        dec_value(z) == 0,
    decreases z.len(),
{
    if z.len() > 0 {
        lemma_dec_value_zeros(z.drop_last());
        assert(z.last() == '0');
    }
}

/// The padded digits of `n` are digits, `width` wide for values under
/// `pow10(width)`, and denote `n`.
pub proof fn lemma_dec_padded_value(n: nat, width: nat)
    ensures
        all_dec_digits(dec_padded(n, width)),
        dec_value(dec_padded(n, width)) == n,
        dec_padded(n, width).len() >= width,
        n < pow10(width) && width >= 1 ==> dec_padded(n, width).len() == width,
{
    lemma_dec_digits_value(n);
    let ds = dec_digits(n);
    if ds.len() >= width {
    } else {
        let z = Seq::new((width - ds.len()) as nat, |i: int| '0');
        lemma_dec_value_leading_zeros(z, ds);
        assert(all_dec_digits(z + ds)) by {
            assert(forall|i: int| 0 <= i < z.len() ==> #[trigger] (z + ds)[i] == '0');
            assert(forall|i: int| z.len() <= i < (z + ds).len() ==> #[trigger] (z + ds)[i] == ds[i - z.len()]);
        }
    }
    if n < pow10(width) && width >= 1 {
        lemma_dec_digits_len(n, width);
    }
}

/// A digit string of width `w` denotes a value under `pow10(w)`.
pub proof fn lemma_dec_value_bound(s: Seq<char>)
    requires
        all_dec_digits(s),
    ensures
        0 <= dec_value(s) < pow10(s.len()),
    decreases s.len(),
{
    if s.len() == 0 {
    } else {
        lemma_dec_value_bound(s.drop_last());
        assert(is_dec_digit(s.last()));
        assert(digit_val(s.last()) <= 9);
    }
}

/// A value under `pow10(w)` has at most `w` digits.
pub proof fn lemma_dec_digits_len(n: nat, w: nat)
    requires
        n < pow10(w),
        w >= 1,
    ensures
        dec_digits(n).len() <= w,
    decreases w,
{
    if n < 10 {
    } else {
        assert(pow10(w) == 10 * pow10((w - 1) as nat));
        assert(n / 10 < pow10((w - 1) as nat));
        assert(w >= 2) by {
            if w == 1 {
                assert(pow10(1nat) == 10);
            }
        }
        lemma_dec_digits_len(n / 10, (w - 1) as nat);
    }
}

// ---------------------------------------------------------------------------
// hexadecimal
// ---------------------------------------------------------------------------

/// The hexadecimal digits of `n`, lowercase, most significant first,
/// no leading zeros (a single `'0'` for zero).
pub open spec fn hex_digits(n: nat) -> Seq<char>
    decreases n,
{
    if n < 16 { seq![hex_char(n as int)] } else { hex_digits(n / 16) + seq![hex_char((n % 16) as int)] }
}

pub fn render_hex_u64(n: u64) -> (r: Vec<char>)
    ensures
        r@ == hex_digits(n as nat),
    decreases n,
{
    if n < 16 {
        let mut v: Vec<char> = Vec::new();
        v.push(hex_char_of(n));
        assert(v@ =~= hex_digits(n as nat));
        v
    } else {
        let mut v = render_hex_u64(n / 16);
        v.push(hex_char_of(n % 16));
        assert(v@ =~= hex_digits(n as nat));
        v
    }
}

/// Hexadecimal zero-padded on the left to a given width
/// (wider values keep all their digits).
pub open spec fn hex_padded(n: nat, width: nat) -> Seq<char> {
    let ds = hex_digits(n);
    if ds.len() >= width { ds } else { Seq::new((width - ds.len()) as nat, |i: int| '0') + ds }
}

pub fn render_hex_padded(n: u64, width: usize) -> (r: Vec<char>)
    ensures
        r@ == hex_padded(n as nat, width as nat),
{
    let ds = render_hex_u64(n);
    if ds.len() >= width {
        ds
    } else {
        let mut v: Vec<char> = Vec::new();
        let pad = width - ds.len();
        let mut k: usize = 0;
        while k < pad
            invariant
                k <= pad,
                v@ =~= Seq::new(k as nat, |i: int| '0'),
            decreases pad - k,
        {
            v.push('0');
            k = k + 1;
        }
        let mut tail = ds;
        v.append(&mut tail);
        assert(v@ =~= hex_padded(n as nat, width as nat));
        v
    }
}

// ---------------------------------------------------------------------------
// substring search
// ---------------------------------------------------------------------------

/// Whether `p` occurs in `s` at position `i`.
pub open spec fn occurs_at(s: Seq<char>, p: Seq<char>, i: int) -> bool {
    0 <= i && i + p.len() <= s.len() && s.subrange(i, i + p.len()) == p
}

/// Whether `p` occurs anywhere in `s`.
pub open spec fn contains_seq(s: Seq<char>, p: Seq<char>) -> bool {
    exists|i: int| occurs_at(s, p, i)
}

fn match_at(s: &Vec<char>, p: &Vec<char>, i: usize) -> (r: bool)
    requires
        i + p@.len() <= s@.len(),
    ensures
        r == occurs_at(s@, p@, i as int),
{
    let n = s.len();
    let mut j: usize = 0;
    while j < p.len()
        invariant
            n == s@.len(),
            i + p@.len() <= s@.len(),
            j <= p@.len(),
            forall|k: int| 0 <= k < j ==> s@[i + k] == p@[k],
        decreases p@.len() - j,
    {
        if s[i + j] != p[j] {
            assert(s@.subrange(i as int, i + p@.len()) != p@) by {
                assert(s@.subrange(i as int, i + p@.len())[j as int] != p@[j as int]);
            }
            return false;
        }
        j = j + 1;
    }
    assert(s@.subrange(i as int, i + p@.len()) =~= p@);
    true
}

/// Substring search, as `str::contains` has it.
pub fn contains_chars(s: &Vec<char>, p: &Vec<char>) -> (r: bool)
    ensures
        r == contains_seq(s@, p@),
{
    if p.len() > s.len() {
        assert(!contains_seq(s@, p@));
        return false;
    }
    if p.len() == 0 {
        assert(occurs_at(s@, p@, 0)) by {
            assert(s@.subrange(0, 0) =~= p@);
        }
        return true;
    }
    let n = s.len();
    let mut i: usize = 0;
    let last = n - p.len();
    while i <= last
        invariant
            n == s@.len(),
            1 <= p@.len() <= s@.len(),
            last == s@.len() - p@.len(),
            i <= last + 1,
            forall|k: int| 0 <= k < i ==> !occurs_at(s@, p@, k),
        decreases last - i + 1,
    {
        if match_at(s, p, i) {
            return true;
        }
        i = i + 1;
    }
    assert forall|k: int| !occurs_at(s@, p@, k) by {
        if 0 <= k <= last {
            assert(!occurs_at(s@, p@, k));
        }
    }
    false
}

// ---------------------------------------------------------------------------
// String conversions
// ---------------------------------------------------------------------------

/// The characters of a `&str`, as a vector.
pub fn chars_of(s: &str) -> (r: Vec<char>)
    ensures
        r@ == s@,
{
    let n = s.unicode_len();
    let mut v: Vec<char> = Vec::new();
    let mut i: usize = 0;
    while i < n
        invariant
            n == s@.len(),
            i <= n,
            v@ =~= s@.subrange(0, i as int),
        decreases n - i,
    {
        v.push(s.get_char(i));
        assert(v@ =~= s@.subrange(0, i + 1 as int));
        i = i + 1;
    }
    assert(v@ =~= s@);
    v
}

/// Relies on `Iterator::collect` for `String`: collecting characters
/// yields the string of exactly those characters in order.
#[verifier::external_body]
pub fn string_from_chars(v: &Vec<char>) -> (r: String)
    ensures
        r@ == v@,
{
    v.iter().collect()
}

/// Equality of a character vector against a `&str`, character by character.
pub fn chars_eq_str(v: &Vec<char>, s: &str) -> (r: bool)
    ensures
        r == (v@ == s@),
{
    let n = s.unicode_len();
    if v.len() != n {
        return false;
    }
    let mut i: usize = 0;
    while i < n
        invariant
            n == s@.len(),
            v@.len() == n,
            i <= n,
            forall|k: int| 0 <= k < i ==> v@[k] == s@[k],
        decreases n - i,
    {
        if v[i] != s.get_char(i) {
            assert(v@ != s@);
            return false;
        }
        i = i + 1;
    }
    assert(v@ =~= s@);
    true
}

// ---------------------------------------------------------------------------
// signed and hexadecimal values
// ---------------------------------------------------------------------------

/// What a signed decimal string denotes as an `i64`: an optional sign,
/// then digits, within the type's range.
pub open spec fn parse_dec_i64(s: Seq<char>) -> Option<i64> {
    if s.len() > 0 && (s[0] == '-' || s[0] == '+') {
        let mag = s.drop_first();
        if mag.len() == 0 || !all_dec_digits(mag) {
            None
        } else if s[0] == '-' && dec_value(mag) <= 0x8000000000000000 {
            Some((-dec_value(mag)) as i64)
        } else if s[0] == '+' && dec_value(mag) <= 0x7fffffffffffffff {
            Some(dec_value(mag) as i64)
        } else {
            None
        }
    } else if s.len() > 0 && all_dec_digits(s) && dec_value(s) <= 0x7fffffffffffffff {
        Some(dec_value(s) as i64)
    } else {
        None
    }
}

pub fn parse_i64(s: &Vec<char>) -> (r: Option<i64>)
    ensures
        r == parse_dec_i64(s@),
{
    if s.len() == 0 {
        return None;
    }
    let c0 = s[0];
    if c0 == '-' || c0 == '+' {
        let ghost mag = s@.drop_first();
        assert(mag =~= s@.subrange(1, s@.len() as int));
        match parse_u64_range(s, 1, s.len()) {
            Some(v) => {
                proof {
                    if all_dec_digits(mag) {
                        lemma_dec_value_nonneg(mag);
                    }
                }
                proof {
                    lemma_dec_value_nonneg(mag);
                }
                assert(mag.len() > 0 && all_dec_digits(mag) && dec_value(mag) == v);
                if c0 == '-' {
                    if v <= 9223372036854775808 {
                        let r: i64 = if v == 9223372036854775808 {
                            i64::MIN
                        } else {
                            -(v as i64)
                        };
                        assert(r == (-dec_value(mag)) as i64);
                        assert(parse_dec_i64(s@) == Some(r));
                        Some(r)
                    } else {
                        assert(parse_dec_i64(s@) is None);
                        None
                    }
                } else {
                    if v <= 9223372036854775807 {
                        assert(parse_dec_i64(s@) == Some(v as i64));
                        Some(v as i64)
                    } else {
                        assert(parse_dec_i64(s@) is None);
                        None
                    }
                }
            },
            None => {
                proof {
                    if mag.len() > 0 && all_dec_digits(mag) {
                        lemma_dec_value_nonneg(mag);
                        if dec_value(mag) <= 0x8000000000000000 {
                            assert(parse_dec_u64(mag) is Some);
                            assert(false);
                        }
                    }
                }
                assert(parse_dec_i64(s@) is None);
                None
            },
        }
    } else {
        match parse_u64(s) {
            Some(v) => {
                proof {
                    lemma_dec_value_nonneg(s@);
                }
                if v <= 9223372036854775807 {
                    assert(parse_dec_i64(s@) == Some(v as i64));
                    Some(v as i64)
                } else {
                    assert(parse_dec_i64(s@) is None);
                    None
                }
            },
            None => {
                proof {
                    if s@.len() > 0 && all_dec_digits(s@) {
                        lemma_dec_value_nonneg(s@);
                        if dec_value(s@) <= 0x7fffffffffffffff {
                            assert(parse_dec_u64(s@) is Some);
                            assert(false);
                        }
                    }
                }
                assert(parse_dec_i64(s@) is None);
                None
            },
        }
    }
}

pub open spec fn hex_digit_val(c: char) -> int {
    if is_dec_digit(c) {
        digit_val(c)
    } else if 97 <= c as u32 && c as u32 <= 102 {
        c as u32 - 87
    } else {
        c as u32 - 55
    }
}

pub open spec fn all_hex_digits(s: Seq<char>) -> bool {
    forall|i: int| 0 <= i < s.len() ==> is_hex_digit(#[trigger] s[i])
}

/// The value of a hexadecimal digit string, most significant first.
pub open spec fn hex_value(s: Seq<char>) -> int
    decreases s.len(),
{
    if s.len() == 0 {
        0
    } else {
        hex_value(s.drop_last()) * 16 + hex_digit_val(s.last())
    }
}

pub proof fn lemma_hex_value_nonneg(s: Seq<char>)
    requires
        all_hex_digits(s),
    ensures
        hex_value(s) >= 0,
    decreases s.len(),
{
    if s.len() > 0 {
        lemma_hex_value_nonneg(s.drop_last());
        assert(is_hex_digit(s.last()));
    }
}

/// What a hexadecimal string denotes as a non-negative `i64`.
pub open spec fn parse_hex_i64(s: Seq<char>) -> Option<i64> {
    if s.len() > 0 && all_hex_digits(s) && hex_value(s) <= 0x7fffffffffffffff {
        Some(hex_value(s) as i64)
    } else {
        None
    }
}

fn hex_digit_value_of(c: char) -> (r: u64)
    requires
        is_hex_digit(c),
    ensures
        r == hex_digit_val(c),
        r < 16,
{
    if '0' <= c && c <= '9' {
        (c as u32 as u64) - 48
    } else if 'a' <= c && c <= 'f' {
        (c as u32 as u64) - 87
    } else {
        (c as u32 as u64) - 55
    }
}

pub fn parse_hex(s: &Vec<char>) -> (r: Option<i64>)
    ensures
        r == parse_hex_i64(s@),
{
    if s.len() == 0 {
        return None;
    }
    let mut acc: u64 = 0;
    let mut i: usize = 0;
    while i < s.len()
        invariant
            i <= s@.len(),
            all_hex_digits(s@.subrange(0, i as int)),
            acc == hex_value(s@.subrange(0, i as int)),
            acc <= 0x7fffffffffffffff,
        decreases s@.len() - i,
    {
        let c = s[i];
        if !hex_digit(c) {
            assert(!all_hex_digits(s@)) by {
                assert(s@[i as int] == c);
            }
            return None;
        }
        let d = hex_digit_value_of(c);
        let ghost pre = s@.subrange(0, i as int);
        assert(s@.subrange(0, i + 1 as int).drop_last() =~= pre);
        assert(s@.subrange(0, i + 1 as int).last() == c);
        if acc > (0x7fffffffffffffffu64 - d) / 16 {
            // this prefix, hence the whole string, exceeds the range
            proof {
                let through = s@.subrange(0, i + 1 as int);
                assert(hex_value(through) == acc * 16 + d);
                assert(acc * 16 + d > 0x7fffffffffffffff) by (nonlinear_arith)
                    requires
                        acc > (0x7fffffffffffffffu64 - d) / 16,
                        0 <= d < 16,
                        acc >= 0,
                ;
                lemma_hex_value_extend(through, s@);
            }
            return None;
        }
        acc = acc * 16 + d;
        i = i + 1;
    }
    assert(s@.subrange(0, s@.len() as int) =~= s@);
    Some(acc as i64)
}

/// A hexadecimal prefix never exceeds the whole string's value.
proof fn lemma_hex_value_extend(p: Seq<char>, s: Seq<char>)
    requires
        p.len() <= s.len(),
        p =~= s.subrange(0, p.len() as int),
        all_hex_digits(p),
    ensures
        all_hex_digits(s) ==> hex_value(s) >= hex_value(p),
    decreases s.len() - p.len(),
{
    if p.len() < s.len() && all_hex_digits(s) {
        let q = s.subrange(0, p.len() as int + 1);
        assert(q.drop_last() =~= p);
        assert(is_hex_digit(q.last())) by {
            assert(q.last() == s[p.len() as int]);
        }
        lemma_hex_value_nonneg(p);
        assert(hex_value(q) == hex_value(p) * 16 + hex_digit_val(q.last()));
        assert(hex_value(q) >= hex_value(p)) by (nonlinear_arith)
            requires
                hex_value(q) == hex_value(p) * 16 + hex_digit_val(q.last()),
                hex_value(p) >= 0,
                hex_digit_val(q.last()) >= 0,
        ;
        assert(all_hex_digits(q)) by {
            assert(forall|k: int| 0 <= k < q.len() ==> q[k] == s[k]);
        }
        lemma_hex_value_extend(q, s);
    } else {
        if all_hex_digits(s) {
            assert(p =~= s);
        }
    }
}


} // verus!
