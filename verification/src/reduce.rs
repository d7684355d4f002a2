//! Line reduction: normalize identifier-like tokens to placeholders so
//! similar failing lines coalesce and can be counted together. A debug aid,
//! never part of parsing itself.
use vstd::prelude::*;

use crate::Error;
use crate::line_parser::PlatformRuntime;
use crate::patterns::{Pattern, regex_matched, regex_ok, regex_prefix, regex_suffix};
use crate::text::{chars_of, is_dec_digit, is_hex_digit, string_from_chars};

verus! {

pub open spec fn docid_pattern_text() -> Seq<char> {
    "\\w+::\\w{8}-\\w{4}-\\w{4}-\\w{4}-\\w{12}"@
}

pub open spec fn revid_pattern_text() -> Seq<char> {
    "(#)?\\d+-\\w{32}"@
}

pub open spec fn dict_pattern_text() -> Seq<char> {
    "\\{(\\W\\w+\\W:.*,)*\\W\\w+\\W:.*"@
}

pub open spec fn query_pattern_text() -> Seq<char> {
    "SELECT fl_result\\(.*FROM.*"@
}

pub open spec fn quote_pattern_text() -> Seq<char> {
    "^'.*'"@
}

/// Whether the reducer's own five patterns are valid regular expressions;
/// reduction fails only when one is not.
pub open spec fn reducer_patterns_ok() -> bool {
    &&& regex_ok(docid_pattern_text())
    &&& regex_ok(revid_pattern_text())
    &&& regex_ok(quote_pattern_text())
    &&& regex_ok(dict_pattern_text())
    &&& regex_ok(query_pattern_text())
}

/// The white-space characters, as the Unicode property lists them.
pub open spec fn is_white(c: char) -> bool {
    let u = c as u32;
    ||| (9 <= u && u <= 13)
    ||| u == 32
    ||| u == 0x85
    ||| u == 0xa0
    ||| u == 0x1680
    ||| (0x2000 <= u && u <= 0x200a)
    ||| u == 0x2028
    ||| u == 0x2029
    ||| u == 0x202f
    ||| u == 0x205f
    ||| u == 0x3000
}

fn white_char(c: char) -> (r: bool)
    ensures
        r == is_white(c),
{
    let u = c as u32;
    (9 <= u && u <= 13) || u == 32 || u == 0x85 || u == 0xa0 || u == 0x1680 || (0x2000 <= u && u
        <= 0x200a) || u == 0x2028 || u == 0x2029 || u == 0x202f || u == 0x205f || u == 0x3000
}

// ---------------------------------------------------------------------------
// digit squashing
// ---------------------------------------------------------------------------

/// Each maximal digit run replaced by the `{NUMBER}` placeholder; `in_run`
/// says whether a run is already open.
pub open spec fn squash_digits(s: Seq<char>, in_run: bool) -> Seq<char>
    decreases s.len(),
{
    if s.len() == 0 {
        Seq::empty()
    } else if is_dec_digit(s[0]) {
        (if in_run {
            Seq::<char>::empty()
        } else {
            "{NUMBER}"@
        }) + squash_digits(s.drop_first(), true)
    } else {
        seq![s[0]] + squash_digits(s.drop_first(), false)
    }
}

fn squash_digits_from(s: &Vec<char>, from: usize, in_run: bool) -> (r: Vec<char>)
    requires
        from <= s@.len(),
    ensures
        r@ == squash_digits(s@.skip(from as int), in_run),
    decreases s@.len() - from,
{
    proof {
        if from < s@.len() {
            assert(s@.skip(from as int).drop_first() =~= s@.skip(from + 1));
            assert(s@.skip(from as int)[0] == s@[from as int]);
        }
    }
    if from >= s.len() {
        let empty: Vec<char> = Vec::new();
        assert(empty@ =~= Seq::<char>::empty());
        return empty;
    }
    let c = s[from];
    if crate::text::dec_digit(c) {
        let mut rest = squash_digits_from(s, from + 1, true);
        if in_run {
            proof {
                assert(Seq::<char>::empty() + rest@ =~= rest@);
            }
            rest
        } else {
            proof {
                reveal_strlit("{NUMBER}");
            }
            let mut out = chars_of("{NUMBER}");
            out.append(&mut rest);
            assert(out@ =~= "{NUMBER}"@ + squash_digits(s@.skip(from + 1), true));
            out
        }
    } else {
        let mut out: Vec<char> = Vec::new();
        out.push(c);
        let mut rest = squash_digits_from(s, from + 1, false);
        out.append(&mut rest);
        assert(out@ =~= seq![c] + squash_digits(s@.skip(from + 1), false));
        out
    }
}

// ---------------------------------------------------------------------------
// word classification
// ---------------------------------------------------------------------------

pub open spec fn all_hex(s: Seq<char>) -> bool {
    forall|i: int| 0 <= i < s.len() ==> is_hex_digit(#[trigger] s[i])
}

pub open spec fn all_dec(s: Seq<char>) -> bool {
    forall|i: int| 0 <= i < s.len() ==> is_dec_digit(#[trigger] s[i])
}

pub open spec fn has_digit(s: Seq<char>) -> bool {
    exists|i: int| 0 <= i < s.len() && is_dec_digit(#[trigger] s[i])
}

/// One word's reduced form: document, revision and quoted tokens become
/// placeholders; hex-looking tokens (not purely numeric) become `{HEX}`;
/// digit runs in mixed tokens become `{NUMBER}`; the rest stand.
pub open spec fn word_reduced(w: Seq<char>) -> Seq<char> {
    if regex_matched(docid_pattern_text(), w) {
        "{DOCID}"@
    } else if regex_matched(revid_pattern_text(), w) {
        "{REVID}"@
    } else if regex_matched(quote_pattern_text(), w) {
        "{QUOTED}"@
    } else if all_hex(w) && !all_dec(w) {
        "{HEX}"@
    } else if has_digit(w) {
        squash_digits(w, false)
    } else {
        w
    }
}

fn classify_word(
    w: &Vec<char>,
    docid: &Pattern,
    revid: &Pattern,
    quote: &Pattern,
) -> (r: Vec<char>)
    requires
        docid.src() == docid_pattern_text(),
        revid.src() == revid_pattern_text(),
        quote.src() == quote_pattern_text(),
    ensures
        r@ == word_reduced(w@),
{
    let text = string_from_chars(w);
    if docid.is_match(text.as_str()) {
        proof {
            reveal_strlit("{DOCID}");
        }
        chars_of("{DOCID}")
    } else if revid.is_match(text.as_str()) {
        proof {
            reveal_strlit("{REVID}");
        }
        chars_of("{REVID}")
    } else if quote.is_match(text.as_str()) {
        proof {
            reveal_strlit("{QUOTED}");
        }
        chars_of("{QUOTED}")
    } else {
        let mut hex_all = true;
        let mut dec_all = true;
        let mut digit_any = false;
        let mut i: usize = 0;
        while i < w.len()
            invariant
                i <= w@.len(),
                hex_all == all_hex(w@.subrange(0, i as int)),
                dec_all == all_dec(w@.subrange(0, i as int)),
                digit_any == has_digit(w@.subrange(0, i as int)),
            decreases w@.len() - i,
        {
            let ghost pre = w@.subrange(0, i as int);
            let c = w[i];
            proof {
                assert(w@.subrange(0, i + 1 as int).drop_last() =~= pre);
                assert(w@.subrange(0, i + 1 as int).last() == c);
                assert(forall|k: int|
                    0 <= k < i + 1 ==> w@.subrange(0, i + 1 as int)[k] == w@[k]);
            }
            hex_all = hex_all && crate::text::hex_digit(c);
            dec_all = dec_all && crate::text::dec_digit(c);
            digit_any = digit_any || crate::text::dec_digit(c);
            proof {
                let next = w@.subrange(0, i + 1 as int);
                assert(all_hex(next) == (all_hex(pre) && is_hex_digit(c))) by {
                    if all_hex(pre) && is_hex_digit(c) {
                        assert(forall|k: int|
                            0 <= k < next.len() ==> is_hex_digit(#[trigger] next[k]));
                    } else {
                        if !is_hex_digit(c) {
                            assert(next[i as int] == c);
                        } else {
                            let witness = choose|k: int| 0 <= k < pre.len() && !is_hex_digit(
                                #[trigger] pre[k],
                            );
                            assert(!is_hex_digit(next[witness]));
                        }
                    }
                }
                assert(all_dec(next) == (all_dec(pre) && is_dec_digit(c))) by {
                    if all_dec(pre) && is_dec_digit(c) {
                        assert(forall|k: int|
                            0 <= k < next.len() ==> is_dec_digit(#[trigger] next[k]));
                    } else {
                        if !is_dec_digit(c) {
                            assert(next[i as int] == c);
                        } else {
                            let witness = choose|k: int| 0 <= k < pre.len() && !is_dec_digit(
                                #[trigger] pre[k],
                            );
                            assert(!is_dec_digit(next[witness]));
                        }
                    }
                }
                assert(has_digit(next) == (has_digit(pre) || is_dec_digit(c))) by {
                    if is_dec_digit(c) {
                        assert(next[i as int] == c);
                    } else if has_digit(pre) {
                        let witness = choose|k: int| 0 <= k < pre.len() && is_dec_digit(
                            #[trigger] pre[k],
                        );
                        assert(is_dec_digit(next[witness]));
                    }
                }
            }
            i = i + 1;
        }
        proof {
            assert(w@.subrange(0, w@.len() as int) =~= w@);
        }
        if hex_all && !dec_all {
            proof {
                reveal_strlit("{HEX}");
            }
            chars_of("{HEX}")
        } else if digit_any {
            proof {
                assert(w@.skip(0) =~= w@);
            }
            squash_digits_from(w, 0, false)
        } else {
            let mut out: Vec<char> = Vec::new();
            let mut k: usize = 0;
            while k < w.len()
                invariant
                    k <= w@.len(),
                    out@ =~= w@.subrange(0, k as int),
                decreases w@.len() - k,
            {
                out.push(w[k]);
                assert(out@ =~= w@.subrange(0, k + 1 as int));
                k = k + 1;
            }
            assert(out@ =~= w@);
            out
        }
    }
}

// ---------------------------------------------------------------------------
// word splitting and assembly
// ---------------------------------------------------------------------------

/// The first white-space position at or after `i` (the length when none).
pub open spec fn find_white(s: Seq<char>, i: int) -> int
    decreases s.len() - i,
{
    if i < 0 || i >= s.len() {
        s.len() as int
    } else if is_white(s[i]) {
        i
    } else {
        find_white(s, i + 1)
    }
}

pub proof fn lemma_find_white(s: Seq<char>, i: int)
    requires
        0 <= i <= s.len(),
    ensures
        i <= find_white(s, i) <= s.len(),
        find_white(s, i) < s.len() ==> is_white(s[find_white(s, i)]),
        forall|k: int| i <= k < find_white(s, i) ==> !is_white(s[k]),
    decreases s.len() - i,
{
    if i < s.len() && !is_white(s[i]) {
        lemma_find_white(s, i + 1);
    }
}

fn find_white_at(s: &Vec<char>, i: usize) -> (r: usize)
    requires
        i <= s@.len(),
    ensures
        r == find_white(s@, i as int),
        i <= r <= s@.len(),
    decreases s@.len() - i,
{
    proof {
        lemma_find_white(s@, i as int);
    }
    if i >= s.len() {
        s.len()
    } else if white_char(s[i]) {
        i
    } else {
        find_white_at(s, i + 1)
    }
}

/// The reduced words from position `i` on, each with a trailing space.
pub open spec fn reduce_words_at(s: Seq<char>, i: int) -> Seq<char>
    decreases s.len() - i, 1int
        via reduce_words_at_decreases
{
    if i < 0 || i >= s.len() {
        Seq::empty()
    } else if is_white(s[i]) {
        reduce_words_at(s, i + 1)
    } else {
        let j = find_white(s, i);
        word_reduced(s.subrange(i, j)) + seq![' '] + reduce_words_at(s, j)
    }
}

#[via_fn]
proof fn reduce_words_at_decreases(s: Seq<char>, i: int) {
    if 0 <= i < s.len() && !is_white(s[i]) {
        lemma_find_white(s, i);
        assert(find_white(s, i) > i) by {
            if find_white(s, i) == i {
                assert(is_white(s[i]));
            }
        }
    }
}

fn reduce_words_from(
    s: &Vec<char>,
    i: usize,
    docid: &Pattern,
    revid: &Pattern,
    quote: &Pattern,
) -> (r: Vec<char>)
    requires
        i <= s@.len(),
        docid.src() == docid_pattern_text(),
        revid.src() == revid_pattern_text(),
        quote.src() == quote_pattern_text(),
    ensures
        r@ == reduce_words_at(s@, i as int),
    decreases s@.len() - i,
{
    if i >= s.len() {
        let empty: Vec<char> = Vec::new();
        assert(empty@ =~= Seq::<char>::empty());
        return empty;
    }
    if white_char(s[i]) {
        return reduce_words_from(s, i + 1, docid, revid, quote);
    }
    let j = find_white_at(s, i);
    proof {
        lemma_find_white(s@, i as int);
        assert(j > i) by {
            if j == i as int {
                assert(is_white(s@[i as int]));
            }
        }
    }
    let mut word: Vec<char> = Vec::new();
    let mut k: usize = i;
    while k < j
        invariant
            i <= k <= j <= s@.len(),
            word@ =~= s@.subrange(i as int, k as int),
        decreases j - k,
    {
        word.push(s[k]);
        assert(word@ =~= s@.subrange(i as int, k + 1 as int));
        k = k + 1;
    }
    assert(word@ =~= s@.subrange(i as int, j as int));
    let mut out = classify_word(&word, docid, revid, quote);
    out.push(' ');
    let mut rest = reduce_words_from(s, j, docid, revid, quote);
    out.append(&mut rest);
    assert(out@ =~= word_reduced(s@.subrange(i as int, j as int)) + seq![' ']
        + reduce_words_at(s@, j as int));
    out
}

// ---------------------------------------------------------------------------
// the whole reduction
// ---------------------------------------------------------------------------

/// The line with its domain or level prefix stripped: whichever match ends
/// later loses more of the front.
pub open spec fn spec_strip_prefix(
    domain_src: Seq<char>,
    level_src: Option<Seq<char>>,
    line: Seq<char>,
) -> Seq<char> {
    let after_domain = match regex_suffix(domain_src, line) {
        Some(x) => x,
        None => line,
    };
    let after_level = match level_src {
        Some(ls) => match regex_suffix(ls, line) {
            Some(x) => x,
            None => line,
        },
        None => line,
    };
    if after_domain.len() < after_level.len() {
        after_domain
    } else {
        after_level
    }
}

/// Dictionaries and query fragments cut off and replaced by placeholders.
pub open spec fn spec_strip_tail(s: Seq<char>) -> Seq<char> {
    let after_dict = match regex_prefix(dict_pattern_text(), s) {
        Some(p) => p + "{DICT}"@,
        None => s,
    };
    match regex_prefix(query_pattern_text(), after_dict) {
        Some(p) => p + "{QUERY}"@,
        None => after_dict,
    }
}

/// The whole reduced line: prefixes stripped, dictionary and query bodies
/// cut, each word normalized, words joined with single trailing spaces.
pub open spec fn spec_reduce_line(
    domain_src: Seq<char>,
    level_src: Option<Seq<char>>,
    line: Seq<char>,
) -> Seq<char> {
    reduce_words_at(spec_strip_tail(spec_strip_prefix(domain_src, level_src, line)), 0)
}

/// Reduce one line under a platform's patterns. Fails only if one of the
/// reducer's own patterns does not compile.
pub fn reduce_line(rt: &PlatformRuntime, line: &str) -> (r: Result<String, Error>)
    ensures
        match r {
            Ok(s) => {
                let lsrc = match rt.level {
                    Some(p) => Some(p.src()),
                    None => None,
                };
                s@ == spec_reduce_line(rt.domain.src(), lsrc, line@)
            },
            Err(e) => e is CannotParse && !reducer_patterns_ok(),
        },
        reducer_patterns_ok() ==> r is Ok,
{
    let docid = match Pattern::compile("\\w+::\\w{8}-\\w{4}-\\w{4}-\\w{4}-\\w{12}") {
        Some(p) => p,
        None => {
            return Err(Error::CannotParse(String::from_str("Invalid reducer pattern")));
        },
    };
    let revid = match Pattern::compile("(#)?\\d+-\\w{32}") {
        Some(p) => p,
        None => {
            return Err(Error::CannotParse(String::from_str("Invalid reducer pattern")));
        },
    };
    let quote = match Pattern::compile("^'.*'") {
        Some(p) => p,
        None => {
            return Err(Error::CannotParse(String::from_str("Invalid reducer pattern")));
        },
    };
    let dict = match Pattern::compile("\\{(\\W\\w+\\W:.*,)*\\W\\w+\\W:.*") {
        Some(p) => p,
        None => {
            return Err(Error::CannotParse(String::from_str("Invalid reducer pattern")));
        },
    };
    let query = match Pattern::compile("SELECT fl_result\\(.*FROM.*") {
        Some(p) => p,
        None => {
            return Err(Error::CannotParse(String::from_str("Invalid reducer pattern")));
        },
    };

    // strip whichever of the domain and level matches reaches further
    let after_domain = match rt.domain.suffix_from_match(line) {
        Some(x) => x,
        None => line.to_owned(),
    };
    let after_level = match &rt.level {
        Some(p) => match p.suffix_from_match(line) {
            Some(x) => x,
            None => line.to_owned(),
        },
        None => line.to_owned(),
    };
    let ad = chars_of(after_domain.as_str());
    let al = chars_of(after_level.as_str());
    let stripped = if ad.len() < al.len() {
        after_domain
    } else {
        after_level
    };

    // cut dictionary and query bodies
    let after_dict = match dict.prefix_to_match(stripped.as_str()) {
        Some(p) => {
            let mut v = chars_of(p.as_str());
            proof {
                reveal_strlit("{DICT}");
            }
            let mut tail = chars_of("{DICT}");
            v.append(&mut tail);
            string_from_chars(&v)
        },
        None => stripped,
    };
    let after_query = match query.prefix_to_match(after_dict.as_str()) {
        Some(p) => {
            let mut v = chars_of(p.as_str());
            proof {
                reveal_strlit("{QUERY}");
            }
            let mut tail = chars_of("{QUERY}");
            v.append(&mut tail);
            string_from_chars(&v)
        },
        None => after_dict,
    };

    let chars = chars_of(after_query.as_str());
    let reduced = reduce_words_from(&chars, 0, &docid, &revid, &quote);
    Ok(string_from_chars(&reduced))
}

} // verus!
