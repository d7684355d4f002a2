//! Just enough JSON to write an event's captures: strings with standard
//! escaping, and objects whose fields stand in declared order.
use vstd::prelude::*;

use crate::text::{hex_padded, render_hex_padded};

verus! {

/// The escape of one character inside a JSON string.
pub open spec fn json_escape_char(c: char) -> Seq<char> {
    if c == '"' {
        seq!['\\', '"']
    } else if c == '\\' {
        seq!['\\', '\\']
    } else if c == '\u{8}' {
        seq!['\\', 'b']
    } else if c == '\u{c}' {
        seq!['\\', 'f']
    } else if c == '\n' {
        seq!['\\', 'n']
    } else if c == '\r' {
        seq!['\\', 'r']
    } else if c == '\t' {
        seq!['\\', 't']
    } else if (c as u32) < 32 {
        seq!['\\', 'u'] + hex_padded(c as u32 as nat, 4)
    } else {
        seq![c]
    }
}

/// The escaped body of a JSON string.
pub open spec fn json_escaped(s: Seq<char>) -> Seq<char>
    decreases s.len(),
{
    if s.len() == 0 {
        Seq::empty()
    } else {
        json_escape_char(s[0]) + json_escaped(s.drop_first())
    }
}

/// A JSON string literal: quotes around the escaped text.
pub open spec fn json_string(s: Seq<char>) -> Seq<char> {
    seq!['"'] + json_escaped(s) + seq!['"']
}

proof fn lemma_json_escaped_snoc(s: Seq<char>, c: char)
    ensures
        json_escaped(s.push(c)) == json_escaped(s) + json_escape_char(c),
    decreases s.len(),
{
    let snoc = s.push(c);
    assert(snoc.len() > 0);
    assert(json_escaped(snoc) == json_escape_char(snoc[0]) + json_escaped(snoc.drop_first()));
    if s.len() == 0 {
        assert(snoc.drop_first() =~= Seq::<char>::empty());
        assert(snoc[0] == c);
        assert(json_escaped(snoc.drop_first()) == Seq::<char>::empty());
        assert(json_escape_char(c) + Seq::<char>::empty() =~= json_escape_char(c));
        assert(json_escaped(s) == Seq::<char>::empty());
        assert(json_escaped(s) + json_escape_char(c) =~= json_escape_char(c));
    } else {
        lemma_json_escaped_snoc(s.drop_first(), c);
        assert(snoc.drop_first() =~= s.drop_first().push(c));
        assert(snoc[0] == s[0]);
        assert(json_escaped(s) == json_escape_char(s[0]) + json_escaped(s.drop_first()));
        assert(json_escape_char(s[0]) + (json_escaped(s.drop_first()) + json_escape_char(c)) =~= (
        json_escape_char(s[0]) + json_escaped(s.drop_first())) + json_escape_char(c));
    }
}

/// Append the escaped form of `s` to `out`.
pub fn push_json_escaped(out: &mut Vec<char>, s: &Vec<char>)
    ensures
        final(out)@ == old(out)@ + json_escaped(s@),
{
    let mut i: usize = 0;
    proof {
        assert(s@.take(0) =~= Seq::<char>::empty());
        assert(old(out)@ + Seq::<char>::empty() =~= old(out)@);
    }
    while i < s.len()
        invariant
            i <= s@.len(),
            out@ == old(out)@ + json_escaped(s@.take(i as int)),
        decreases s@.len() - i,
    {
        let c = s[i];
        proof {
            lemma_json_escaped_snoc(s@.take(i as int), c);
            assert(s@.take(i as int).push(c) =~= s@.take(i + 1));
        }
        let ghost mid = out@;
        if c == '"' {
            out.push('\\');
            out.push('"');
        } else if c == '\\' {
            out.push('\\');
            out.push('\\');
        } else if c == '\u{8}' {
            out.push('\\');
            out.push('b');
        } else if c == '\u{c}' {
            out.push('\\');
            out.push('f');
        } else if c == '\n' {
            out.push('\\');
            out.push('n');
        } else if c == '\r' {
            out.push('\\');
            out.push('r');
        } else if c == '\t' {
            out.push('\\');
            out.push('t');
        } else if (c as u32) < 32 {
            out.push('\\');
            out.push('u');
            let mut hex = render_hex_padded(c as u32 as u64, 4);
            out.append(&mut hex);
        } else {
            out.push(c);
        }
        assert(out@ =~= mid + json_escape_char(c));
        assert(out@ =~= old(out)@ + json_escaped(s@.take(i + 1)));
        i = i + 1;
    }
    proof {
        assert(s@.take(s@.len() as int) =~= s@);
    }
}

/// Append the JSON string literal for `s` to `out`.
pub fn push_json_string(out: &mut Vec<char>, s: &Vec<char>)
    ensures
        final(out)@ == old(out)@ + json_string(s@),
{
    out.push('"');
    push_json_escaped(out, s);
    out.push('"');
    proof {
        assert(out@ =~= old(out)@ + json_string(s@));
    }
}

} // verus!
