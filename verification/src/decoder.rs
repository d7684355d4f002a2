//! The binary log decoder.
//!
//! An encoded file opens with the magic bytes CF B2 AB 1B, a format version
//! byte, a pointer-size byte and a varint start time in epoch seconds. What
//! follows is a sequence of entries over a stateful stream: a varint
//! timestamp delta in microsecond ticks, a level byte, a tokenized domain,
//! an object reference, and a printf-style format replay.
//!
//! Tokenized strings and the object dictionary only ever grow, so a token id
//! or object id means the same text for the whole file.
use vstd::prelude::*;

use crate::Error;
use crate::datetime::{DateTime, datetime_from_epoch_micros, epoch_micros_limit_value, render_datetime};
use crate::stream::ByteStream;
use crate::text::{chars_of, render_i64, render_u64, render_hex_padded, string_from_chars};
use crate::varint::{take_varint, varint_u64};

verus! {

/// The four bytes every encoded file starts with.
pub open spec fn magic_bytes() -> Seq<u8> {
    seq![0xcfu8, 0xb2u8, 0xabu8, 0x1bu8]
}

pub open spec fn format_version() -> u8 {
    1u8
}

/// Whether a buffer opens with an acceptable header: the magic, format
/// version one, a pointer size of four or eight, and a varint start time
/// in epoch seconds that the supported calendar range can hold.
pub open spec fn header_well_formed(data: Seq<u8>) -> bool {
    &&& data.len() >= 6
    &&& data.subrange(0, 4) == magic_bytes()
    &&& data[4] == format_version()
    &&& (data[5] == 4 || data[5] == 8)
    &&& take_varint(data.skip(6), 10) is Some
    &&& header_start_micros(data) < crate::datetime::epoch_micros_limit()
}

/// The start time a well-formed header names, in microseconds.
pub open spec fn header_start_micros(data: Seq<u8>) -> int {
    varint_u64((take_varint(data.skip(6), 10)->0).0) * 1000000
}

/// Whether a buffer is an encoded binary log rather than plain text.
pub fn is_encoded(data: &Vec<u8>) -> (r: bool)
    ensures
        r == (data@.len() >= 4 && data@.subrange(0, 4) == magic_bytes()),
{
    if data.len() < 4 {
        return false;
    }
    let r = data[0] == 0xcf && data[1] == 0xb2 && data[2] == 0xab && data[3] == 0x1b;
    proof {
        if r {
            assert(data@.subrange(0, 4) =~= magic_bytes());
        } else {
            assert(data@.subrange(0, 4) != magic_bytes()) by {
                if data@.subrange(0, 4) == magic_bytes() {
                    assert(data@[0] == 0xcf && data@[1] == 0xb2 && data@[2] == 0xab && data@[3]
                        == 0x1b) by {
                        assert(data@.subrange(0, 4)[0] == data@[0]);
                        assert(data@.subrange(0, 4)[1] == data@[1]);
                        assert(data@.subrange(0, 4)[2] == data@[2]);
                        assert(data@.subrange(0, 4)[3] == data@[3]);
                    }
                }
            }
        }
    }
    r
}

// ---------------------------------------------------------------------------
// null-terminated strings
// ---------------------------------------------------------------------------

/// The bytes before the first NUL, and how many bytes the read consumes
/// (the NUL included); nothing when no NUL follows.
pub open spec fn take_cstring(s: Seq<u8>) -> Option<(Seq<u8>, int)>
    decreases s.len(),
{
    if s.len() == 0 {
        None
    } else if s[0] == 0 {
        Some((Seq::empty(), 1))
    } else {
        match take_cstring(s.drop_first()) {
            None => None,
            Some(p) => Some((seq![s[0]] + p.0, p.1 + 1)),
        }
    }
}

/// Each byte read as one character, as the encoder wrote them.
pub open spec fn bytes_as_chars(b: Seq<u8>) -> Seq<char> {
    Seq::new(b.len(), |i: int| b[i] as char)
}

proof fn lemma_take_cstring_at(s: Seq<u8>, i: int)
    requires
        0 <= i < s.len(),
        forall|j: int| 0 <= j < i ==> s[j] != 0,
        s[i] == 0,
    ensures
        take_cstring(s) == Some((s.subrange(0, i), i + 1)),
    decreases i,
{
    if i == 0 {
        assert(s.subrange(0, 0) =~= Seq::<u8>::empty());
    } else {
        let t = s.drop_first();
        assert(forall|j: int| 0 <= j < i - 1 ==> t[j] != 0);
        lemma_take_cstring_at(t, i - 1);
        assert(seq![s[0]] + t.subrange(0, i - 1) =~= s.subrange(0, i));
    }
}

proof fn lemma_take_cstring_none(s: Seq<u8>)
    requires
        forall|j: int| 0 <= j < s.len() ==> s[j] != 0,
    ensures
        take_cstring(s) is None,
    decreases s.len(),
{
    if s.len() > 0 {
        lemma_take_cstring_none(s.drop_first());
    }
}

/// Read a null-terminated string; each byte is one character.
fn read_cstring(stream: &mut ByteStream) -> (r: Result<Vec<char>, Error>)
    requires
        old(stream).wf(),
    ensures
        final(stream).wf(),
        final(stream).data == old(stream).data,
        match r {
            Ok(v) => {
                &&& take_cstring(old(stream).remaining()) matches Some(p) && v@ == bytes_as_chars(
                    p.0,
                ) && final(stream).pos == old(stream).pos + p.1
            },
            Err(e) => {
                &&& e is InvalidBinaryLogs
                &&& take_cstring(old(stream).remaining()) is None
            },
        },
        final(stream).pos >= old(stream).pos,
{
    let start = stream.pos;
    let len = stream.data.len();
    let mut v: Vec<char> = Vec::new();
    loop
        invariant
            stream.wf(),
            stream.data == old(stream).data,
            len == stream.data@.len(),
            old(stream).pos <= stream.pos <= len,
            start == old(stream).pos,
            v@ =~= bytes_as_chars(
                stream.data@.subrange(start as int, stream.pos as int),
            ),
            forall|j: int| start <= j < stream.pos ==> stream.data@[j] != 0,
        decreases len - stream.pos,
    {
        match stream.read_byte() {
            None => {
                proof {
                    assert(forall|j: int|
                        0 <= j < old(stream).remaining().len() ==> old(stream).remaining()[j]
                            != 0);
                    lemma_take_cstring_none(old(stream).remaining());
                }
                return Err(
                    Error::InvalidBinaryLogs(
                        String::from_str("Unterminated string"),
                        stream.offset(),
                    ),
                );
            },
            Some(b) => {
                if b == 0 {
                    proof {
                        let rem = old(stream).remaining();
                        let i = stream.pos - 1 - start;
                        assert(rem[i] == 0);
                        assert(forall|j: int| 0 <= j < i ==> rem[j] != 0);
                        lemma_take_cstring_at(rem, i);
                        assert(v@ =~= bytes_as_chars(rem.subrange(0, i)));
                    }
                    return Ok(v);
                }
                v.push(b as char);
                assert(v@ =~= bytes_as_chars(
                    stream.data@.subrange(start as int, stream.pos as int),
                ));
            },
        }
    }
}

// ---------------------------------------------------------------------------
// the decoder state
// ---------------------------------------------------------------------------

/// The view of the token table: each token's text.
pub open spec fn tokens_view(v: Seq<Vec<char>>) -> Seq<Seq<char>> {
    v.map(|i: int, t: Vec<char>| t@)
}

/// The view of the object dictionary: id and text, in insertion order.
pub open spec fn objects_view(v: Seq<(u64, Vec<char>)>) -> Seq<(u64, Seq<char>)> {
    v.map(|i: int, p: (u64, Vec<char>)| (p.0, p.1@))
}

/// The text an object id means: its first (and only) binding.
pub open spec fn object_text(objs: Seq<(u64, Seq<char>)>, id: u64) -> Option<Seq<char>>
    decreases objs.len(),
{
    if objs.len() == 0 {
        None
    } else if objs[0].0 == id {
        Some(objs[0].1)
    } else {
        object_text(objs.drop_first(), id)
    }
}

/// What reading a tokenized string from the front of `s` yields against a
/// token table: the text, the table afterwards, and the bytes consumed.
/// An id below the table size replays; the size itself interns the
/// null-terminated text that follows; anything above is an error.
pub open spec fn spec_token_read(tokens: Seq<Seq<char>>, s: Seq<u8>) -> Option<
    (Seq<char>, Seq<Seq<char>>, int),
> {
    match take_varint(s, 10) {
        None => None,
        Some(p) => {
            let id = varint_u64(p.0) as int;
            if id < tokens.len() {
                Some((tokens[id], tokens, p.1))
            } else if id == tokens.len() {
                match take_cstring(s.skip(p.1)) {
                    None => None,
                    Some(q) => Some(
                        (bytes_as_chars(q.0), tokens.push(bytes_as_chars(q.0)), p.1 + q.1),
                    ),
                }
            } else {
                None
            }
        },
    }
}

/// What reading an object reference from the front of `s` yields against
/// the dictionary: the optional text, the dictionary afterwards, and the
/// bytes consumed. Id zero is no object; a known id replays; a fresh one
/// interns the null-terminated text that follows.
pub open spec fn spec_object_read(objects: Seq<(u64, Seq<char>)>, s: Seq<u8>) -> Option<
    (Option<Seq<char>>, Seq<(u64, Seq<char>)>, int),
> {
    match take_varint(s, 10) {
        None => None,
        Some(p) => {
            let id = varint_u64(p.0);
            if id == 0 {
                Some((None, objects, p.1))
            } else {
                match object_text(objects, id) {
                    Some(t) => Some((Some(t), objects, p.1)),
                    None => match take_cstring(s.skip(p.1)) {
                        None => None,
                        Some(q) => Some(
                            (
                                Some(bytes_as_chars(q.0)),
                                objects.push((id, bytes_as_chars(q.0))),
                                p.1 + q.1,
                            ),
                        ),
                    },
                }
            }
        },
    }
}

pub open spec fn object_ids_unique(objs: Seq<(u64, Seq<char>)>) -> bool {
    forall|i: int, j: int|
        0 <= i < j < objs.len() ==> (#[trigger] objs[i]).0 != (#[trigger] objs[j]).0
}

/// One piece of a decoded message: text, or the raw bits of an IEEE-754
/// double that a float conversion read. Rendering doubles takes floating
/// point, which this crate does not hold, so their text is spliced in by
/// the caller.
pub enum MessagePiece {
    Text(Vec<char>),
    Double(u64),
}

/// One decoded log entry.
pub struct DecodedEntry {
    pub timestamp: DateTime,
    pub domain: Vec<char>,
    pub level: Vec<char>,
    pub object: Option<Vec<char>>,
    pub pieces: Vec<MessagePiece>,
}


// ---------------------------------------------------------------------------
// the format replay, as a function of the format text and the stream
// ---------------------------------------------------------------------------

/// One atom of a replayed message: a character, or the raw bits of a
/// double whose text the caller supplies.
pub enum MsgAtom {
    Ch(char),
    Dbl(u64),
}

/// The one-character atom sequence.
pub open spec fn ch_atom(c: char) -> Seq<MsgAtom> {
    seq![MsgAtom::Ch(c)]
}

pub open spec fn atoms_of(s: Seq<char>) -> Seq<MsgAtom>
    decreases s.len(),
{
    if s.len() == 0 {
        Seq::empty()
    } else {
        seq![MsgAtom::Ch(s[0])] + atoms_of(s.drop_first())
    }
}

/// The pieces of a message, flattened to atoms: grouping into text runs
/// carries no information.
pub open spec fn flatten_pieces(ps: Seq<MessagePiece>) -> Seq<MsgAtom>
    decreases ps.len(),
{
    if ps.len() == 0 {
        Seq::empty()
    } else {
        (match ps[0] {
            MessagePiece::Text(t) => atoms_of(t@),
            MessagePiece::Double(b) => seq![MsgAtom::Dbl(b)],
        }) + flatten_pieces(ps.drop_first())
    }
}

proof fn lemma_flatten_snoc(ps: Seq<MessagePiece>, p: MessagePiece)
    ensures
        flatten_pieces(ps.push(p)) == flatten_pieces(ps) + (match p {
            MessagePiece::Text(t) => atoms_of(t@),
            MessagePiece::Double(b) => seq![MsgAtom::Dbl(b)],
        }),
    decreases ps.len(),
{
    let snoc = ps.push(p);
    let ghost contribution = (match p {
        MessagePiece::Text(t) => atoms_of(t@),
        MessagePiece::Double(b) => seq![MsgAtom::Dbl(b)],
    });
    assert(snoc.len() > 0);
    assert(flatten_pieces(snoc) == (match snoc[0] {
        MessagePiece::Text(t) => atoms_of(t@),
        MessagePiece::Double(b) => seq![MsgAtom::Dbl(b)],
    }) + flatten_pieces(snoc.drop_first()));
    if ps.len() == 0 {
        assert(snoc.drop_first() =~= Seq::<MessagePiece>::empty());
        assert(snoc[0] == p);
        assert(flatten_pieces(snoc.drop_first()) == Seq::<MsgAtom>::empty());
        assert(flatten_pieces(ps) == Seq::<MsgAtom>::empty());
        assert(flatten_pieces(snoc) =~= flatten_pieces(ps) + contribution);
    } else {
        lemma_flatten_snoc(ps.drop_first(), p);
        assert(snoc.drop_first() =~= ps.drop_first().push(p));
        assert(snoc[0] == ps[0]);
        assert(flatten_pieces(ps) == (match ps[0] {
            MessagePiece::Text(t) => atoms_of(t@),
            MessagePiece::Double(b) => seq![MsgAtom::Dbl(b)],
        }) + flatten_pieces(ps.drop_first()));
        assert(flatten_pieces(snoc) =~= flatten_pieces(ps) + contribution);
    }
}

/// One unfolding of `atoms_of` on a non-empty sequence. (Stated with the
/// head character as a parameter: the constructor application needs it.)
proof fn lemma_atoms_unfold(a: Seq<char>, c: char)
    requires
        a.len() > 0,
        a[0] == c,
    ensures
        atoms_of(a) == seq![MsgAtom::Ch(c)] + atoms_of(a.drop_first()),
{
    assert(atoms_of(a) == seq![MsgAtom::Ch(c)] + atoms_of(a.drop_first()));
}

proof fn lemma_atoms_concat(a: Seq<char>, b: Seq<char>)
    ensures
        atoms_of(a + b) == atoms_of(a) + atoms_of(b),
    decreases a.len(),
{
    if a.len() == 0 {
        assert(a + b =~= b);
        assert(atoms_of(a) + atoms_of(b) =~= atoms_of(b));
        assert(atoms_of(a + b) == atoms_of(a) + atoms_of(b));
    } else {
        lemma_atoms_concat(a.drop_first(), b);
        lemma_atoms_concat_step(a, b, a[0]);
    }
}

/// The inductive step of `lemma_atoms_concat`, with the head character as
/// a parameter.
proof fn lemma_atoms_concat_step(a: Seq<char>, b: Seq<char>, c: char)
    requires
        a.len() > 0,
        a[0] == c,
        atoms_of(a.drop_first() + b) == atoms_of(a.drop_first()) + atoms_of(b),
    ensures
        atoms_of(a + b) == atoms_of(a) + atoms_of(b),
{
    assert((a + b).len() > 0);
    assert((a + b)[0] == c);
    assert((a + b).drop_first() =~= a.drop_first() + b);
    assert(atoms_of(a + b) == seq![MsgAtom::Ch(c)] + atoms_of((a + b).drop_first()));
    assert(atoms_of(a) == seq![MsgAtom::Ch(c)] + atoms_of(a.drop_first()));
    assert(seq![MsgAtom::Ch(c)] + (atoms_of(a.drop_first()) + atoms_of(b)) =~= (seq![
        MsgAtom::Ch(c),
    ] + atoms_of(a.drop_first())) + atoms_of(b));
    assert(atoms_of(a + b) == atoms_of(a) + atoms_of(b));
}

proof fn lemma_atoms_snoc(s: Seq<char>, c: char)
    ensures
        atoms_of(s.push(c)) == atoms_of(s) + seq![MsgAtom::Ch(c)],
{
    assert(s.push(c) =~= s + seq![c]);
    lemma_atoms_concat(s, seq![c]);
    lemma_atoms_unfold(seq![c], c);
    assert(seq![c].drop_first() =~= Seq::<char>::empty());
    assert(atoms_of(Seq::<char>::empty()) == Seq::<MsgAtom>::empty());
    assert(seq![MsgAtom::Ch(c)] + Seq::<MsgAtom>::empty() =~= seq![MsgAtom::Ch(c)]);
}

/// Concatenation of sequences is associative.
proof fn lemma_add_assoc<A>(x: Seq<A>, y: Seq<A>, z: Seq<A>)
    ensures
        (x + y) + z == x + (y + z),
{
    assert((x + y) + z =~= x + (y + z));
}

/// Pushing one character onto the pending text run extends the running
/// accumulator by that character's atom.
proof fn lemma_acc_push(
    ps: Seq<MessagePiece>,
    t: Seq<char>,
    t2: Seq<char>,
    c: char,
    acc: Seq<MsgAtom>,
    acc2: Seq<MsgAtom>,
)
    requires
        t2 == t.push(c),
        acc == flatten_pieces(ps) + atoms_of(t),
        acc2 == acc + ch_atom(c),
    ensures
        flatten_pieces(ps) + atoms_of(t2) == acc2,
{
    lemma_atoms_snoc(t, c);
    assert(ch_atom(c) == seq![MsgAtom::Ch(c)]);
    lemma_add_assoc(flatten_pieces(ps), atoms_of(t), seq![MsgAtom::Ch(c)]);
}

/// Appending '0', 'x' and hex digits produces the atoms of the joined
/// text: used by the pointer conversion.
proof fn lemma_p_atoms(t: Seq<char>, d: Seq<char>, f0: Seq<MsgAtom>)
    ensures
        f0 + atoms_of(t.push('0').push('x') + d) == f0 + atoms_of(t) + atoms_of(
            seq!['0', 'x'] + d,
        ),
{
    lemma_atoms_snoc(t, '0');
    lemma_atoms_snoc(t.push('0'), 'x');
    lemma_atoms_concat(t.push('0').push('x'), d);
    lemma_atoms_concat(seq!['0', 'x'], d);
    lemma_atoms_unfold(seq!['0', 'x'], '0');
    assert(seq!['0', 'x'].drop_first() =~= seq!['x']);
    lemma_atoms_unfold(seq!['x'], 'x');
    assert(seq!['x'].drop_first() =~= Seq::<char>::empty());
    assert(atoms_of(Seq::<char>::empty()) == Seq::<MsgAtom>::empty());
    assert(f0 + (((atoms_of(t) + seq![MsgAtom::Ch('0')]) + seq![MsgAtom::Ch('x')]) + atoms_of(d))
        =~= (f0 + atoms_of(t)) + ((seq![MsgAtom::Ch('0')] + (seq![MsgAtom::Ch('x')] + (atoms_of(d)
        + Seq::<MsgAtom>::empty())))) + Seq::<MsgAtom>::empty());
    assert(f0 + atoms_of(t.push('0').push('x') + d) =~= f0 + atoms_of(t) + atoms_of(
        seq!['0', 'x'] + d,
    ));
}

/// The printf flag characters the conversion grammar skips.
pub open spec fn is_flag_char(c: char) -> bool {
    c == '#' || c == '0' || c == '-' || c == ' ' || c == '+' || c == '\''
}

/// The length-modifier characters the conversion grammar skips.
pub open spec fn is_len_char(c: char) -> bool {
    c == 'h' || c == 'l' || c == 'j' || c == 't' || c == 'z' || c == 'q'
}

pub open spec fn scan_flags(fmt: Seq<char>, i: int) -> int
    decreases fmt.len() - i,
{
    if i < 0 || i >= fmt.len() || !is_flag_char(fmt[i]) {
        i
    } else {
        scan_flags(fmt, i + 1)
    }
}

pub open spec fn scan_digits(fmt: Seq<char>, i: int) -> int
    decreases fmt.len() - i,
{
    if i < 0 || i >= fmt.len() || !crate::text::is_dec_digit(fmt[i]) {
        i
    } else {
        scan_digits(fmt, i + 1)
    }
}

pub open spec fn scan_lens(fmt: Seq<char>, i: int) -> int
    decreases fmt.len() - i,
{
    if i < 0 || i >= fmt.len() || !is_len_char(fmt[i]) {
        i
    } else {
        scan_lens(fmt, i + 1)
    }
}

proof fn lemma_scan_bounds(fmt: Seq<char>, i: int)
    requires
        0 <= i <= fmt.len(),
    ensures
        i <= scan_flags(fmt, i) <= fmt.len(),
        i <= scan_digits(fmt, i) <= fmt.len(),
        i <= scan_lens(fmt, i) <= fmt.len(),
    decreases fmt.len() - i,
{
    if i < fmt.len() {
        lemma_scan_bounds(fmt, i + 1);
    }
}

/// The conversion grammar after a `%`: an optional leading minus, flags,
/// width digits, an optional precision (a dot then a star or digits),
/// length modifiers. Yields the minus flag, the consume-length marker,
/// and the position of the specifier character.
pub open spec fn conv_scan(fmt: Seq<char>, i: int) -> (bool, bool, int) {
    let minus = 0 <= i < fmt.len() && fmt[i] == '-';
    let i1 = if minus {
        i + 1
    } else {
        i
    };
    let i2 = scan_digits(fmt, scan_flags(fmt, i1));
    let dotted = if 0 <= i2 < fmt.len() && fmt[i2] == '.' {
        if i2 + 1 < fmt.len() && fmt[i2 + 1] == '*' {
            (true, i2 + 2)
        } else {
            (false, scan_digits(fmt, i2 + 1))
        }
    } else {
        (false, i2)
    };
    (minus, dotted.0, scan_lens(fmt, dotted.1))
}

proof fn lemma_conv_scan_bounds(fmt: Seq<char>, i: int)
    requires
        0 <= i <= fmt.len(),
    ensures
        i <= conv_scan(fmt, i).2 <= fmt.len(),
{
    let minus = 0 <= i < fmt.len() && fmt[i] == '-';
    let i1 = if minus {
        i + 1
    } else {
        i
    };
    lemma_scan_bounds(fmt, i1);
    lemma_scan_bounds(fmt, scan_flags(fmt, i1));
    let i2 = scan_digits(fmt, scan_flags(fmt, i1));
    if 0 <= i2 < fmt.len() && fmt[i2] == '.' {
        if i2 + 1 < fmt.len() && fmt[i2 + 1] == '*' {
            lemma_scan_bounds(fmt, i2 + 2);
        } else {
            lemma_scan_bounds(fmt, i2 + 1);
            lemma_scan_bounds(fmt, scan_digits(fmt, i2 + 1));
        }
    } else {
        lemma_scan_bounds(fmt, i2);
    }
}

/// The low byte of a sign-and-magnitude integer, as two's complement.
pub open spec fn signed_low_byte(negative: bool, magnitude: u64) -> u8 {
    if negative {
        (((256 - magnitude % 256) % 256) as u8)
    } else {
        ((magnitude % 256) as u8)
    }
}

/// The hexadecimal text of a run of bytes, two lowercase digits each.
pub open spec fn hex_chars(b: Seq<u8>) -> Seq<char>
    decreases b.len(),
{
    if b.len() == 0 {
        Seq::empty()
    } else {
        crate::text::hex_padded(b[0] as nat, 2) + hex_chars(b.drop_first())
    }
}

/// What one conversion consumes and produces: its atoms, the token table
/// afterwards, and the bytes taken from the stream. Nothing when the
/// specifier is unknown or its argument bytes are missing or malformed.
#[verifier::opaque]
pub open spec fn spec_conv_arm(
    c: char,
    minus: bool,
    dotstar: bool,
    ptr: u8,
    tokens: Seq<Seq<char>>,
    s: Seq<u8>,
) -> Option<(Seq<MsgAtom>, Seq<Seq<char>>, int)> {
    if c == 'c' || c == 'd' || c == 'i' {
        if s.len() < 1 {
            None
        } else {
            match take_varint(s.skip(1), 10) {
                None => None,
                Some(p) => {
                    let negative = s[0] > 0;
                    let mag = varint_u64(p.0);
                    if mag > 0x7fffffffffffffff {
                        None
                    } else {
                        let value: int = if negative {
                            -(mag as int)
                        } else {
                            mag as int
                        };
                        let atoms = if c == 'c' {
                            seq![MsgAtom::Ch(signed_low_byte(negative, mag) as char)]
                        } else {
                            atoms_of(crate::text::dec_int(value))
                        };
                        Some((atoms, tokens, 1 + p.1))
                    }
                },
            }
        }
    } else if c == 'x' || c == 'X' {
        match take_varint(s, 10) {
            None => None,
            Some(p) => Some(
                (atoms_of(crate::text::hex_padded(varint_u64(p.0) as nat, 2)), tokens, p.1),
            ),
        }
    } else if c == 'u' {
        match take_varint(s, 10) {
            None => None,
            Some(p) => Some((atoms_of(crate::text::dec_digits(varint_u64(p.0) as nat)), tokens, p.1)),
        }
    } else if c == 'e' || c == 'E' || c == 'f' || c == 'F' || c == 'g' || c == 'G' || c == 'a'
        || c == 'A' {
        if s.len() < 8 {
            None
        } else {
            Some(
                (
                    seq![MsgAtom::Dbl(vstd::bytes::spec_u64_from_le_bytes(s.subrange(0, 8)))],
                    tokens,
                    8,
                ),
            )
        }
    } else if (c == '@' || c == 's') && minus && !dotstar {
        match spec_token_read(tokens, s) {
            None => None,
            Some(t) => Some((atoms_of(t.0), t.1, t.2)),
        }
    } else if c == '@' || c == 's' {
        match take_varint(s, 10) {
            None => None,
            Some(p) => {
                let len = varint_u64(p.0);
                if len > usize::MAX as u64 || s.skip(p.1).len() < len {
                    None
                } else {
                    let bytes = s.skip(p.1).subrange(0, len as int);
                    let atoms = if minus {
                        atoms_of(hex_chars(bytes))
                    } else {
                        atoms_of(bytes_as_chars(bytes))
                    };
                    Some((atoms, tokens, p.1 + len))
                }
            },
        }
    } else if c == 'p' && ptr == 8 {
        if s.len() < 8 {
            None
        } else {
            Some(
                (
                    atoms_of(
                        seq!['0', 'x'] + crate::text::hex_padded(
                            vstd::bytes::spec_u64_from_le_bytes(s.subrange(0, 8)) as nat,
                            16,
                        ),
                    ),
                    tokens,
                    8,
                ),
            )
        }
    } else if c == 'p' && ptr == 4 {
        if s.len() < 4 {
            None
        } else {
            Some(
                (
                    atoms_of(
                        seq!['0', 'x'] + crate::text::hex_padded(
                            vstd::bytes::spec_u32_from_le_bytes(s.subrange(0, 4)) as nat,
                            8,
                        ),
                    ),
                    tokens,
                    4,
                ),
            )
        }
    } else if c == '%' {
        Some((seq![MsgAtom::Ch('%')], tokens, 0))
    } else {
        None
    }
}

/// The whole format replay from position `i`: literal characters copy
/// through, a NUL ends the message, and each `%` conversion consumes its
/// argument bytes. Yields the atoms, the token table afterwards, and the
/// bytes consumed; nothing on a malformed format or stream.
pub open spec fn spec_replay(
    fmt: Seq<char>,
    i: int,
    ptr: u8,
    tokens: Seq<Seq<char>>,
    s: Seq<u8>,
) -> Option<(Seq<MsgAtom>, Seq<Seq<char>>, int)>
    decreases fmt.len() - i,
    via spec_replay_dec
{
    if i < 0 || i >= fmt.len() || fmt[i] == '\u{0}' {
        Some((Seq::empty(), tokens, 0))
    } else if fmt[i] != '%' {
        match spec_replay(fmt, i + 1, ptr, tokens, s) {
            None => None,
            Some(r) => Some((seq![MsgAtom::Ch(fmt[i])] + r.0, r.1, r.2)),
        }
    } else if i + 1 >= fmt.len() {
        None
    } else {
        let conv = conv_scan(fmt, i + 1);
        let j = conv.2;
        if j >= fmt.len() {
            None
        } else {
            match spec_conv_arm(fmt[j], conv.0, conv.1, ptr, tokens, s) {
                None => None,
                Some(arm) => match spec_replay(fmt, j + 1, ptr, arm.1, s.skip(arm.2)) {
                    None => None,
                    Some(r) => Some((arm.0 + r.0, r.1, arm.2 + r.2)),
                },
            }
        }
    }
}

#[via_fn]
proof fn spec_replay_dec(fmt: Seq<char>, i: int, ptr: u8, tokens: Seq<Seq<char>>, s: Seq<u8>) {
    if 0 <= i < fmt.len() && fmt[i] == '%' && i + 1 < fmt.len() {
        lemma_conv_scan_bounds(fmt, i + 1);
    }
}

pub struct Decoder {
    pub stream: ByteStream,
    pub pointer_size: u8,
    pub start_micros: u64,
    pub elapsed_ticks: u64,
    pub tokens: Vec<Vec<char>>,
    pub objects: Vec<(u64, Vec<char>)>,
}

impl Decoder {
    pub open spec fn wf(self) -> bool {
        &&& self.stream.wf()
        &&& (self.pointer_size == 4 || self.pointer_size == 8)
        &&& object_ids_unique(objects_view(self.objects@))
        &&& forall|i: int| 0 <= i < self.objects@.len() ==> (#[trigger] self.objects@[i]).0 != 0
    }

    /// The header accepted: magic, format version 1, pointer size 4 or 8,
    /// then a varint start time in epoch seconds that the supported
    /// calendar range can hold.
    pub fn new(data: Vec<u8>) -> (r: Result<Decoder, Error>)
        ensures
            r is Ok <==> header_well_formed(data@),
            match r {
                Ok(d) => {
                    &&& d.wf()
                    &&& d.pointer_size == data@[5]
                    &&& d.start_micros == header_start_micros(data@)
                    &&& d.tokens@.len() == 0
                    &&& d.objects@.len() == 0
                    &&& d.elapsed_ticks == 0
                    &&& d.stream.data@ == data@
                    &&& d.stream.pos == 6 + (take_varint(data@.skip(6), 10)->0).1
                },
                Err(e) => e is InvalidBinaryLogs,
            },
            // a wrong format version alone is rejected, at offset zero
            (data@.len() >= 6 && data@.subrange(0, 4) == magic_bytes() && data@[4]
                != format_version()) ==> (r matches Err(Error::InvalidBinaryLogs(_, off)) && off
                == 0),
    {
        let mut stream = ByteStream::new(data);
        let header = match stream.read_chunk(6) {
            Some(h) => h,
            None => {
                return Err(Error::InvalidBinaryLogs(String::from_str("Invalid header"), 0));
            },
        };
        let magic_ok = header[0] == 0xcf && header[1] == 0xb2 && header[2] == 0xab && header[3]
            == 0x1b;
        proof {
            assert(header@[0] == stream.data@[0]);
            assert(header@[1] == stream.data@[1]);
            assert(header@[2] == stream.data@[2]);
            assert(header@[3] == stream.data@[3]);
            assert(header@[4] == stream.data@[4]);
            assert(header@[5] == stream.data@[5]);
            if magic_ok {
                assert(stream.data@.subrange(0, 4) =~= magic_bytes());
            } else {
                if stream.data@.subrange(0, 4) == magic_bytes() {
                    assert(stream.data@.subrange(0, 4)[0] == stream.data@[0]);
                    assert(stream.data@.subrange(0, 4)[1] == stream.data@[1]);
                    assert(stream.data@.subrange(0, 4)[2] == stream.data@[2]);
                    assert(stream.data@.subrange(0, 4)[3] == stream.data@[3]);
                    assert(false);
                }
            }
        }
        if !magic_ok {
            return Err(Error::InvalidBinaryLogs(String::from_str("Invalid header"), 0));
        }
        if header[4] != 1 {
            return Err(
                Error::InvalidBinaryLogs(String::from_str("Unsupported format version"), 0),
            );
        }
        let pointer_size = header[5];
        if pointer_size != 4 && pointer_size != 8 {
            return Err(Error::InvalidBinaryLogs(String::from_str("Invalid header"), 0));
        }
        proof {
            assert(stream.remaining() =~= stream.data@.skip(6));
        }
        let start_seconds = match crate::varint::read(&mut stream) {
            Ok(v) => v,
            Err(_) => {
                return Err(
                    Error::InvalidBinaryLogs(
                        String::from_str("Invalid timestamp in header"),
                        stream.offset(),
                    ),
                );
            },
        };
        let limit = epoch_micros_limit_value();
        proof {
            // the limit is a whole number of seconds, so comparing seconds
            // against `limit / 1000000` is comparing microseconds against it
            crate::datetime::lemma_days_to_year_bounds(10000);
            let dl = crate::datetime::day_limit();
            assert(limit == (dl * 86400) * 1000000) by (nonlinear_arith)
                requires
                    limit == dl * 86400000000,
            ;
            vstd::arithmetic::div_mod::lemma_div_multiples_vanish(dl * 86400, 1000000);
            assert(limit / 1000000 == dl * 86400);
        }
        if start_seconds >= limit / 1000000 {
            proof {
                assert(start_seconds * 1000000 >= limit) by (nonlinear_arith)
                    requires
                        start_seconds >= limit / 1000000,
                        limit == (limit / 1000000) * 1000000,
                ;
            }
            return Err(
                Error::InvalidBinaryLogs(
                    String::from_str("Invalid timestamp in header"),
                    stream.offset(),
                ),
            );
        }
        assert(start_seconds * 1000000 < limit) by (nonlinear_arith)
            requires
                start_seconds < limit / 1000000,
                limit == (limit / 1000000) * 1000000,
        ;
        Ok(
            Decoder {
                stream,
                pointer_size,
                start_micros: start_seconds * 1000000,
                elapsed_ticks: 0,
                tokens: Vec::new(),
                objects: Vec::new(),
            },
        )
    }

    fn err_here(&self, msg: &str) -> (r: Error)
        ensures
            r is InvalidBinaryLogs,
    {
        Error::InvalidBinaryLogs(String::from_str(msg), self.stream.offset())
    }

    /// Read a tokenized string: a varint id below the table size replays
    /// that token; the table size itself interns the text that follows;
    /// anything above is a protocol error. The table only grows.
    fn read_tokenized(&mut self) -> (r: Result<Vec<char>, Error>)
        requires
            old(self).wf(),
        ensures
            final(self).wf(),
            final(self).stream.data == old(self).stream.data,
            final(self).objects == old(self).objects,
            final(self).pointer_size == old(self).pointer_size,
            final(self).start_micros == old(self).start_micros,
            final(self).elapsed_ticks == old(self).elapsed_ticks,
            match r {
                Ok(v) => {
                    &&& take_varint(old(self).stream.remaining(), 10) matches Some(p)
                    &&& {
                        let id = varint_u64(p.0);
                        if id < old(self).tokens@.len() {
                            &&& v@ == old(self).tokens@[id as int]@
                            &&& final(self).tokens == old(self).tokens
                            &&& final(self).stream.pos == old(self).stream.pos + p.1
                        } else {
                            &&& id == old(self).tokens@.len()
                            &&& take_cstring(
                                old(self).stream.remaining().skip(p.1),
                            ) matches Some(q)
                            &&& v@ == bytes_as_chars(q.0)
                            &&& tokens_view(final(self).tokens@) == tokens_view(
                                old(self).tokens@,
                            ).push(v@)
                            &&& final(self).stream.pos == old(self).stream.pos + p.1 + q.1
                        }
                    }
                },
                Err(e) => e is InvalidBinaryLogs || e is InvalidVarint,
            },
            // the token table only grows, and what it held it keeps
            tokens_view(old(self).tokens@).is_prefix_of(tokens_view(final(self).tokens@)),
            final(self).stream.pos >= old(self).stream.pos,
            // the whole read, as the tokenized-string protocol
            match r {
                Ok(v) => spec_token_read(tokens_view(old(self).tokens@), old(self).stream.remaining())
                    == Some(
                    (v@, tokens_view(final(self).tokens@), final(self).stream.pos - old(self).stream.pos),
                ),
                Err(_) => spec_token_read(
                    tokens_view(old(self).tokens@),
                    old(self).stream.remaining(),
                ) is None,
            },
    {
        proof {
            assert(tokens_view(old(self).tokens@).is_prefix_of(tokens_view(old(self).tokens@)));
        }
        let ghost rem0 = old(self).stream.remaining();
        let id = match crate::varint::read(&mut self.stream) {
            Ok(v) => v,
            Err(_) => {
                assert(spec_token_read(tokens_view(old(self).tokens@), rem0) is None);
                return Err(self.err_here("Invalid varint"));
            },
        };
        proof {
            crate::varint::lemma_take_varint_len(old(self).stream.remaining(), 10);
        }
        let n = self.tokens.len();
        if id < n as u64 {
            let t = &self.tokens[id as usize];
            let mut v: Vec<char> = Vec::new();
            let mut i: usize = 0;
            while i < t.len()
                invariant
                    i <= t@.len(),
                    t@ == self.tokens@[id as int]@,
                    id < self.tokens@.len(),
                    v@ =~= t@.subrange(0, i as int),
                decreases t@.len() - i,
            {
                v.push(t[i]);
                assert(v@ =~= t@.subrange(0, i + 1 as int));
                i = i + 1;
            }
            assert(v@ =~= self.tokens@[id as int]@);
            proof {
                assert(spec_token_read(tokens_view(old(self).tokens@), rem0) == Some(
                    (v@, tokens_view(self.tokens@), self.stream.pos - old(self).stream.pos),
                ));
            }
            Ok(v)
        } else if id == n as u64 {
            let ghost mid = self.stream;
            proof {
                crate::varint::lemma_take_varint_len(rem0, 10);
                assert(mid.remaining() =~= rem0.skip((take_varint(rem0, 10)->0).1));
            }
            let s = match read_cstring(&mut self.stream) {
                Ok(s) => s,
                Err(e) => {
                    assert(spec_token_read(tokens_view(old(self).tokens@), rem0) is None);
                    return Err(e);
                },
            };
            let mut copy: Vec<char> = Vec::new();
            let mut i: usize = 0;
            while i < s.len()
                invariant
                    i <= s@.len(),
                    copy@ =~= s@.subrange(0, i as int),
                decreases s@.len() - i,
            {
                copy.push(s[i]);
                assert(copy@ =~= s@.subrange(0, i + 1 as int));
                i = i + 1;
            }
            assert(copy@ =~= s@);
            self.tokens.push(copy);
            proof {
                crate::varint::lemma_take_varint_len(old(self).stream.remaining(), 10);
                assert(mid.remaining() =~= old(self).stream.remaining().skip(
                    (take_varint(old(self).stream.remaining(), 10)->0).1,
                ));
                assert(tokens_view(self.tokens@) =~= tokens_view(old(self).tokens@).push(s@));
                assert(tokens_view(old(self).tokens@).is_prefix_of(tokens_view(self.tokens@)));
                assert(spec_token_read(tokens_view(old(self).tokens@), rem0) == Some(
                    (s@, tokens_view(self.tokens@), self.stream.pos - old(self).stream.pos),
                ));
            }
            Ok(s)
        } else {
            assert(spec_token_read(tokens_view(old(self).tokens@), rem0) is None);
            Err(self.err_here("Invalid token string ID!"))
        }
    }

    /// Read an object reference: id zero is no object; a known id replays
    /// its text; a fresh id interns the string that follows. The dictionary
    /// only grows, and an id never changes its text.
    fn read_object(&mut self) -> (r: Result<Option<Vec<char>>, Error>)
        requires
            old(self).wf(),
        ensures
            final(self).wf(),
            final(self).stream.data == old(self).stream.data,
            final(self).tokens == old(self).tokens,
            final(self).pointer_size == old(self).pointer_size,
            final(self).start_micros == old(self).start_micros,
            final(self).elapsed_ticks == old(self).elapsed_ticks,
            match r {
                Ok(opt) => {
                    &&& take_varint(old(self).stream.remaining(), 10) matches Some(p)
                    &&& {
                        let id = varint_u64(p.0);
                        match opt {
                            None => {
                                &&& id == 0
                                &&& final(self).objects == old(self).objects
                                &&& final(self).stream.pos == old(self).stream.pos + p.1
                            },
                            Some(v) => {
                                &&& id != 0
                                &&& match object_text(objects_view(old(self).objects@), id) {
                                    Some(t) => v@ == t && final(self).objects == old(self).objects,
                                    None => objects_view(final(self).objects@) == objects_view(
                                        old(self).objects@,
                                    ).push((id, v@)),
                                }
                            },
                        }
                    }
                },
                Err(e) => e is InvalidBinaryLogs || e is InvalidVarint,
            },
            // the dictionary only grows
            objects_view(old(self).objects@).is_prefix_of(objects_view(final(self).objects@)),
            final(self).stream.pos >= old(self).stream.pos,
            // the whole read, as the object-reference protocol
            match r {
                Ok(opt) => spec_object_read(
                    objects_view(old(self).objects@),
                    old(self).stream.remaining(),
                ) == Some(
                    (
                        match opt {
                            Some(v) => Some(v@),
                            None => None,
                        },
                        objects_view(final(self).objects@),
                        final(self).stream.pos - old(self).stream.pos,
                    ),
                ),
                Err(_) => spec_object_read(
                    objects_view(old(self).objects@),
                    old(self).stream.remaining(),
                ) is None,
            },
    {
        proof {
            assert(objects_view(old(self).objects@).is_prefix_of(
                objects_view(old(self).objects@),
            ));
        }
        let ghost rem0 = old(self).stream.remaining();
        let id = match crate::varint::read(&mut self.stream) {
            Ok(v) => v,
            Err(_) => {
                assert(spec_object_read(objects_view(old(self).objects@), rem0) is None);
                return Err(self.err_here("Invalid varint"));
            },
        };
        proof {
            crate::varint::lemma_take_varint_len(old(self).stream.remaining(), 10);
        }
        if id == 0 {
            return Ok(None);
        }
        match self.lookup_object(id) {
            Some(v) => {
                proof {
                    assert(spec_object_read(objects_view(old(self).objects@), rem0) == Some(
                        (
                            Some(v@),
                            objects_view(self.objects@),
                            self.stream.pos - old(self).stream.pos,
                        ),
                    ));
                }
                Ok(Some(v))
            },
            None => {
                proof {
                    assert(self.stream.remaining() =~= rem0.skip((take_varint(rem0, 10)->0).1));
                }
                let s = match read_cstring(&mut self.stream) {
                    Ok(s) => s,
                    Err(e) => {
                        assert(spec_object_read(objects_view(old(self).objects@), rem0) is None);
                        return Err(e);
                    },
                };
                let mut copy: Vec<char> = Vec::new();
                let mut i: usize = 0;
                while i < s.len()
                    invariant
                        i <= s@.len(),
                        copy@ =~= s@.subrange(0, i as int),
                    decreases s@.len() - i,
                {
                    copy.push(s[i]);
                    assert(copy@ =~= s@.subrange(0, i + 1 as int));
                    i = i + 1;
                }
                assert(copy@ =~= s@);
                proof {
                    lemma_object_text_absent(objects_view(self.objects@), id);
                }
                self.objects.push((id, copy));
                proof {
                    assert(objects_view(self.objects@) =~= objects_view(old(self).objects@).push(
                        (id, s@),
                    ));
                    assert(objects_view(old(self).objects@).is_prefix_of(
                        objects_view(self.objects@),
                    ));
                    assert(object_ids_unique(objects_view(self.objects@))) by {
                        let ov = objects_view(self.objects@);
                        let old_ov = objects_view(old(self).objects@);
                        assert forall|i: int, j: int| 0 <= i < j < ov.len() implies (
                        #[trigger] ov[i]).0 != (#[trigger] ov[j]).0 by {
                            if j < old_ov.len() {
                            } else {
                                assert(ov[j] == (id, s@));
                                lemma_object_text_found(old_ov, i);
                            }
                        }
                    }
                }
                Ok(Some(s))
            },
        }
    }

    /// The text an object id is bound to, when it is.
    fn lookup_object(&self, id: u64) -> (r: Option<Vec<char>>)
        ensures
            match r {
                Some(v) => object_text(objects_view(self.objects@), id) == Some(v@),
                None => object_text(objects_view(self.objects@), id) is None,
            },
    {
        let mut i: usize = 0;
        assert(objects_view(self.objects@).skip(0) =~= objects_view(self.objects@));
        while i < self.objects.len()
            invariant
                i <= self.objects@.len(),
                object_text(objects_view(self.objects@), id) == object_text(
                    objects_view(self.objects@).skip(i as int),
                    id,
                ),
            decreases self.objects@.len() - i,
        {
            let ghost pre = objects_view(self.objects@).skip(i as int);
            if self.objects[i].0 == id {
                let t = &self.objects[i].1;
                let mut v: Vec<char> = Vec::new();
                let mut k: usize = 0;
                while k < t.len()
                    invariant
                        k <= t@.len(),
                        t@ == self.objects@[i as int].1@,
                        i < self.objects@.len(),
                        v@ =~= t@.subrange(0, k as int),
                    decreases t@.len() - k,
                {
                    v.push(t[k]);
                    assert(v@ =~= t@.subrange(0, k + 1 as int));
                    k = k + 1;
                }
                proof {
                    assert(pre[0] == (self.objects@[i as int].0, self.objects@[i as int].1@));
                    assert(v@ =~= self.objects@[i as int].1@);
                }
                return Some(v);
            }
            proof {
                assert(pre[0].0 != id);
                assert(pre.drop_first() =~= objects_view(self.objects@).skip(i + 1));
            }
            i = i + 1;
        }
        proof {
            assert(objects_view(self.objects@).skip(i as int).len() == 0);
        }
        None
    }

    /// Whether reading the next entry's timestamp must fail: the delta
    /// varint is missing, or the start time plus the new tick count leaves
    /// the supported calendar.
    pub open spec fn timestamp_read_fails(self) -> bool {
        match take_varint(self.stream.remaining(), 10) {
            None => true,
            Some(p) => self.start_micros + self.elapsed_ticks + varint_u64(p.0)
                >= crate::datetime::epoch_micros_limit(),
        }
    }

    /// Advance the elapsed tick counter by one varint delta and return the
    /// absolute timestamp: the start time plus the ticks, in microseconds.
    fn read_timestamp(&mut self) -> (r: Result<DateTime, Error>)
        requires
            old(self).wf(),
        ensures
            final(self).wf(),
            final(self).stream.data == old(self).stream.data,
            final(self).tokens == old(self).tokens,
            final(self).objects == old(self).objects,
            final(self).pointer_size == old(self).pointer_size,
            final(self).start_micros == old(self).start_micros,
            r is Err <==> old(self).timestamp_read_fails(),
            match r {
                Ok(dt) => {
                    &&& take_varint(old(self).stream.remaining(), 10) matches Some(p)
                    &&& final(self).elapsed_ticks == old(self).elapsed_ticks + varint_u64(p.0)
                    &&& final(self).stream.pos == old(self).stream.pos + p.1
                    &&& dt.wf()
                    &&& dt.epoch_micros() == old(self).start_micros + final(self).elapsed_ticks
                },
                Err(e) => e is InvalidBinaryLogs && final(self).elapsed_ticks == old(
                    self,
                ).elapsed_ticks,
            },
    {
        proof {
            // the calendar limit fits far inside a u64, so an overflowing
            // sum is out of range too
            crate::datetime::lemma_days_to_year_bounds(10000);
            let dl = crate::datetime::day_limit();
            assert(dl * 86400000000 <= 2938980 * 86400000000) by (nonlinear_arith)
                requires
                    dl <= 2938980,
            ;
        }
        let delta = match crate::varint::read(&mut self.stream) {
            Ok(v) => v,
            Err(_) => {
                return Err(self.err_here("Invalid varint"));
            },
        };
        proof {
            crate::varint::lemma_take_varint_len(old(self).stream.remaining(), 10);
        }
        let new_elapsed = match self.elapsed_ticks.checked_add(delta) {
            Some(v) => v,
            None => {
                return Err(self.err_here("Timestamp out of range"));
            },
        };
        let us = match self.start_micros.checked_add(new_elapsed) {
            Some(v) => v,
            None => {
                return Err(self.err_here("Timestamp out of range"));
            },
        };
        let limit = epoch_micros_limit_value();
        if us >= limit {
            return Err(self.err_here("Timestamp out of range"));
        }
        self.elapsed_ticks = new_elapsed;
        Ok(datetime_from_epoch_micros(us))
    }

    /// Read one entry, or nothing at the end of the stream. The token table
    /// and the object dictionary only grow; the entry's timestamp, level,
    /// domain and object follow the stream exactly.
    pub fn read_entry(&mut self) -> (r: Result<Option<DecodedEntry>, Error>)
        requires
            old(self).wf(),
        ensures
            final(self).wf(),
            final(self).stream.data == old(self).stream.data,
            final(self).pointer_size == old(self).pointer_size,
            final(self).start_micros == old(self).start_micros,
            tokens_view(old(self).tokens@).is_prefix_of(tokens_view(final(self).tokens@)),
            objects_view(old(self).objects@).is_prefix_of(objects_view(final(self).objects@)),
            // decoding ends cleanly exactly when the next timestamp cannot
            // be read
            (r matches Ok(None)) <==> old(self).timestamp_read_fails(),
            r matches Ok(Some(e)) ==> e.timestamp.wf() && final(self).stream.pos > old(
                self,
            ).stream.pos,
            r matches Ok(Some(e)) ==> e.timestamp.epoch_micros() == final(self).start_micros
                + final(self).elapsed_ticks && final(self).elapsed_ticks >= old(
                self,
            ).elapsed_ticks,
            r matches Ok(Some(e)) ==> {
                &&& take_varint(old(self).stream.remaining(), 10) matches Some(p)
                &&& e.timestamp.epoch_micros() == old(self).start_micros + old(
                    self,
                ).elapsed_ticks + varint_u64(p.0)
                &&& {
                    let rem1 = old(self).stream.remaining().skip(p.1);
                    &&& rem1.len() > 0
                    &&& e.level@ == level_name_spec(rem1[0])
                    &&& spec_token_read(tokens_view(old(self).tokens@), rem1.skip(1)) matches Some(
                        d,
                    )
                    &&& e.domain@ == d.0
                    &&& spec_object_read(
                        objects_view(old(self).objects@),
                        rem1.skip(1).skip(d.2),
                    ) matches Some(ob)
                    &&& (match e.object {
                        Some(v) => ob.0 == Some(v@),
                        None => ob.0 is None,
                    })
                    // the message: a tokenized format string replayed
                    // against the remaining argument bytes; afterwards the
                    // decoder stands exactly past it
                    &&& {
                        let rem2 = rem1.skip(1).skip(d.2).skip(ob.2);
                        &&& spec_token_read(d.1, rem2) matches Some(fm)
                        &&& spec_replay(
                            fm.0,
                            0,
                            old(self).pointer_size,
                            fm.1,
                            rem2.skip(fm.2),
                        ) matches Some(rp)
                        &&& flatten_pieces(e.pieces@) == rp.0
                        &&& tokens_view(final(self).tokens@) == rp.1
                        &&& objects_view(final(self).objects@) == ob.1
                        &&& final(self).stream.remaining() == rem2.skip(fm.2).skip(rp.2)
                        &&& final(self).elapsed_ticks == old(self).elapsed_ticks + varint_u64(p.0)
                    }
                }
            },
    {
        proof {
            lemma_prefix_refl(tokens_view(old(self).tokens@));
            lemma_prefix_refl(objects_view(old(self).objects@));
        }
        let ghost rem0 = old(self).stream.remaining();
        let timestamp = match self.read_timestamp() {
            Ok(t) => {
                proof {
                    crate::varint::lemma_take_varint_len(old(self).stream.remaining(), 10);
                }
                t
            },
            Err(_) => {
                return Ok(None);
            },
        };
        let ghost tp = take_varint(rem0, 10)->0;
        let ghost rem1 = rem0.skip(tp.1);
        proof {
            assert(self.stream.remaining() =~= rem1);
        }
        let level_byte = match self.stream.read_byte() {
            Some(b) => b,
            None => {
                return Err(self.err_here("Truncated entry"));
            },
        };
        let level = level_name_of(level_byte);
        proof {
            assert(self.stream.remaining() =~= rem1.skip(1));
        }
        let domain = match self.read_tokenized() {
            Ok(d) => d,
            Err(e) => {
                return Err(e);
            },
        };
        let ghost mid1 = *self;
        proof {
            let d = spec_token_read(tokens_view(old(self).tokens@), rem1.skip(1))->0;
            assert(mid1.stream.remaining() =~= rem1.skip(1).skip(d.2));
        }
        let object = match self.read_object() {
            Ok(o) => o,
            Err(e) => {
                return Err(e);
            },
        };
        let ghost mid2 = *self;
        proof {
            let d = spec_token_read(tokens_view(old(self).tokens@), rem1.skip(1))->0;
            let ob = spec_object_read(objects_view(mid1.objects@), rem1.skip(1).skip(d.2))->0;
            assert(mid2.stream.remaining() =~= rem1.skip(1).skip(d.2).skip(ob.2));
            assert(tokens_view(mid2.tokens@) == d.1);
        }
        let pieces = match self.read_message() {
            Ok(p) => p,
            Err(e) => {
                return Err(e);
            },
        };
        proof {
            lemma_prefix_trans(
                tokens_view(old(self).tokens@),
                tokens_view(mid2.tokens@),
                tokens_view(self.tokens@),
            );
            lemma_prefix_trans(
                objects_view(old(self).objects@),
                objects_view(mid1.objects@),
                objects_view(self.objects@),
            );
            let d = spec_token_read(tokens_view(old(self).tokens@), rem1.skip(1))->0;
            let ob = spec_object_read(objects_view(mid1.objects@), rem1.skip(1).skip(d.2))->0;
            let rem2 = rem1.skip(1).skip(d.2).skip(ob.2);
            let fm = spec_token_read(tokens_view(mid2.tokens@), mid2.stream.remaining())->0;
            let rp = spec_replay(
                fm.0,
                0,
                mid2.pointer_size,
                fm.1,
                mid2.stream.remaining().skip(fm.2),
            )->0;
            assert(mid2.stream.remaining().skip(fm.2) =~= rem2.skip(fm.2));
            assert(self.stream.remaining() =~= rem2.skip(fm.2).skip(rp.2));
        }
        Ok(Some(DecodedEntry { timestamp, domain, level, object, pieces }))
    }
    /// Apply one conversion against the stream: read its argument bytes
    /// and append its text (or its raw double bits) exactly as
    /// `spec_conv_arm` says.
    #[verifier::rlimit(100)]
    fn conv_apply(
        &mut self,
        c: char,
        is_minus: bool,
        is_dot_star: bool,
        text: &mut Vec<char>,
        pieces: &mut Vec<MessagePiece>,
    ) -> (r: Result<(), Error>)
        requires
            old(self).wf(),
        ensures
            final(self).wf(),
            final(self).stream.data == old(self).stream.data,
            final(self).pointer_size == old(self).pointer_size,
            final(self).start_micros == old(self).start_micros,
            final(self).elapsed_ticks == old(self).elapsed_ticks,
            final(self).objects == old(self).objects,
            tokens_view(old(self).tokens@).is_prefix_of(tokens_view(final(self).tokens@)),
            final(self).stream.pos >= old(self).stream.pos,
            match r {
                Ok(_) => {
                    &&& spec_conv_arm(
                        c,
                        is_minus,
                        is_dot_star,
                        old(self).pointer_size,
                        tokens_view(old(self).tokens@),
                        old(self).stream.remaining(),
                    ) matches Some(a)
                    &&& tokens_view(final(self).tokens@) == a.1
                    &&& final(self).stream.pos == old(self).stream.pos + a.2
                    // the appended output is exactly the arm's atoms
                    &&& flatten_pieces(final(pieces)@) + atoms_of(final(text)@) == flatten_pieces(
                        old(pieces)@,
                    ) + atoms_of(old(text)@) + a.0
                },
                Err(e) => spec_conv_arm(
                    c,
                    is_minus,
                    is_dot_star,
                    old(self).pointer_size,
                    tokens_view(old(self).tokens@),
                    old(self).stream.remaining(),
                ) is None && (e is InvalidBinaryLogs || e is InvalidVarint),
            },
    {
        proof {
            lemma_prefix_refl(tokens_view(old(self).tokens@));
            reveal(spec_conv_arm);
        }
        let ghost toks_h = tokens_view(old(self).tokens@);
        let ghost rem_h = old(self).stream.remaining();
        let ghost f0 = flatten_pieces(old(pieces)@);
        let ghost a0 = atoms_of(old(text)@);
        if c == 'c' || c == 'd' || c == 'i' {
            let sign = match self.stream.read_byte() {
                Some(b) => b,
                None => {
                    return Err(self.err_here("Truncated entry"));
                },
            };
            proof {
                assert(self.stream.remaining() =~= rem_h.skip(1));
            }
            let magnitude = match crate::varint::read(&mut self.stream) {
                Ok(v) => v,
                Err(_) => {
                    return Err(self.err_here("Invalid varint"));
                },
            };
            if magnitude > i64::MAX as u64 {
                return Err(self.err_here("Overflow in numeric parameter"));
            }
            let ghost consumed = 1 + (take_varint(rem_h.skip(1), 10)->0).1;
            let value: i64 = if sign > 0 {
                -(magnitude as i64)
            } else {
                magnitude as i64
            };
            if c == 'c' {
                let low: u8 = if sign > 0 {
                    ((256 - (magnitude % 256)) % 256) as u8
                } else {
                    (magnitude % 256) as u8
                };
                proof {
                    assert(low == signed_low_byte(sign > 0, magnitude));
                }
                text.push(low as char);
                proof {
                    lemma_atoms_snoc(old(text)@, low as char);
                    lemma_add_assoc(f0, a0, seq![MsgAtom::Ch(low as char)]);
                }
            } else {
                let mut digits = render_i64(value);
                let ghost d0 = digits@;
                text.append(&mut digits);
                proof {
                    assert(d0 == crate::text::dec_int(
                        if sign > 0 { -(magnitude as int) } else { magnitude as int },
                    ));
                    lemma_atoms_concat(old(text)@, d0);
                    lemma_add_assoc(f0, a0, atoms_of(d0));
                }
            }
            Ok(())
        } else if c == 'x' || c == 'X' {
            let value = match crate::varint::read(&mut self.stream) {
                Ok(v) => v,
                Err(_) => {
                    return Err(self.err_here("Invalid varint"));
                },
            };
            let mut digits = render_hex_padded(value, 2);
            let ghost d0 = digits@;
            text.append(&mut digits);
            proof {
                lemma_atoms_concat(old(text)@, d0);
                lemma_add_assoc(f0, a0, atoms_of(d0));
            }
            Ok(())
        } else if c == 'u' {
            let value = match crate::varint::read(&mut self.stream) {
                Ok(v) => v,
                Err(_) => {
                    return Err(self.err_here("Invalid varint"));
                },
            };
            let mut digits = render_u64(value);
            let ghost d0 = digits@;
            text.append(&mut digits);
            proof {
                lemma_atoms_concat(old(text)@, d0);
                lemma_add_assoc(f0, a0, atoms_of(d0));
            }
            Ok(())
        } else if c == 'e' || c == 'E' || c == 'f' || c == 'F' || c == 'g' || c == 'G' || c == 'a'
            || c == 'A' {
            let chunk = match self.stream.read_chunk(8) {
                Some(ch) => ch,
                None => {
                    return Err(self.err_here("Truncated entry"));
                },
            };
            let bits = vstd::bytes::u64_from_le_bytes(chunk.as_slice());
            proof {
                assert(chunk@ =~= rem_h.subrange(0, 8));
            }
            if text.len() > 0 {
                let done = copy_chars(text);
                text.clear();
                let ghost ps_mid = pieces@;
                pieces.push(MessagePiece::Text(done));
                proof {
                    lemma_flatten_snoc(ps_mid, MessagePiece::Text(done));
                }
            } else {
                proof {
                    assert(old(text)@ =~= Seq::<char>::empty());
                    assert(atoms_of(old(text)@) == Seq::<MsgAtom>::empty());
                }
            }
            let ghost ps_pre = pieces@;
            pieces.push(MessagePiece::Double(bits));
            proof {
                lemma_flatten_snoc(ps_pre, MessagePiece::Double(bits));
                assert(atoms_of(text@) == Seq::<MsgAtom>::empty());
                assert(flatten_pieces(pieces@) + Seq::<MsgAtom>::empty() =~= flatten_pieces(
                    pieces@,
                ));
                assert(f0 + Seq::<MsgAtom>::empty() =~= f0);
                assert(f0 + a0 + seq![MsgAtom::Dbl(bits)] =~= flatten_pieces(pieces@));
            }
            Ok(())
        } else if (c == '@' || c == 's') && is_minus && !is_dot_star {
            let mut s = match self.read_tokenized() {
                Ok(s) => s,
                Err(e) => {
                    return Err(e);
                },
            };
            let ghost tr = spec_token_read(toks_h, rem_h)->0;
            let ghost s0 = s@;
            text.append(&mut s);
            proof {
                lemma_atoms_concat(old(text)@, s0);
                lemma_add_assoc(f0, a0, atoms_of(s0));
            }
            Ok(())
        } else if c == '@' || c == 's' {
            let length = match crate::varint::read(&mut self.stream) {
                Ok(v) => v,
                Err(_) => {
                    return Err(self.err_here("Invalid varint"));
                },
            };
            if length > usize::MAX as u64 {
                return Err(self.err_here("Truncated entry"));
            }
            let ghost k1 = (take_varint(rem_h, 10)->0).1;
            proof {
                assert(self.stream.remaining() =~= rem_h.skip(k1));
            }
            let bytes = match self.stream.read_chunk(length as usize) {
                Some(b) => b,
                None => {
                    return Err(self.err_here("Truncated entry"));
                },
            };
            proof {
                assert(bytes@ =~= rem_h.skip(k1).subrange(0, length as int));
            }
            let ghost t0 = text@;
            if is_minus {
                push_hex_bytes(text, &bytes);
                proof {
                    lemma_atoms_concat(t0, hex_chars(bytes@));
                    lemma_add_assoc(f0, a0, atoms_of(hex_chars(bytes@)));
                }
            } else {
                push_plain_bytes(text, &bytes);
                proof {
                    lemma_atoms_concat(t0, bytes_as_chars(bytes@));
                    lemma_add_assoc(f0, a0, atoms_of(bytes_as_chars(bytes@)));
                }
            }
            Ok(())
        } else if c == 'p' && self.pointer_size == 8 {
            let chunk = match self.stream.read_chunk(8) {
                Some(ch) => ch,
                None => {
                    return Err(self.err_here("Truncated entry"));
                },
            };
            let value = vstd::bytes::u64_from_le_bytes(chunk.as_slice());
            proof {
                assert(chunk@ =~= rem_h.subrange(0, 8));
            }
            text.push('0');
            text.push('x');
            let mut digits = render_hex_padded(value, 16);
            let ghost d0 = digits@;
            text.append(&mut digits);
            proof {
                lemma_p_atoms(old(text)@, d0, f0);
            }
            Ok(())
        } else if c == 'p' && self.pointer_size == 4 {
            let chunk = match self.stream.read_chunk(4) {
                Some(ch) => ch,
                None => {
                    return Err(self.err_here("Truncated entry"));
                },
            };
            let value = vstd::bytes::u32_from_le_bytes(chunk.as_slice());
            proof {
                assert(chunk@ =~= rem_h.subrange(0, 4));
            }
            text.push('0');
            text.push('x');
            let mut digits = render_hex_padded(value as u64, 8);
            let ghost d0 = digits@;
            text.append(&mut digits);
            proof {
                lemma_p_atoms(old(text)@, d0, f0);
            }
            Ok(())
        } else if c == '%' {
            text.push('%');
            proof {
                lemma_atoms_snoc(old(text)@, '%');
                lemma_add_assoc(f0, a0, seq![MsgAtom::Ch('%')]);
            }
            Ok(())
        } else {
            Err(self.err_here("Unknown format specifier"))
        }
    }

    /// Replay one printf-style format string against the stream, producing
    /// the message as pieces of text and raw double bits. The format string
    /// is itself a tokenized string; the replay consumes the stream exactly
    /// as `spec_replay` says, and fails exactly when it yields nothing.
    #[verifier::rlimit(100)]
    fn read_message(&mut self) -> (r: Result<Vec<MessagePiece>, Error>)
        requires
            old(self).wf(),
        ensures
            final(self).wf(),
            final(self).stream.data == old(self).stream.data,
            final(self).pointer_size == old(self).pointer_size,
            final(self).start_micros == old(self).start_micros,
            final(self).elapsed_ticks == old(self).elapsed_ticks,
            tokens_view(old(self).tokens@).is_prefix_of(tokens_view(final(self).tokens@)),
            objects_view(final(self).objects@) == objects_view(old(self).objects@),
            r is Ok ==> final(self).stream.pos >= old(self).stream.pos,
            r is Ok <==> (spec_token_read(
                tokens_view(old(self).tokens@),
                old(self).stream.remaining(),
            ) matches Some(f) && spec_replay(
                f.0,
                0,
                old(self).pointer_size,
                f.1,
                old(self).stream.remaining().skip(f.2),
            ) is Some),
            match r {
                Ok(pieces) => {
                    &&& spec_token_read(
                        tokens_view(old(self).tokens@),
                        old(self).stream.remaining(),
                    ) matches Some(f)
                    &&& spec_replay(
                        f.0,
                        0,
                        old(self).pointer_size,
                        f.1,
                        old(self).stream.remaining().skip(f.2),
                    ) matches Some(rp)
                    &&& tokens_view(final(self).tokens@) == rp.1
                    &&& final(self).stream.pos == old(self).stream.pos + f.2 + rp.2
                    &&& final(self).stream.remaining() == old(self).stream.remaining().skip(
                        f.2,
                    ).skip(rp.2)
                    // the returned pieces are exactly the replay's atoms
                    &&& flatten_pieces(pieces@) == rp.0
                },
                Err(e) => e is InvalidBinaryLogs || e is InvalidVarint,
            },
    {
        proof {
            lemma_prefix_refl(tokens_view(old(self).tokens@));
            lemma_prefix_refl(objects_view(old(self).objects@));
        }
        let ghost ptr = old(self).pointer_size;
        let format = match self.read_tokenized() {
            Ok(f) => f,
            Err(e) => {
                return Err(e);
            },
        };
        let ghost f = spec_token_read(
            tokens_view(old(self).tokens@),
            old(self).stream.remaining(),
        )->0;
        let ghost rem_f = old(self).stream.remaining().skip(f.2);
        let ghost msg_base = old(self).stream.pos + f.2;
        proof {
            assert(self.stream.remaining() =~= rem_f);
        }
        let n = format.len();
        let mut pieces: Vec<MessagePiece> = Vec::new();
        let mut text: Vec<char> = Vec::new();
        let mut i: usize = 0;
        let ghost mut acc: Seq<MsgAtom> = flatten_pieces(pieces@) + atoms_of(text@);
        proof {
            assert(flatten_pieces(pieces@) == Seq::<MsgAtom>::empty());
            assert(atoms_of(text@) == Seq::<MsgAtom>::empty());
            match spec_replay(format@, 0, ptr, f.1, rem_f) {
                None => {},
                Some(r) => {
                    assert(acc + r.0 =~= r.0);
                },
            }
        }

        while i < n
            invariant
                self.wf(),
                n == format@.len(),
                format@ == f.0,
                self.stream.data == old(self).stream.data,
                self.pointer_size == old(self).pointer_size,
                self.pointer_size == ptr,
                self.start_micros == old(self).start_micros,
                self.elapsed_ticks == old(self).elapsed_ticks,
                msg_base <= self.stream.pos <= self.stream.data@.len(),
                msg_base == old(self).stream.pos + f.2,
                old(self).stream.pos <= msg_base,
                rem_f == old(self).stream.remaining().skip(f.2),
                spec_token_read(tokens_view(old(self).tokens@), old(self).stream.remaining())
                    == Some(f),
                tokens_view(old(self).tokens@).is_prefix_of(tokens_view(self.tokens@)),
                objects_view(old(self).objects@) == objects_view(self.objects@),
                acc == flatten_pieces(pieces@) + atoms_of(text@),
                match spec_replay(
                    format@,
                    i as int,
                    ptr,
                    tokens_view(self.tokens@),
                    self.stream.remaining(),
                ) {
                    None => spec_replay(format@, 0, ptr, f.1, rem_f) is None,
                    Some(r) => spec_replay(format@, 0, ptr, f.1, rem_f) matches Some(r0) && r0.0
                        == acc + r.0 && r0.1 == r.1 && r0.2 == (self.stream.pos - msg_base)
                        + r.2,
                },
            decreases n - i,
        {
            let ghost toks_h = tokens_view(self.tokens@);
            let ghost rem_h = self.stream.remaining();
            let ghost delta = self.stream.pos - msg_base;
            let c = format[i];
            if c == '\u{0}' {
                proof {
                    assert(spec_replay(format@, i as int, ptr, toks_h, rem_h) == Some(
                        (Seq::<MsgAtom>::empty(), toks_h, 0int),
                    ));
                    assert(spec_replay(format@, n as int, ptr, toks_h, rem_h) == Some(
                        (Seq::<MsgAtom>::empty(), toks_h, 0int),
                    ));
                }
                i = n;
            } else if c != '%' {
                proof {
                    lemma_char_step(
                        format@,
                        i as int,
                        ptr,
                        toks_h,
                        rem_h,
                        delta,
                        f.1,
                        rem_f,
                        acc,
                        c,
                    );
                }
                let ghost t_pre = text@;
                text.push(c);
                proof {
                    lemma_acc_push(pieces@, t_pre, text@, c, acc, acc + ch_atom(c));
                    acc = acc + ch_atom(c);
                }
                i = i + 1;
            } else {
                // a conversion: flags, width, precision, length, specifier
                if i + 1 >= n {
                    proof {
                        assert(spec_replay(format@, i as int, ptr, toks_h, rem_h) is None);
                    }
                    return Err(self.err_here("Truncated format specifier"));
                }
                let is_minus = format[i + 1] == '-';
                let start = if is_minus {
                    i + 2
                } else {
                    i + 1
                };
                let i2 = scan_digits_at(&format, scan_flags_at(&format, start));
                let mut is_dot_star = false;
                let i4: usize = if i2 < n && format[i2] == '.' {
                    if i2 + 1 < n && format[i2 + 1] == '*' {
                        is_dot_star = true;
                        i2 + 2
                    } else {
                        scan_digits_at(&format, i2 + 1)
                    }
                } else {
                    i2
                };
                let j = scan_lens_at(&format, i4);
                proof {
                    assert(conv_scan(format@, i + 1) == (is_minus, is_dot_star, j as int));
                }
                if j >= n {
                    proof {
                        assert(spec_replay(format@, i as int, ptr, toks_h, rem_h) is None);
                    }
                    return Err(self.err_here("Truncated format specifier"));
                }
                let spec_char = format[j];
                match self.conv_apply(spec_char, is_minus, is_dot_star, &mut text, &mut pieces) {
                    Ok(_) => {
                        proof {
                            let arm = spec_conv_arm(
                                spec_char,
                                is_minus,
                                is_dot_star,
                                ptr,
                                toks_h,
                                rem_h,
                            );
                            step_and_restore(
                                format@,
                                i as int,
                                j + 1,
                                ptr,
                                toks_h,
                                rem_h,
                                delta,
                                f.1,
                                rem_f,
                                arm,
                                acc,
                            );
                            assert(self.stream.remaining() =~= rem_h.skip((arm->0).2));
                            acc = acc + (arm->0).0;
                        }
                        i = j + 1;
                    },
                    Err(e) => {
                        proof {
                            assert(spec_replay(format@, i as int, ptr, toks_h, rem_h) is None);
                        }
                        return Err(e);
                    },
                }
            }
        }
        proof {
            assert(spec_replay(
                format@,
                i as int,
                ptr,
                tokens_view(self.tokens@),
                self.stream.remaining(),
            ) == Some(
                (Seq::<MsgAtom>::empty(), tokens_view(self.tokens@), 0int),
            ));
            assert((flatten_pieces(pieces@) + atoms_of(text@)) + Seq::<MsgAtom>::empty()
                =~= flatten_pieces(pieces@) + atoms_of(text@));
            assert(self.stream.remaining() =~= rem_f.skip(self.stream.pos - msg_base));
        }
        if text.len() > 0 {
            let ghost ps_pre = pieces@;
            pieces.push(MessagePiece::Text(text));
            proof {
                lemma_flatten_snoc(ps_pre, MessagePiece::Text(text));
            }
        } else {
            proof {
                assert(text@ =~= Seq::<char>::empty());
                assert(atoms_of(text@) == Seq::<MsgAtom>::empty());
                assert(flatten_pieces(pieces@) + Seq::<MsgAtom>::empty() =~= flatten_pieces(
                    pieces@,
                ));
            }
        }
        Ok(pieces)
    }

}


fn flag_char(c: char) -> (r: bool)
    ensures
        r == is_flag_char(c),
{
    c == '#' || c == '0' || c == '-' || c == ' ' || c == '+' || c == '\''
}

fn len_char(c: char) -> (r: bool)
    ensures
        r == is_len_char(c),
{
    c == 'h' || c == 'l' || c == 'j' || c == 't' || c == 'z' || c == 'q'
}

fn scan_flags_at(fmt: &Vec<char>, i: usize) -> (r: usize)
    requires
        i <= fmt@.len(),
    ensures
        r == scan_flags(fmt@, i as int),
        i <= r <= fmt@.len(),
    decreases fmt@.len() - i,
{
    proof {
        lemma_scan_bounds(fmt@, i as int);
    }
    if i >= fmt.len() {
        i
    } else if flag_char(fmt[i]) {
        scan_flags_at(fmt, i + 1)
    } else {
        i
    }
}

fn scan_digits_at(fmt: &Vec<char>, i: usize) -> (r: usize)
    requires
        i <= fmt@.len(),
    ensures
        r == scan_digits(fmt@, i as int),
        i <= r <= fmt@.len(),
    decreases fmt@.len() - i,
{
    proof {
        lemma_scan_bounds(fmt@, i as int);
    }
    if i >= fmt.len() {
        i
    } else if crate::text::dec_digit(fmt[i]) {
        scan_digits_at(fmt, i + 1)
    } else {
        i
    }
}

fn scan_lens_at(fmt: &Vec<char>, i: usize) -> (r: usize)
    requires
        i <= fmt@.len(),
    ensures
        r == scan_lens(fmt@, i as int),
        i <= r <= fmt@.len(),
    decreases fmt@.len() - i,
{
    proof {
        lemma_scan_bounds(fmt@, i as int);
    }
    if i >= fmt.len() {
        i
    } else if len_char(fmt[i]) {
        scan_lens_at(fmt, i + 1)
    } else {
        i
    }
}

/// Append each byte's two-digit hexadecimal form.
fn push_hex_bytes(text: &mut Vec<char>, bytes: &Vec<u8>)
    ensures
        final(text)@ == old(text)@ + hex_chars(bytes@),
{
    let mut k: usize = 0;
    proof {
        assert(bytes@.skip(0) =~= bytes@);
    }
    while k < bytes.len()
        invariant
            k <= bytes@.len(),
            old(text)@ + hex_chars(bytes@) == text@ + hex_chars(bytes@.skip(k as int)),
        decreases bytes@.len() - k,
    {
        let ghost rest = bytes@.skip(k as int);
        proof {
            assert(rest[0] == bytes@[k as int]);
            assert(rest.drop_first() =~= bytes@.skip(k + 1));
        }
        let mut hex = crate::text::render_hex_padded(bytes[k] as u64, 2);
        let ghost before = text@;
        text.append(&mut hex);
        proof {
            assert(before + (crate::text::hex_padded(bytes@[k as int] as nat, 2) + hex_chars(
                bytes@.skip(k + 1),
            )) =~= (before + crate::text::hex_padded(bytes@[k as int] as nat, 2)) + hex_chars(
                bytes@.skip(k + 1),
            ));
        }
        k = k + 1;
    }
    proof {
        assert(bytes@.skip(bytes@.len() as int) =~= Seq::<u8>::empty());
        assert(text@ + Seq::<char>::empty() =~= text@);
        assert(old(text)@ + hex_chars(bytes@) =~= text@ + hex_chars(Seq::<u8>::empty()));
    }
}

/// Append each byte read as one character.
fn push_plain_bytes(text: &mut Vec<char>, bytes: &Vec<u8>)
    ensures
        final(text)@ == old(text)@ + bytes_as_chars(bytes@),
{
    let mut k: usize = 0;
    while k < bytes.len()
        invariant
            k <= bytes@.len(),
            text@ =~= old(text)@ + bytes_as_chars(bytes@.subrange(0, k as int)),
        decreases bytes@.len() - k,
    {
        text.push(bytes[k] as char);
        assert(text@ =~= old(text)@ + bytes_as_chars(bytes@.subrange(0, k + 1)));
        k = k + 1;
    }
    assert(text@ =~= old(text)@ + bytes_as_chars(bytes@));
}

/// Stitching one conversion's atoms into the running replay: if the rest
/// of the format replays, the whole does, with this step's atoms and bytes
/// in front.
/// A literal character advances the format position and touches neither
/// the stream nor the token table.
proof fn lemma_char_step(
    fmt: Seq<char>,
    i: int,
    ptr: u8,
    toks_h: Seq<Seq<char>>,
    rem_h: Seq<u8>,
    delta: int,
    f1: Seq<Seq<char>>,
    rem_f: Seq<u8>,
    acc: Seq<MsgAtom>,
    c: char,
)
    requires
        0 <= i < fmt.len(),
        fmt[i] == c,
        c != '\u{0}',
        c != '%',
        match spec_replay(fmt, i, ptr, toks_h, rem_h) {
            None => spec_replay(fmt, 0, ptr, f1, rem_f) is None,
            Some(r) => spec_replay(fmt, 0, ptr, f1, rem_f) matches Some(r0) && r0.0 == acc + r.0
                && r0.1 == r.1 && r0.2 == delta + r.2,
        },
    ensures
        match spec_replay(fmt, i + 1, ptr, toks_h, rem_h) {
            None => spec_replay(fmt, 0, ptr, f1, rem_f) is None,
            Some(r2) => spec_replay(fmt, 0, ptr, f1, rem_f) matches Some(r0) && r0.0 == (acc
                + ch_atom(c)) + r2.0 && r0.1 == r2.1 && r0.2 == delta + r2.2,
        },
{
    match spec_replay(fmt, i + 1, ptr, toks_h, rem_h) {
        None => {
            assert(spec_replay(fmt, i, ptr, toks_h, rem_h) is None);
        },
        Some(r2) => {
            assert(spec_replay(fmt, i, ptr, toks_h, rem_h) == Some(
                (seq![MsgAtom::Ch(c)] + r2.0, r2.1, r2.2),
            ));
            assert(ch_atom(c) == seq![MsgAtom::Ch(c)]);
            lemma_add_assoc(acc, seq![MsgAtom::Ch(c)], r2.0);
        },
    }
}

proof fn lemma_replay_step(
    fmt: Seq<char>,
    i: int,
    j2: int,
    ptr: u8,
    toks_h: Seq<Seq<char>>,
    rem_h: Seq<u8>,
    delta: int,
    f1: Seq<Seq<char>>,
    rem_f: Seq<u8>,
    arm_atoms: Seq<MsgAtom>,
    toks2: Seq<Seq<char>>,
    consumed: int,
    acc: Seq<MsgAtom>,
)
    requires
        match spec_replay(fmt, i, ptr, toks_h, rem_h) {
            None => spec_replay(fmt, 0, ptr, f1, rem_f) is None,
            Some(r) => spec_replay(fmt, 0, ptr, f1, rem_f) matches Some(r0) && r0.0 == acc + r.0
                && r0.1 == r.1 && r0.2 == delta + r.2,
        },
        match spec_replay(fmt, j2, ptr, toks2, rem_h.skip(consumed)) {
            None => spec_replay(fmt, i, ptr, toks_h, rem_h) is None,
            Some(r2) => spec_replay(fmt, i, ptr, toks_h, rem_h) == Some(
                (arm_atoms + r2.0, r2.1, consumed + r2.2),
            ),
        },
    ensures
        match spec_replay(fmt, j2, ptr, toks2, rem_h.skip(consumed)) {
            None => spec_replay(fmt, 0, ptr, f1, rem_f) is None,
            Some(r2) => spec_replay(fmt, 0, ptr, f1, rem_f) matches Some(r0) && r0.0 == (acc
                + arm_atoms) + r2.0 && r0.1 == r2.1 && r0.2 == (delta + consumed) + r2.2,
        },
{
    match spec_replay(fmt, j2, ptr, toks2, rem_h.skip(consumed)) {
        None => {},
        Some(r2) => {
            lemma_add_assoc(acc, arm_atoms, r2.0);
        },
    }
}

/// One conversion step: unfold the replay at the `%`, apply the arm the
/// stream satisfied, and restore the running-replay relation at the
/// position after the specifier.
proof fn step_and_restore(
    fmt: Seq<char>,
    i: int,
    j2: int,
    ptr: u8,
    toks_h: Seq<Seq<char>>,
    rem_h: Seq<u8>,
    delta: int,
    f1: Seq<Seq<char>>,
    rem_f: Seq<u8>,
    arm: Option<(Seq<MsgAtom>, Seq<Seq<char>>, int)>,
    acc: Seq<MsgAtom>,
)
    requires
        arm is Some,
        0 <= i < fmt.len(),
        fmt[i] == '%',
        i + 1 < fmt.len(),
        conv_scan(fmt, i + 1).2 == j2 - 1,
        j2 - 1 < fmt.len(),
        spec_conv_arm(
            fmt[j2 - 1],
            conv_scan(fmt, i + 1).0,
            conv_scan(fmt, i + 1).1,
            ptr,
            toks_h,
            rem_h,
        ) == arm,
        match spec_replay(fmt, i, ptr, toks_h, rem_h) {
            None => spec_replay(fmt, 0, ptr, f1, rem_f) is None,
            Some(r) => spec_replay(fmt, 0, ptr, f1, rem_f) matches Some(r0) && r0.0 == acc + r.0
                && r0.1 == r.1 && r0.2 == delta + r.2,
        },
    ensures
        match spec_replay(fmt, j2, ptr, (arm->0).1, rem_h.skip((arm->0).2)) {
            None => spec_replay(fmt, 0, ptr, f1, rem_f) is None,
            Some(r2) => spec_replay(fmt, 0, ptr, f1, rem_f) matches Some(r0) && r0.0 == (acc
                + (arm->0).0) + r2.0 && r0.1 == r2.1 && r0.2 == (delta + (arm->0).2) + r2.2,
        },
{
    let a = arm->0;
    match spec_replay(fmt, j2, ptr, a.1, rem_h.skip(a.2)) {
        None => {
            assert(spec_replay(fmt, i, ptr, toks_h, rem_h) is None);
        },
        Some(r2) => {
            assert(spec_replay(fmt, i, ptr, toks_h, rem_h) == Some(
                (a.0 + r2.0, r2.1, a.2 + r2.2),
            ));
        },
    }
    lemma_replay_step(fmt, i, j2, ptr, toks_h, rem_h, delta, f1, rem_f, a.0, a.1, a.2, acc);
}

/// The level name a level byte selects: one through five name the five
/// levels; everything else is the empty level.
pub open spec fn level_name_spec(b: u8) -> Seq<char> {
    if b == 1 { "Debug"@ } else if b == 2 { "Verbose"@ } else if b == 3 { "Info"@ } else if b == 4 {
        "Warning"@
    } else if b == 5 { "Error"@ } else { Seq::empty() }
}

pub fn level_name_of(b: u8) -> (r: Vec<char>)
    ensures
        r@ == level_name_spec(b),
{
    if b == 1 { chars_of("Debug") } else if b == 2 { chars_of("Verbose") } else if b == 3 {
        chars_of("Info")
    } else if b == 4 { chars_of("Warning") } else if b == 5 { chars_of("Error") } else { Vec::new() }
}

pub proof fn lemma_prefix_refl<A>(s: Seq<A>)
    ensures
        s.is_prefix_of(s),
{
    assert(s.subrange(0, s.len() as int) =~= s);
}

pub proof fn lemma_prefix_trans<A>(a: Seq<A>, b: Seq<A>, c: Seq<A>)
    requires
        a.is_prefix_of(b),
        b.is_prefix_of(c),
    ensures
        a.is_prefix_of(c),
{
    assert(a =~= c.subrange(0, a.len() as int)) by {
        assert(forall|i: int|
            0 <= i < a.len() ==> a[i] == b.subrange(0, a.len() as int)[i] && b[i] == c.subrange(
                0,
                b.len() as int,
            )[i]);
    }
}

// ---------------------------------------------------------------------------
// decoding a whole buffer, and rendering entries as text lines
// ---------------------------------------------------------------------------

/// Decode every entry of an encoded buffer. Decoding stops cleanly at the
/// end of the stream; a malformed entry is the whole buffer's error.
#[verifier::rlimit(100)]
pub fn decode_entries(data: Vec<u8>) -> (r: Result<Vec<DecodedEntry>, Error>)
    ensures
        r is Ok ==> header_well_formed(data@),
        match r {
            Ok(entries) => {
                &&& forall|i: int|
                    0 <= i < entries@.len() ==> (#[trigger] entries@[i]).timestamp.wf()
                // the entries come back in the order written, and the time
                // deltas only ever move forward
                &&& forall|i: int|
                    0 <= i && i + 1 < entries@.len() ==> (#[trigger] entries@[i]).timestamp.epoch_micros()
                        <= entries@[i + 1].timestamp.epoch_micros()
                // one output entry per stream entry, in stream order, each
                // carrying that entry's fields, and the stream ends cleanly
                // after the last
                &&& stream_entries_match(data@, entries@)
            },
            Err(e) => e is InvalidBinaryLogs,
        },
        // a wrong format version is reported at offset zero
        (data@.len() >= 6 && data@.subrange(0, 4) == magic_bytes() && data@[4]
            != format_version()) ==> (r matches Err(Error::InvalidBinaryLogs(_, off)) && off
            == 0),
{
    let ghost data_v = data@;
    let mut decoder = match Decoder::new(data) {
        Ok(d) => d,
        Err(e) => {
            return Err(e);
        },
    };
    let mut entries: Vec<DecodedEntry> = Vec::new();
    proof {
        assert(tokens_view(decoder.tokens@) =~= Seq::<Seq<char>>::empty());
        assert(objects_view(decoder.objects@) =~= Seq::<(u64, Seq<char>)>::empty());
        assert(decoder.stream.remaining() =~= decode_init(data_v).s);
        assert(state_of(decoder) == decode_init(data_v));
    }
    #[verifier::loop_isolation(false)]
    loop
        invariant
            decoder.wf(),
            header_well_formed(data_v),
            forall|i: int| 0 <= i < entries@.len() ==> (#[trigger] entries@[i]).timestamp.wf(),
            forall|i: int|
                0 <= i < entries@.len() ==> (#[trigger] entries@[i]).timestamp.epoch_micros()
                    <= decoder.start_micros + decoder.elapsed_ticks,
            forall|i: int|
                0 <= i && i + 1 < entries@.len() ==> (#[trigger] entries@[i]).timestamp.epoch_micros()
                    <= entries@[i + 1].timestamp.epoch_micros(),
            entries_step_to(decode_init(data_v), entries@, 0, state_of(decoder)),
        decreases decoder.stream.data@.len() - decoder.stream.pos,
    {
        let ghost st_pre = state_of(decoder);
        let ghost es_pre = entries@;
        match decoder.read_entry() {
            Ok(Some(e)) => {
                proof {
                    let p = take_varint(st_pre.s, 10)->0;
                    let rem1 = st_pre.s.skip(p.1);
                    let d = spec_token_read(st_pre.toks, rem1.skip(1))->0;
                    let ob = spec_object_read(st_pre.objs, rem1.skip(1).skip(d.2))->0;
                    let rem2 = rem1.skip(1).skip(d.2).skip(ob.2);
                    let fm = spec_token_read(d.1, rem2)->0;
                    let rp = spec_replay(fm.0, 0, st_pre.ptr, fm.1, rem2.skip(fm.2))->0;
                    let v = (
                        st_pre.start + st_pre.elapsed + varint_u64(p.0),
                        level_name_spec(rem1[0]),
                        d.0,
                        ob.0,
                        rp.0,
                    );
                    assert((st_pre.elapsed + varint_u64(p.0)) as u64 == decoder.elapsed_ticks);
                    assert(entry_step(st_pre) == Some((v, state_of(decoder))));
                    assert(entry_matches(e, v));
                    lemma_steps_snoc(
                        decode_init(data_v),
                        es_pre,
                        0,
                        st_pre,
                        e,
                        v,
                        state_of(decoder),
                    );
                }
                entries.push(e);
            },
            Ok(None) => {
                proof {
                    assert(decode_ended(st_pre));
                    assert(entries_step_to(decode_init(data_v), entries@, 0, st_pre));
                    assert(stream_entries_match(data_v, entries@));
                }
                return Ok(entries);
            },
            Err(e) => {
                match e {
                    Error::InvalidBinaryLogs(m, o) => {
                        return Err(Error::InvalidBinaryLogs(m, o));
                    },
                    _ => {
                        return Err(
                            Error::InvalidBinaryLogs(String::from_str("Invalid binary logs"), 0),
                        );
                    },
                }
            },
        }
    }
}

// ---------------------------------------------------------------------------
// the whole stream, entry by entry
// ---------------------------------------------------------------------------

/// The decoder's abstract state between two entries.
pub struct DecodeState {
    pub start: u64,
    pub elapsed: u64,
    pub ptr: u8,
    pub toks: Seq<Seq<char>>,
    pub objs: Seq<(u64, Seq<char>)>,
    pub s: Seq<u8>,
}

/// The abstract state of a decoder value.
pub open spec fn state_of(d: Decoder) -> DecodeState {
    DecodeState {
        start: d.start_micros,
        elapsed: d.elapsed_ticks,
        ptr: d.pointer_size,
        toks: tokens_view(d.tokens@),
        objs: objects_view(d.objects@),
        s: d.stream.remaining(),
    }
}

/// The state right after a well-formed header.
pub open spec fn decode_init(data: Seq<u8>) -> DecodeState {
    DecodeState {
        start: header_start_micros(data) as u64,
        elapsed: 0,
        ptr: data[5],
        toks: Seq::empty(),
        objs: Seq::empty(),
        s: data.skip(6 + (take_varint(data.skip(6), 10)->0).1),
    }
}

/// Decoding ends cleanly here: the next timestamp cannot be read.
pub open spec fn decode_ended(st: DecodeState) -> bool {
    match take_varint(st.s, 10) {
        None => true,
        Some(p) => st.start + st.elapsed + varint_u64(p.0)
            >= crate::datetime::epoch_micros_limit(),
    }
}

/// One entry of the stream: its fields (timestamp in epoch microseconds,
/// level name, domain, object, message atoms) and the state after it.
pub open spec fn entry_step(st: DecodeState) -> Option<
    ((int, Seq<char>, Seq<char>, Option<Seq<char>>, Seq<MsgAtom>), DecodeState),
> {
    match take_varint(st.s, 10) {
        None => None,
        Some(p) => {
            let rem1 = st.s.skip(p.1);
            if rem1.len() == 0 {
                None
            } else {
                match spec_token_read(st.toks, rem1.skip(1)) {
                    None => None,
                    Some(d) => match spec_object_read(st.objs, rem1.skip(1).skip(d.2)) {
                        None => None,
                        Some(ob) => {
                            let rem2 = rem1.skip(1).skip(d.2).skip(ob.2);
                            match spec_token_read(d.1, rem2) {
                                None => None,
                                Some(fm) => match spec_replay(
                                    fm.0,
                                    0,
                                    st.ptr,
                                    fm.1,
                                    rem2.skip(fm.2),
                                ) {
                                    None => None,
                                    Some(rp) => Some(
                                        (
                                            (
                                                st.start + st.elapsed + varint_u64(p.0),
                                                level_name_spec(rem1[0]),
                                                d.0,
                                                ob.0,
                                                rp.0,
                                            ),
                                            DecodeState {
                                                start: st.start,
                                                elapsed: (st.elapsed + varint_u64(p.0)) as u64,
                                                ptr: st.ptr,
                                                toks: rp.1,
                                                objs: ob.1,
                                                s: rem2.skip(fm.2).skip(rp.2),
                                            },
                                        ),
                                    ),
                                },
                            }
                        },
                    },
                }
            }
        },
    }
}

/// A decoded entry carries exactly the given stream-entry fields.
pub open spec fn entry_matches(
    e: DecodedEntry,
    v: (int, Seq<char>, Seq<char>, Option<Seq<char>>, Seq<MsgAtom>),
) -> bool {
    &&& e.timestamp.epoch_micros() == v.0
    &&& e.level@ == v.1
    &&& e.domain@ == v.2
    &&& (match e.object {
        Some(o) => v.3 == Some(o@),
        None => v.3 is None,
    })
    &&& flatten_pieces(e.pieces@) == v.4
}

/// `es[k..]` are exactly the stream's next entries, in order, stepping the
/// state from `st` to `st2`.
pub open spec fn entries_step_to(
    st: DecodeState,
    es: Seq<DecodedEntry>,
    k: int,
    st2: DecodeState,
) -> bool
    decreases es.len() - k,
{
    if k < 0 || k >= es.len() {
        st2 == st
    } else {
        match entry_step(st) {
            None => false,
            Some(r) => entry_matches(es[k], r.0) && entries_step_to(r.1, es, k + 1, st2),
        }
    }
}

/// `es` is the stream's whole entry list: each entry in order, and the
/// stream ends cleanly after the last.
pub open spec fn stream_entries_match(data: Seq<u8>, es: Seq<DecodedEntry>) -> bool {
    exists|st2: DecodeState|
        #[trigger] entries_step_to(decode_init(data), es, 0, st2) && decode_ended(st2)
}

/// Appending one more matching entry extends the stepping.
proof fn lemma_steps_snoc(
    st: DecodeState,
    es: Seq<DecodedEntry>,
    k: int,
    st2: DecodeState,
    e: DecodedEntry,
    v: (int, Seq<char>, Seq<char>, Option<Seq<char>>, Seq<MsgAtom>),
    st3: DecodeState,
)
    requires
        0 <= k <= es.len(),
        entries_step_to(st, es, k, st2),
        entry_step(st2) == Some((v, st3)),
        entry_matches(e, v),
    ensures
        entries_step_to(st, es.push(e), k, st3),
    decreases es.len() - k,
{
    if k >= es.len() {
        assert(es.push(e)[k] == e);
        assert(entries_step_to(st3, es.push(e), k + 1, st3));
    } else {
        let r = entry_step(st)->0;
        assert(es.push(e)[k] == es[k]);
        lemma_steps_snoc(r.1, es, k + 1, st2, e, v, st3);
    }
}

/// How many double conversions a message holds.
pub open spec fn count_doubles(ps: Seq<MessagePiece>) -> int
    decreases ps.len(),
{
    if ps.len() == 0 {
        0
    } else {
        (match ps[0] {
            MessagePiece::Text(_) => 0int,
            MessagePiece::Double(_) => 1int,
        }) + count_doubles(ps.drop_first())
    }
}

/// The message text once each double's rendered text is spliced in, in order.
pub open spec fn splice_message(ps: Seq<MessagePiece>, floats: Seq<Seq<char>>) -> Seq<char>
    decreases ps.len(),
{
    if ps.len() == 0 {
        Seq::empty()
    } else {
        match ps[0] {
            MessagePiece::Text(t) => t@ + splice_message(ps.drop_first(), floats),
            MessagePiece::Double(_) => floats[0] + splice_message(
                ps.drop_first(),
                floats.drop_first(),
            ),
        }
    }
}

proof fn lemma_count_doubles_nonneg(ps: Seq<MessagePiece>)
    ensures
        count_doubles(ps) >= 0,
    decreases ps.len(),
{
    if ps.len() > 0 {
        lemma_count_doubles_nonneg(ps.drop_first());
    }
}

/// Appending a text piece appends its text; appending a double piece with
/// one more float text appends that text.
proof fn lemma_splice_snoc(
    ps: Seq<MessagePiece>,
    floats: Seq<Seq<char>>,
    p: MessagePiece,
    extra: Seq<Seq<char>>,
)
    requires
        count_doubles(ps) == floats.len(),
    ensures
        p matches MessagePiece::Text(t) ==> (extra.len() == 0 ==> splice_message(
            ps.push(p),
            floats + extra,
        ) == splice_message(ps, floats) + t@),
        p is Double && extra.len() == 1 ==> splice_message(ps.push(p), floats + extra)
            == splice_message(ps, floats) + extra[0],
    decreases ps.len(),
{
    lemma_count_doubles_nonneg(ps);
    let snoc = ps.push(p);
    let allf = floats + extra;
    if ps.len() == 0 {
        assert(floats.len() == 0);
        assert(allf =~= extra);
        assert(snoc.drop_first() =~= Seq::<MessagePiece>::empty());
        assert(snoc[0] == p);
        match p {
            MessagePiece::Text(t) => {
                if extra.len() == 0 {
                    assert(splice_message(snoc, allf) == t@ + splice_message(
                        snoc.drop_first(),
                        allf,
                    ));
                    assert(t@ + Seq::<char>::empty() =~= t@);
                    assert(splice_message(ps, floats) + t@ =~= t@);
                }
            },
            MessagePiece::Double(_) => {
                if extra.len() == 1 {
                    assert(splice_message(snoc, allf) == allf[0] + splice_message(
                        snoc.drop_first(),
                        allf.drop_first(),
                    ));
                    assert(allf[0] + Seq::<char>::empty() =~= allf[0]);
                    assert(splice_message(ps, floats) + extra[0] =~= extra[0]);
                }
            },
        }
    } else {
        lemma_count_doubles_nonneg(ps.drop_first());
        assert(snoc.drop_first() =~= ps.drop_first().push(p));
        assert(snoc[0] == ps[0]);
        match ps[0] {
            MessagePiece::Text(t) => {
                lemma_splice_snoc(ps.drop_first(), floats, p, extra);
                let rest = splice_message(ps.drop_first(), floats);
                match p {
                    MessagePiece::Text(t2) => {
                        if extra.len() == 0 {
                            assert(t@ + (rest + t2@) =~= (t@ + rest) + t2@);
                        }
                    },
                    MessagePiece::Double(_) => {
                        if extra.len() == 1 {
                            assert(t@ + (rest + extra[0]) =~= (t@ + rest) + extra[0]);
                        }
                    },
                }
            },
            MessagePiece::Double(_) => {
                assert(count_doubles(ps) == 1 + count_doubles(ps.drop_first()));
                assert(floats.len() >= 1);
                lemma_splice_snoc(ps.drop_first(), floats.drop_first(), p, extra);
                assert(floats.drop_first() + extra =~= allf.drop_first());
                assert(allf[0] == floats[0]);
                let rest = splice_message(ps.drop_first(), floats.drop_first());
                match p {
                    MessagePiece::Text(t2) => {
                        if extra.len() == 0 {
                            assert(floats[0] + (rest + t2@) =~= (floats[0] + rest) + t2@);
                        }
                    },
                    MessagePiece::Double(_) => {
                        if extra.len() == 1 {
                            assert(floats[0] + (rest + extra[0]) =~= (floats[0] + rest) + extra[0]);
                        }
                    },
                }
            },
        }
    }
}

/// The canonical text of one decoded entry, given the doubles' text:
/// `<TS> <domain> <level>[ Obj=<object>] <message>`.
pub open spec fn render_entry_spec(e: DecodedEntry, floats: Seq<Seq<char>>) -> Seq<char> {
    render_datetime(e.timestamp, 'T') + seq![' '] + e.domain@ + seq![' '] + e.level@ + seq![' ']
        + (match e.object {
        Some(o) => seq!['O', 'b', 'j', '='] + o@ + seq![' '],
        None => Seq::empty(),
    }) + splice_message(e.pieces@, floats)
}

/// Splice rendered double text into a message, in order.
pub fn render_message_with(pieces: &Vec<MessagePiece>, floats: &Vec<String>) -> (r: Vec<char>)
    requires
        count_doubles(pieces@) == floats@.len(),
    ensures
        r@ == splice_message(pieces@, floats@.map_values(|s: String| s@)),
{
    let ghost fviews = floats@.map_values(|s: String| s@);
    let flen = floats.len();
    let mut out: Vec<char> = Vec::new();
    let mut fi: usize = 0;
    let mut i: usize = 0;
    proof {
        assert(pieces@.take(0) =~= Seq::<MessagePiece>::empty());
        assert(fviews.take(0) =~= Seq::<Seq<char>>::empty());
    }
    while i < pieces.len()
        invariant
            i <= pieces@.len(),
            fi <= floats@.len(),
            flen == floats@.len(),
            fviews == floats@.map_values(|s: String| s@),
            count_doubles(pieces@) == floats@.len(),
            count_doubles(pieces@.take(i as int)) == fi,
            out@ == splice_message(pieces@.take(i as int), fviews.take(fi as int)),
        decreases pieces@.len() - i,
    {
        let ghost pre = pieces@.take(i as int);
        let ghost fpre = fviews.take(fi as int);
        match &pieces[i] {
            MessagePiece::Text(t) => {
                let mut k: usize = 0;
                let ghost out0 = out@;
                while k < t.len()
                    invariant
                        k <= t@.len(),
                        i < pieces@.len(),
                        t@ == pieces@[i as int]->Text_0@,
                        out@ =~= out0 + t@.subrange(0, k as int),
                    decreases t@.len() - k,
                {
                    out.push(t[k]);
                    assert(out@ =~= out0 + t@.subrange(0, k + 1 as int));
                    k = k + 1;
                }
                proof {
                    lemma_splice_snoc(pre, fpre, pieces@[i as int], Seq::empty());
                    assert(fpre + Seq::<Seq<char>>::empty() =~= fpre);
                    assert(pre.push(pieces@[i as int]) =~= pieces@.take(i + 1));
                    assert(t@.subrange(0, t@.len() as int) =~= t@);
                    lemma_count_doubles_snoc(pre, pieces@[i as int]);
                }
            },
            MessagePiece::Double(_) => {
                proof {
                    lemma_count_doubles_take_bound(pieces@, i as int);
                    lemma_count_doubles_snoc(pre, pieces@[i as int]);
                }
                let f = &floats[fi];
                let mut fchars = crate::text::chars_of(f.as_str());
                out.append(&mut fchars);
                proof {
                    lemma_splice_snoc(pre, fpre, pieces@[i as int], seq![fviews[fi as int]]);
                    assert(fpre + seq![fviews[fi as int]] =~= fviews.take(fi + 1));
                    assert(pre.push(pieces@[i as int]) =~= pieces@.take(i + 1));
                }
                fi = fi + 1;
            },
        }
        i = i + 1;
    }
    proof {
        assert(pieces@.take(pieces@.len() as int) =~= pieces@);
        lemma_count_doubles_unique(pieces@, fi as int, floats@.len() as int);
        assert(fviews.take(fi as int) =~= fviews);
    }
    out
}

/// A prefix holds no more doubles than its count says fit.
proof fn lemma_count_doubles_take_bound(ps: Seq<MessagePiece>, i: int)
    requires
        0 <= i < ps.len(),
        ps[i] is Double,
    ensures
        count_doubles(ps) >= count_doubles(ps.take(i)) + 1,
    decreases ps.len(),
{
    if i == 0 {
        assert(ps.take(0) =~= Seq::<MessagePiece>::empty());
        lemma_count_doubles_nonneg(ps.drop_first());
    } else {
        lemma_count_doubles_take_bound(ps.drop_first(), i - 1);
        assert(ps.drop_first().take(i - 1) =~= ps.take(i).drop_first());
        assert(ps.take(i)[0] == ps[0]);
    }
}

proof fn lemma_count_doubles_snoc(ps: Seq<MessagePiece>, p: MessagePiece)
    ensures
        count_doubles(ps.push(p)) == count_doubles(ps) + (match p {
            MessagePiece::Text(_) => 0int,
            MessagePiece::Double(_) => 1int,
        }),
    decreases ps.len(),
{
    let snoc = ps.push(p);
    if ps.len() == 0 {
        assert(snoc.drop_first() =~= Seq::<MessagePiece>::empty());
        assert(snoc[0] == p);
        assert(count_doubles(Seq::<MessagePiece>::empty()) == 0);
        assert(count_doubles(snoc) == (match p {
            MessagePiece::Text(_) => 0int,
            MessagePiece::Double(_) => 1int,
        }) + count_doubles(snoc.drop_first()));
        assert(count_doubles(ps) == 0);
    } else {
        lemma_count_doubles_snoc(ps.drop_first(), p);
        assert(snoc.drop_first() =~= ps.drop_first().push(p));
        assert(snoc[0] == ps[0]);
        assert(count_doubles(snoc) == (match snoc[0] {
            MessagePiece::Text(_) => 0int,
            MessagePiece::Double(_) => 1int,
        }) + count_doubles(snoc.drop_first()));
        assert(count_doubles(ps) == (match ps[0] {
            MessagePiece::Text(_) => 0int,
            MessagePiece::Double(_) => 1int,
        }) + count_doubles(ps.drop_first()));
    }
}

proof fn lemma_count_doubles_unique(ps: Seq<MessagePiece>, a: int, b: int)
    requires
        count_doubles(ps) == a,
        count_doubles(ps) == b,
    ensures
        a == b,
{
}

/// One decoded entry as its canonical text line.
pub fn render_entry(e: &DecodedEntry, floats: &Vec<String>) -> (r: String)
    requires
        count_doubles(e.pieces@) == floats@.len(),
    ensures
        r@ == render_entry_spec(*e, floats@.map_values(|s: String| s@)),
{
    let mut out = crate::datetime::render_datetime_chars(&e.timestamp, 'T');
    out.push(' ');
    let mut d = copy_chars(&e.domain);
    out.append(&mut d);
    out.push(' ');
    let mut l = copy_chars(&e.level);
    out.append(&mut l);
    out.push(' ');
    match &e.object {
        Some(o) => {
            out.push('O');
            out.push('b');
            out.push('j');
            out.push('=');
            let mut oc = copy_chars(o);
            out.append(&mut oc);
            out.push(' ');
        },
        None => {},
    }
    let mut msg = render_message_with(&e.pieces, floats);
    out.append(&mut msg);
    proof {
        assert(out@ =~= render_entry_spec(*e, floats@.map_values(|s: String| s@)));
    }
    string_from_chars(&out)
}

fn copy_chars(v: &Vec<char>) -> (r: Vec<char>)
    ensures
        r@ == v@,
{
    let mut out: Vec<char> = Vec::new();
    let mut i: usize = 0;
    while i < v.len()
        invariant
            i <= v@.len(),
            out@ =~= v@.subrange(0, i as int),
        decreases v@.len() - i,
    {
        out.push(v[i]);
        assert(out@ =~= v@.subrange(0, i + 1 as int));
        i = i + 1;
    }
    assert(out@ =~= v@);
    out
}

// ---------------------------------------------------------------------------
// what the growing tables guarantee
// ---------------------------------------------------------------------------

/// Reading the same token id at two points of one decode returns
/// byte-for-byte the same text: the token table only ever grows, so an id
/// interned earlier keeps its text in every later state.
pub proof fn lemma_token_stable(earlier: Seq<Seq<char>>, later: Seq<Seq<char>>, id: int)
    requires
        earlier.is_prefix_of(later),
        0 <= id < earlier.len(),
    ensures
        later[id] == earlier[id],
{
    assert(earlier[id] == later.subrange(0, earlier.len() as int)[id]);
}

/// Object ids are append-only within a file and no id ever maps to two
/// distinct strings: the dictionary of a later decoder state extends the
/// earlier one, and with ids unique, an id bound earlier keeps its text.
pub proof fn lemma_object_binding_stable(
    earlier: Seq<(u64, Seq<char>)>,
    later: Seq<(u64, Seq<char>)>,
    id: u64,
)
    requires
        earlier.is_prefix_of(later),
        object_text(earlier, id) is Some,
    ensures
        object_text(later, id) == object_text(earlier, id),
    decreases earlier.len(),
{
    assert(earlier.len() <= later.len());
    assert(earlier[0] == later.subrange(0, earlier.len() as int)[0]);
    if earlier[0].0 == id {
        assert(later[0] == earlier[0]);
    } else {
        assert(later[0] == earlier[0]);
        assert(earlier.drop_first().is_prefix_of(later.drop_first())) by {
            assert(earlier.drop_first() =~= later.drop_first().subrange(
                0,
                earlier.drop_first().len() as int,
            )) by {
                assert(forall|k: int|
                    0 <= k < earlier.len() ==> earlier[k] == later.subrange(
                        0,
                        earlier.len() as int,
                    )[k]);
            }
        }
        lemma_object_binding_stable(earlier.drop_first(), later.drop_first(), id);
    }
}

/// An id bound in the dictionary names an entry in it.
proof fn lemma_object_text_found(objs: Seq<(u64, Seq<char>)>, i: int)
    requires
        0 <= i < objs.len(),
    ensures
        object_text(objs, objs[i].0) is Some,
    decreases i,
{
    if i > 0 && objs[0].0 != objs[i].0 {
        lemma_object_text_found(objs.drop_first(), i - 1);
        assert(objs.drop_first()[i - 1] == objs[i]);
    }
}

/// An id the dictionary does not bind names no entry in it.
proof fn lemma_object_text_absent(objs: Seq<(u64, Seq<char>)>, id: u64)
    requires
        object_text(objs, id) is None,
    ensures
        forall|i: int| 0 <= i < objs.len() ==> (#[trigger] objs[i]).0 != id,
    decreases objs.len(),
{
    if objs.len() > 0 {
        lemma_object_text_absent(objs.drop_first(), id);
        assert(forall|i: int| 1 <= i < objs.len() ==> objs.drop_first()[i - 1] == #[trigger] objs[i]);
    }
}

} // verus!
