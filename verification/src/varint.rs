//! Little-endian base-128 variable-length integers: seven value bits per
//! byte, the high bit saying that another byte follows, ten bytes at most.
use vstd::prelude::*;

use crate::Error;
use crate::stream::ByteStream;

verus! {

/// What a varint read from the front of `s` yields: its mathematical value
/// and how many bytes it takes. Nothing when the bytes run out or `fuel`
/// bytes all carry the continuation bit.
pub open spec fn take_varint(s: Seq<u8>, fuel: int) -> Option<(nat, int)>
    decreases fuel,
{
    if fuel <= 0 || s.len() == 0 {
        None
    } else if s[0] < 128 {
        Some((s[0] as nat, 1))
    } else {
        match take_varint(s.drop_first(), fuel - 1) {
            None => None,
            Some(p) => Some(((s[0] - 128) as nat + 128 * p.0, p.1 + 1)),
        }
    }
}

/// A varint wider than 64 bits keeps only its low 64, as the accumulator
/// in the reader does.
pub open spec fn varint_u64(v: nat) -> u64 {
    (v % 0x10000000000000000) as u64
}

pub proof fn lemma_take_varint_len(s: Seq<u8>, fuel: int)
    ensures
        take_varint(s, fuel) matches Some(p) ==> 1 <= p.1 <= fuel && p.1 <= s.len() && p.0 >= 0,
    decreases fuel,
{
    if fuel > 0 && s.len() > 0 && s[0] >= 128 {
        lemma_take_varint_len(s.drop_first(), fuel - 1);
    }
}

fn read_fuel(stream: &mut ByteStream, fuel: u8) -> (r: Result<u64, Error>)
    requires
        old(stream).wf(),
    ensures
        final(stream).wf(),
        final(stream).data == old(stream).data,
        match r {
            Ok(v) => {
                &&& take_varint(old(stream).remaining(), fuel as int) matches Some(p) && v
                    == varint_u64(p.0) && final(stream).pos == old(stream).pos + p.1
            },
            Err(e) => {
                &&& e is InvalidVarint
                &&& take_varint(old(stream).remaining(), fuel as int) is None
                // a failed read consumes the full fuel, or all that is left
                &&& final(stream).pos == if old(stream).remaining().len() >= fuel {
                    old(stream).pos + fuel
                } else {
                    old(stream).data@.len() as int
                }
            },
        },
        old(stream).pos <= final(stream).pos <= old(stream).pos + fuel,
        final(stream).pos <= old(stream).data@.len(),
    decreases fuel,
{
    if fuel == 0 {
        return Err(Error::InvalidVarint);
    }
    let b = match stream.read_byte() {
        Some(b) => b,
        None => {
            return Err(Error::InvalidVarint);
        },
    };
    assert(old(stream).remaining()[0] == b);
    if b < 128 {
        assert(take_varint(old(stream).remaining(), fuel as int) == Some((b as nat, 1int)));
        proof {
            crate::varint::lemma_take_varint_len(old(stream).remaining(), fuel as int);
        }
        Ok(b as u64)
    } else {
        let ghost tail = old(stream).remaining().drop_first();
        assert(stream.remaining() =~= tail);
        match read_fuel(stream, fuel - 1) {
            Ok(v) => {
                let ghost p = take_varint(tail, fuel - 1int)->0;
                let r = (b - 128) as u64;
                let out = r.wrapping_add(v.wrapping_mul(128));
                proof {
                    lemma_take_varint_len(tail, fuel - 1int);
                    let m = 0x10000000000000000int;
                    let a = (b - 128) as int;
                    let w = p.0 as int;
                    assert(v == w % m);
                    // (a + 128 * w) % m == (a + (v * 128) % m) % m, and the
                    // wrapping operations compute exactly that.
                    vstd::arithmetic::div_mod::lemma_mul_mod_noop_left(w, 128, m);
                    assert((v * 128) % m == (w * 128) % m);
                    let t = (v * 128) % m;
                    vstd::arithmetic::div_mod::lemma_mod_bound(v * 128, m);
                    assert(0 <= t < m);
                    vstd::arithmetic::div_mod::lemma_add_mod_noop_right(a, w * 128, m);
                    vstd::arithmetic::div_mod::lemma_small_mod(a as nat, m as nat);
                    assert((a + t) % m == (a + w * 128) % m);
                    assert(out == (a + t) % m) by (nonlinear_arith)
                        requires
                            0 <= a < 128,
                            0 <= t < m,
                            m == 0x10000000000000000,
                            out == vstd::wrapping::u64_specs::wrapping_add((a as u64), (t as u64)),
                    ;
                    assert(v.wrapping_mul(128) == t as u64);
                    assert(128 * p.0 == p.0 * 128) by (nonlinear_arith);
                    assert(out == varint_u64((a + 128 * p.0) as nat));
                }
                Ok(out)
            },
            Err(e) => Err(e),
        }
    }
}

/// Read one varint, ten bytes at most.
pub fn read(stream: &mut ByteStream) -> (r: Result<u64, Error>)
    requires
        old(stream).wf(),
    ensures
        final(stream).wf(),
        final(stream).data == old(stream).data,
        match r {
            Ok(v) => {
                &&& take_varint(old(stream).remaining(), 10) matches Some(p) && v == varint_u64(
                    p.0,
                ) && final(stream).pos == old(stream).pos + p.1
            },
            Err(e) => {
                &&& e is InvalidVarint
                &&& take_varint(old(stream).remaining(), 10) is None
                // ten continuation bytes consume exactly ten; a truncated
                // varint consumes the rest of the data
                &&& final(stream).pos == if old(stream).remaining().len() >= 10 {
                    old(stream).pos + 10
                } else {
                    old(stream).data@.len() as int
                }
            },
        },
        old(stream).pos <= final(stream).pos <= old(stream).pos + 10,
        final(stream).pos <= old(stream).data@.len(),
{
    let r = read_fuel(stream, 10);
    proof {
        lemma_take_varint_len(old(stream).remaining(), 10);
    }
    r
}

} // verus!
