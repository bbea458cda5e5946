//! Canonical unsigned LEB128 numbers, as the binary module format
//! uses them for section sizes, name lengths, counts and indices.
//!
//! Only the minimal (canonical) encoding is accepted: a continuation
//! byte whose remaining value is zero would be padding, and a compiler
//! that emits it is treated as malformed output.
use vstd::prelude::*;

verus! {

/// The canonical LEB128 encoding of a number, least significant group
/// first.
pub open spec fn leb128(n: nat) -> Seq<u8>
    decreases n,
{
    if n < 0x80 {
        seq![n as u8]
    } else {
        seq![(0x80 + (n % 0x80)) as u8] + leb128(n / 0x80)
    }
}

/// Parse a canonical LEB128 number from the front of a byte stream:
/// the value and the count of bytes consumed, or nothing where the
/// stream ends early or the encoding is not minimal.
pub open spec fn parse_leb128(s: Seq<u8>) -> Option<(nat, int)>
    decreases s.len(),
{
    if s.len() == 0 {
        None
    } else if s[0] < 0x80 {
        Some(((s[0] as nat), 1))
    } else {
        match parse_leb128(s.drop_first()) {
            None => None,
            Some((v, k)) => if v == 0 {
                None
            } else {
                Some((v * 0x80 + (s[0] - 0x80) as nat, k + 1))
            },
        }
    }
}

/// An encoding is never empty.
pub proof fn lemma_leb128_len(n: nat)
    ensures
        leb128(n).len() >= 1,
    decreases n,
{
    if n >= 0x80 {
        lemma_leb128_len(n / 0x80);
    }
}

/// A smaller number never encodes longer.
pub proof fn lemma_leb128_len_mono(a: nat, b: nat)
    requires
        a <= b,
    ensures
        leb128(a).len() <= leb128(b).len(),
    decreases b,
{
    if b < 0x80 {
    } else if a < 0x80 {
        lemma_leb128_len(b / 0x80);
    } else {
        vstd::arithmetic::div_mod::lemma_div_is_ordered(a as int, b as int, 0x80);
        lemma_leb128_len_mono(a / 0x80, b / 0x80);
    }
}

/// Parsing what the encoder wrote, whatever follows it, yields the
/// encoded value and consumes exactly the encoding.
pub proof fn lemma_parse_leb128_encode(n: nat, rest: Seq<u8>)
    ensures
        parse_leb128(leb128(n) + rest) == Some((n, leb128(n).len() as int)),
    decreases n,
{
    let s = leb128(n) + rest;
    if n < 0x80 {
        assert(s[0] == n as u8);
    } else {
        lemma_parse_leb128_encode(n / 0x80, rest);
        assert(s.drop_first() =~= leb128(n / 0x80) + rest);
        assert(s[0] == (0x80 + (n % 0x80)) as u8);
        assert(n / 0x80 >= 1);
        assert((n / 0x80) * 0x80 + ((0x80 + (n % 0x80)) as u8 - 0x80) as nat == n) by {
            assert(n == 0x80 * (n / 0x80) + n % 0x80) by {
                vstd::arithmetic::div_mod::lemma_fundamental_div_mod(n as int, 0x80);
            }
        }
        lemma_leb128_len(n / 0x80);
    }
}

/// A successful parse consumes between one byte and the whole stream,
/// and what it consumed is exactly the canonical encoding of its
/// value.
pub proof fn lemma_parse_leb128_sound(s: Seq<u8>)
    requires
        parse_leb128(s) is Some,
    ensures
        1 <= parse_leb128(s)->Some_0.1 <= s.len(),
        leb128(parse_leb128(s)->Some_0.0) == s.take(parse_leb128(s)->Some_0.1),
    decreases s.len(),
{
    let (v, k) = parse_leb128(s)->Some_0;
    if s[0] < 0x80 {
        assert(leb128(v) =~= s.take(1));
    } else {
        lemma_parse_leb128_sound(s.drop_first());
        let (v2, k2) = parse_leb128(s.drop_first())->Some_0;
        assert(v == v2 * 0x80 + (s[0] - 0x80) as nat);
        assert(v2 >= 1);
        assert(v >= 0x80) by {
            assert(v2 * 0x80 >= 1 * 0x80) by (nonlinear_arith)
                requires
                    v2 >= 1,
            ;
        }
        assert(v / 0x80 == v2 && v % 0x80 == (s[0] - 0x80) as nat) by {
            vstd::arithmetic::div_mod::lemma_fundamental_div_mod_converse(
                v as int,
                0x80,
                v2 as int,
                (s[0] - 0x80) as int,
            );
        }
        assert(leb128(v) == seq![s[0]] + leb128(v2));
        assert(leb128(v2) == s.drop_first().take(k2));
        assert(leb128(v) =~= s.take(k2 + 1));
    }
}

/// Decode a canonical LEB128 number bounded to 32 bits, starting at
/// `pos`: the value and the position after it, or nothing where the
/// stream has no canonical number there or its value needs more than
/// 32 bits.
pub fn decode_leb128(bytes: &Vec<u8>, pos: usize) -> (r: Option<(u64, usize)>)
    requires
        pos <= bytes@.len(),
    ensures
        match r {
            Some(v_end) => {
                &&& parse_leb128(bytes@.skip(pos as int)) == Some(
                    (v_end.0 as nat, (v_end.1 - pos) as int),
                )
                &&& pos < v_end.1 <= bytes@.len()
                &&& v_end.0 < 0x1_0000_0000u64
            },
            None => match parse_leb128(bytes@.skip(pos as int)) {
                None => true,
                Some(v_k) => v_k.0 >= 0x1_0000_0000,
            },
        },
    decreases bytes@.len() - pos,
{
    if pos >= bytes.len() {
        return None;
    }
    let b = bytes[pos];
    if b < 0x80 {
        proof {
            assert(bytes@.skip(pos as int)[0] == b);
        }
        return Some((b as u64, pos + 1));
    }
    proof {
        assert(bytes@.skip(pos as int).drop_first() =~= bytes@.skip(pos + 1));
    }
    match decode_leb128(bytes, pos + 1) {
        None => {
            proof {
                if parse_leb128(bytes@.skip(pos as int)) is Some {
                    let (v2, k2) = parse_leb128(bytes@.skip(pos + 1))->Some_0;
                    assert(v2 >= 0x1_0000_0000);
                    let v = parse_leb128(bytes@.skip(pos as int))->Some_0.0;
                    assert(v == v2 * 0x80 + (b - 0x80) as nat);
                    assert(v2 * 0x80 >= v2) by (nonlinear_arith)
                        requires
                            v2 >= 0,
                    ;
                }
            }
            None
        },
        Some((v, end)) => {
            if v == 0 {
                None
            } else if v >= 0x0200_0000 {
                proof {
                    let w = parse_leb128(bytes@.skip(pos as int))->Some_0.0;
                    assert(w == (v as nat) * 0x80 + (b - 0x80) as nat);
                    assert((v as nat) * 0x80 >= 0x0200_0000 * 0x80) by (nonlinear_arith)
                        requires
                            v >= 0x0200_0000,
                    ;
                }
                None
            } else {
                let value = v * 0x80 + (b - 0x80) as u64;
                proof {
                    assert((v as nat) * 0x80 + ((b - 0x80) as u64 as nat) < 0x1_0000_0000) by (nonlinear_arith)
                        requires
                            v < 0x0200_0000,
                            b >= 0x80,
                            b < 0x100,
                    ;
                }
                Some((value, end))
            }
        },
    }
}

/// Write the canonical LEB128 encoding of a number.
pub fn leb128_bytes(n: u64) -> (r: Vec<u8>)
    ensures
        r@ == leb128(n as nat),
    decreases n,
{
    if n < 0x80 {
        let mut r: Vec<u8> = Vec::new();
        r.push(n as u8);
        proof {
            assert(r@ =~= leb128(n as nat));
        }
        r
    } else {
        let mut r: Vec<u8> = Vec::new();
        r.push(0x80 + (n % 0x80) as u8);
        let mut rest = leb128_bytes(n / 0x80);
        r.append(&mut rest);
        proof {
            assert(r@ =~= leb128(n as nat));
        }
        r
    }
}

} // verus!
