//! URL-safe base64 without padding, over bytes, with a round trip proof.
//!
//! The alphabet and the padding rules are those of the token wire format:
//! `A`-`Z`, `a`-`z`, `0`-`9`, `-`, `_`, no `=` padding, and a strict decoder
//! that accepts only the canonical encoding of a byte string.
use vstd::arithmetic::div_mod::{lemma_fundamental_div_mod, lemma_fundamental_div_mod_converse};
use vstd::prelude::*;

verus! {

/// The alphabet character for a six-bit value.
pub open spec fn b64_char(v: u8) -> u8 {
    if v < 26 {
        (65 + v) as u8
    } else if v < 52 {
        (97 + (v - 26)) as u8
    } else if v < 62 {
        (48 + (v - 52)) as u8
    } else if v == 62 {
        45
    } else {
        95
    }
}

/// The six-bit value of an alphabet character, -1 for a byte outside it.
pub open spec fn b64_val(c: u8) -> int {
    if 65 <= c <= 90 {
        c - 65
    } else if 97 <= c <= 122 {
        c - 97 + 26
    } else if 48 <= c <= 57 {
        c - 48 + 52
    } else if c == 45 {
        62
    } else if c == 95 {
        63
    } else {
        -1
    }
}

pub open spec fn is_b64_byte(c: u8) -> bool {
    b64_val(c) >= 0
}

pub open spec fn enc3(b0: u8, b1: u8, b2: u8) -> Seq<u8> {
    seq![
        b64_char((b0 / 4) as u8),
        b64_char(((b0 % 4) * 16 + b1 / 16) as u8),
        b64_char(((b1 % 16) * 4 + b2 / 64) as u8),
        b64_char((b2 % 64) as u8),
    ]
}

pub open spec fn enc2(b0: u8, b1: u8) -> Seq<u8> {
    seq![
        b64_char((b0 / 4) as u8),
        b64_char(((b0 % 4) * 16 + b1 / 16) as u8),
        b64_char(((b1 % 16) * 4) as u8),
    ]
}

pub open spec fn enc1(b0: u8) -> Seq<u8> {
    seq![b64_char((b0 / 4) as u8), b64_char(((b0 % 4) * 16) as u8)]
}

/// Canonical encoding of a byte string.
pub open spec fn b64_encode(s: Seq<u8>) -> Seq<u8>
    decreases s.len(),
{
    if s.len() >= 3 {
        enc3(s[0], s[1], s[2]) + b64_encode(s.skip(3))
    } else if s.len() == 2 {
        enc2(s[0], s[1])
    } else if s.len() == 1 {
        enc1(s[0])
    } else {
        Seq::empty()
    }
}

/// Strict decoding: `Some` exactly on canonical encodings.
pub open spec fn b64_decode(s: Seq<u8>) -> Option<Seq<u8>>
    decreases s.len(),
{
    if s.len() == 0 {
        Some(Seq::empty())
    } else if s.len() == 1 {
        None
    } else if s.len() == 2 {
        let v0 = b64_val(s[0]);
        let v1 = b64_val(s[1]);
        if v0 >= 0 && v1 >= 0 && v1 % 16 == 0 {
            Some(seq![(v0 * 4 + v1 / 16) as u8])
        } else {
            None
        }
    } else if s.len() == 3 {
        let v0 = b64_val(s[0]);
        let v1 = b64_val(s[1]);
        let v2 = b64_val(s[2]);
        if v0 >= 0 && v1 >= 0 && v2 >= 0 && v2 % 4 == 0 {
            Some(seq![(v0 * 4 + v1 / 16) as u8, ((v1 % 16) * 16 + v2 / 4) as u8])
        } else {
            None
        }
    } else {
        let v0 = b64_val(s[0]);
        let v1 = b64_val(s[1]);
        let v2 = b64_val(s[2]);
        let v3 = b64_val(s[3]);
        if v0 >= 0 && v1 >= 0 && v2 >= 0 && v3 >= 0 {
            match b64_decode(s.skip(4)) {
                Some(r) => Some(
                    seq![
                        (v0 * 4 + v1 / 16) as u8,
                        ((v1 % 16) * 16 + v2 / 4) as u8,
                        ((v2 % 4) * 64 + v3) as u8,
                    ] + r,
                ),
                None => None,
            }
        } else {
            None
        }
    }
}

pub proof fn lemma_b64_char_val(v: u8)
    requires
        v < 64,
    ensures
        b64_val(b64_char(v)) == v,
        is_b64_byte(b64_char(v)),
        b64_char(v) != 46,
        b64_char(v) < 128,
{
}

/// Every byte of an encoding is in the alphabet: in particular it is ASCII
/// and is not the segment separator `.`.
pub proof fn lemma_encode_alphabet(s: Seq<u8>)
    ensures
        forall|i: int|
            0 <= i < b64_encode(s).len() ==> is_b64_byte(#[trigger] b64_encode(s)[i])
                && b64_encode(s)[i] != 46 && b64_encode(s)[i] < 128,
    decreases s.len(),
{
    if s.len() >= 3 {
        lemma_encode_alphabet(s.skip(3));
        assert forall|i: int| 0 <= i < b64_encode(s).len() implies is_b64_byte(
            #[trigger] b64_encode(s)[i],
        ) && b64_encode(s)[i] != 46 && b64_encode(s)[i] < 128 by {
            if i < 4 {
                lemma_b64_char_val((s[0] / 4) as u8);
                lemma_b64_char_val(((s[0] % 4) * 16 + s[1] / 16) as u8);
                lemma_b64_char_val(((s[1] % 16) * 4 + s[2] / 64) as u8);
                lemma_b64_char_val((s[2] % 64) as u8);
            } else {
                assert(b64_encode(s)[i] == b64_encode(s.skip(3))[i - 4]);
            }
        }
    } else if s.len() == 2 {
        lemma_b64_char_val((s[0] / 4) as u8);
        lemma_b64_char_val(((s[0] % 4) * 16 + s[1] / 16) as u8);
        lemma_b64_char_val(((s[1] % 16) * 4) as u8);
    } else if s.len() == 1 {
        lemma_b64_char_val((s[0] / 4) as u8);
        lemma_b64_char_val(((s[0] % 4) * 16) as u8);
    }
}

/// Encoding distributes over a split at a multiple of three bytes.
pub proof fn lemma_b64_encode_append(a: Seq<u8>, b: Seq<u8>)
    requires
        a.len() % 3 == 0,
    ensures
        b64_encode(a + b) == b64_encode(a) + b64_encode(b),
    decreases a.len(),
{
    if a.len() == 0 {
        assert(a + b =~= b);
        assert(b64_encode(a) + b64_encode(b) =~= b64_encode(b));
    } else {
        assert(a.len() >= 3);
        assert((a + b).skip(3) =~= a.skip(3) + b);
        assert(a.skip(3).len() % 3 == 0);
        lemma_b64_encode_append(a.skip(3), b);
        if a.len() == 3 {
            assert(a.skip(3) =~= Seq::<u8>::empty());
        }
        assert((a + b)[0] == a[0] && (a + b)[1] == a[1] && (a + b)[2] == a[2]);
        assert(b64_encode(a + b) =~= b64_encode(a) + b64_encode(b));
    }
}

/// The three bytes of a chunk are recovered from its four characters.
proof fn lemma_chunk_bytes(b0: u8, b1: u8, b2: u8)
    ensures
        ({
            let v0 = (b0 / 4) as int;
            let v1 = ((b0 % 4) * 16 + b1 / 16) as int;
            let v2 = ((b1 % 16) * 4 + b2 / 64) as int;
            let v3 = (b2 % 64) as int;
            v0 * 4 + v1 / 16 == b0 && (v1 % 16) * 16 + v2 / 4 == b1 && (v2 % 4) * 64 + v3 == b2
        }),
{
    let v1 = ((b0 % 4) * 16 + b1 / 16) as int;
    let v2 = ((b1 % 16) * 4 + b2 / 64) as int;
    lemma_fundamental_div_mod(b0 as int, 4);
    lemma_fundamental_div_mod(b1 as int, 16);
    lemma_fundamental_div_mod(b2 as int, 64);
    lemma_fundamental_div_mod_converse(v1, 16, b0 as int % 4, b1 as int / 16);
    lemma_fundamental_div_mod_converse(v2, 4, b1 as int % 16, b2 as int / 64);
}

/// Round trip: decoding an encoding gives back the bytes.
pub proof fn lemma_b64_roundtrip(s: Seq<u8>)
    ensures
        b64_decode(b64_encode(s)) == Some(s),
    decreases s.len(),
{
    let e = b64_encode(s);
    if s.len() == 0 {
        assert(e =~= Seq::<u8>::empty());
        assert(b64_decode(e) == Some(Seq::<u8>::empty()));
        assert(Seq::<u8>::empty() =~= s);
    } else if s.len() == 1 {
        let b0 = s[0];
        lemma_b64_char_val((b0 / 4) as u8);
        lemma_b64_char_val(((b0 % 4) * 16) as u8);
        assert(e.len() == 2);
        let v0 = b64_val(e[0]);
        let v1 = b64_val(e[1]);
        assert(v0 == b0 / 4 && v1 == (b0 % 4) * 16);
        assert(v1 % 16 == 0 && v1 / 16 == b0 % 4) by {
            lemma_fundamental_div_mod_converse(v1, 16, b0 as int % 4, 0);
        }
        lemma_fundamental_div_mod(b0 as int, 4);
        assert(b64_decode(e) == Some(seq![(v0 * 4 + v1 / 16) as u8]));
        assert(seq![(v0 * 4 + v1 / 16) as u8] =~= s);
    } else if s.len() == 2 {
        let b0 = s[0];
        let b1 = s[1];
        lemma_b64_char_val((b0 / 4) as u8);
        lemma_b64_char_val(((b0 % 4) * 16 + b1 / 16) as u8);
        lemma_b64_char_val(((b1 % 16) * 4) as u8);
        assert(e.len() == 3);
        let v0 = b64_val(e[0]);
        let v1 = b64_val(e[1]);
        let v2 = b64_val(e[2]);
        assert(v0 == b0 / 4 && v1 == (b0 % 4) * 16 + b1 / 16 && v2 == (b1 % 16) * 4);
        assert(v1 / 16 == b0 % 4 && v1 % 16 == b1 / 16) by {
            lemma_fundamental_div_mod_converse(v1, 16, b0 as int % 4, b1 as int / 16);
        }
        assert(v2 % 4 == 0 && v2 / 4 == b1 % 16) by {
            lemma_fundamental_div_mod_converse(v2, 4, b1 as int % 16, 0);
        }
        lemma_fundamental_div_mod(b0 as int, 4);
        lemma_fundamental_div_mod(b1 as int, 16);
        assert(b64_decode(e) == Some(seq![(v0 * 4 + v1 / 16) as u8, ((v1 % 16) * 16 + v2 / 4) as u8]));
        assert(seq![(v0 * 4 + v1 / 16) as u8, ((v1 % 16) * 16 + v2 / 4) as u8] =~= s);
    } else {
        let b0 = s[0];
        let b1 = s[1];
        let b2 = s[2];
        let rest = b64_encode(s.skip(3));
        lemma_b64_roundtrip(s.skip(3));
        assert(e =~= enc3(b0, b1, b2) + rest);
        lemma_b64_char_val((b0 / 4) as u8);
        lemma_b64_char_val(((b0 % 4) * 16 + b1 / 16) as u8);
        lemma_b64_char_val(((b1 % 16) * 4 + b2 / 64) as u8);
        lemma_b64_char_val((b2 % 64) as u8);
        assert(e.len() == 4 + rest.len());
        assert(e[0] == enc3(b0, b1, b2)[0] && e[1] == enc3(b0, b1, b2)[1] && e[2] == enc3(
            b0,
            b1,
            b2,
        )[2] && e[3] == enc3(b0, b1, b2)[3]);
        let v0 = b64_val(e[0]);
        let v1 = b64_val(e[1]);
        let v2 = b64_val(e[2]);
        let v3 = b64_val(e[3]);
        assert(v0 >= 0 && v1 >= 0 && v2 >= 0 && v3 >= 0);
        assert(e.skip(4) =~= rest);
        lemma_chunk_bytes(b0, b1, b2);
        assert(seq![(v0 * 4 + v1 / 16) as u8, ((v1 % 16) * 16 + v2 / 4) as u8, ((v2 % 4) * 64
            + v3) as u8] + s.skip(3) =~= s);
    }
}

/// The alphabet character for a six-bit value.
fn enc_char(v: u8) -> (r: u8)
    requires
        v < 64,
    ensures
        r == b64_char(v),
{
    if v < 26 {
        65 + v
    } else if v < 52 {
        97 + (v - 26)
    } else if v < 62 {
        48 + (v - 52)
    } else if v == 62 {
        45
    } else {
        95
    }
}

/// The six-bit value of an alphabet character.
fn dec_val(c: u8) -> (r: Option<u8>)
    ensures
        match r {
            Some(v) => b64_val(c) == v as int && v < 64,
            None => b64_val(c) < 0,
        },
{
    if 65 <= c && c <= 90 {
        Some(c - 65)
    } else if 97 <= c && c <= 122 {
        Some(c - 97 + 26)
    } else if 48 <= c && c <= 57 {
        Some(c - 48 + 52)
    } else if c == 45 {
        Some(62)
    } else if c == 95 {
        Some(63)
    } else {
        None
    }
}

/// Encodes a byte string.
pub fn b64_encode_bytes(input: &Vec<u8>) -> (r: Vec<u8>)
    ensures
        r@ == b64_encode(input@),
{
    let n = input.len();
    let mut out: Vec<u8> = Vec::new();
    let mut i: usize = 0;
    proof {
        assert(input@.take(0) =~= Seq::<u8>::empty());
    }
    while n - i >= 3
        invariant
            n == input.len(),
            i <= n,
            i % 3 == 0,
            out@ == b64_encode(input@.take(i as int)),
        decreases n - i,
    {
        let b0 = input[i];
        let b1 = input[i + 1];
        let b2 = input[i + 2];
        out.push(enc_char(b0 / 4));
        out.push(enc_char((b0 % 4) * 16 + b1 / 16));
        out.push(enc_char((b1 % 16) * 4 + b2 / 64));
        out.push(enc_char(b2 % 64));
        proof {
            let a = input@.take(i as int);
            let chunk = input@.subrange(i as int, i + 3);
            lemma_b64_encode_append(a, chunk);
            assert(a + chunk =~= input@.take(i + 3));
            assert(chunk.len() == 3);
            assert(chunk[0] == b0 && chunk[1] == b1 && chunk[2] == b2);
            assert(chunk.skip(3) =~= Seq::<u8>::empty());
            assert(b64_encode(chunk.skip(3)) == Seq::<u8>::empty());
            assert(b64_encode(chunk) == enc3(b0, b1, b2) + b64_encode(chunk.skip(3)));
            assert(enc3(b0, b1, b2) + Seq::<u8>::empty() =~= enc3(b0, b1, b2));
            assert(out@ =~= b64_encode(input@.take(i + 3)));
        }
        i = i + 3;
    }
    proof {
        let a = input@.take(i as int);
        let tail = input@.subrange(i as int, n as int);
        lemma_b64_encode_append(a, tail);
        assert(a + tail =~= input@);
    }
    if n - i == 2 {
        let b0 = input[i];
        let b1 = input[i + 1];
        out.push(enc_char(b0 / 4));
        out.push(enc_char((b0 % 4) * 16 + b1 / 16));
        out.push(enc_char((b1 % 16) * 4));
        proof {
            let tail = input@.subrange(i as int, n as int);
            assert(b64_encode(tail) =~= enc2(b0, b1));
            assert(out@ =~= b64_encode(input@));
        }
    } else if n - i == 1 {
        let b0 = input[i];
        out.push(enc_char(b0 / 4));
        out.push(enc_char((b0 % 4) * 16));
        proof {
            let tail = input@.subrange(i as int, n as int);
            assert(b64_encode(tail) =~= enc1(b0));
            assert(out@ =~= b64_encode(input@));
        }
    } else {
        proof {
            let tail = input@.subrange(i as int, n as int);
            assert(tail =~= Seq::<u8>::empty());
            assert(out@ =~= b64_encode(input@));
        }
    }
    out
}

/// Decodes a byte string; `None` unless it is a canonical encoding.
pub fn b64_decode_bytes(input: &Vec<u8>) -> (r: Option<Vec<u8>>)
    ensures
        match r {
            Some(v) => b64_decode(input@) == Some(v@),
            None => b64_decode(input@) is None,
        },
{
    let n = input.len();
    let mut out: Vec<u8> = Vec::new();
    let mut i: usize = 0;
    proof {
        assert(input@.skip(0) =~= input@);
        if let Some(t) = b64_decode(input@) {
            assert(out@ + t =~= t);
        }
    }
    while n - i >= 4
        invariant
            n == input.len(),
            i <= n,
            i % 4 == 0,
            b64_decode(input@) == match b64_decode(input@.skip(i as int)) {
                Some(t) => Some(out@ + t),
                None => None::<Seq<u8>>,
            },
        decreases n - i,
    {
        let ghost pre = input@.skip(i as int);
        let c0 = dec_val(input[i]);
        let c1 = dec_val(input[i + 1]);
        let c2 = dec_val(input[i + 2]);
        let c3 = dec_val(input[i + 3]);
        proof {
            assert(pre.len() >= 4);
            assert(pre[0] == input@[i as int] && pre[1] == input@[i + 1] && pre[2] == input@[i + 2]
                && pre[3] == input@[i + 3]);
        }
        let ghost out_pre = out@;
        match (c0, c1, c2, c3) {
            (Some(v0), Some(v1), Some(v2), Some(v3)) => {
                out.push(v0 * 4 + v1 / 16);
                out.push((v1 % 16) * 16 + v2 / 4);
                out.push((v2 % 4) * 64 + v3);
                proof {
                    assert(pre.skip(4) =~= input@.skip(i + 4));
                    assert(match b64_decode(input@.skip(i + 4)) {
                        Some(t) => b64_decode(pre) == Some(
                            seq![
                                (v0 as int * 4 + v1 as int / 16) as u8,
                                ((v1 as int % 16) * 16 + v2 as int / 4) as u8,
                                ((v2 as int % 4) * 64 + v3 as int) as u8,
                            ] + t,
                        ),
                        None => b64_decode(pre) is None,
                    });
                    assert(b64_decode(input@) == match b64_decode(input@.skip(i + 4)) {
                        Some(t) => Some(out@ + t),
                        None => None::<Seq<u8>>,
                    }) by {
                        if let Some(t) = b64_decode(input@.skip(i + 4)) {
                            assert(out@ + t =~= out_pre + (seq![
                                (v0 as int * 4 + v1 as int / 16) as u8,
                                ((v1 as int % 16) * 16 + v2 as int / 4) as u8,
                                ((v2 as int % 4) * 64 + v3 as int) as u8,
                            ] + t));
                        }
                    }
                }
                i = i + 4;
            },
            _ => {
                proof {
                    assert(b64_decode(pre) is None);
                }
                return None;
            },
        }
    }
    let rem = n - i;
    if rem == 0 {
        proof {
            assert(input@.skip(i as int) =~= Seq::<u8>::empty());
            assert(out@ + Seq::<u8>::empty() =~= out@);
        }
        Some(out)
    } else if rem == 1 {
        None
    } else if rem == 2 {
        let ghost pre = input@.skip(i as int);
        proof {
            assert(pre.len() == 2);
            assert(pre[0] == input@[i as int] && pre[1] == input@[i + 1]);
        }
        let c0 = dec_val(input[i]);
        let c1 = dec_val(input[i + 1]);
        let ghost out_pre = out@;
        match (c0, c1) {
            (Some(v0), Some(v1)) => {
                if v1 % 16 == 0 {
                    out.push(v0 * 4 + v1 / 16);
                    proof {
                        assert(b64_decode(pre) == Some(seq![(v0 as int * 4 + v1 as int / 16) as u8]));
                        assert(out@ =~= out_pre + seq![(v0 as int * 4 + v1 as int / 16) as u8]);
                    }
                    Some(out)
                } else {
                    None
                }
            },
            _ => None,
        }
    } else {
        let ghost pre = input@.skip(i as int);
        proof {
            assert(pre.len() == 3);
            assert(pre[0] == input@[i as int] && pre[1] == input@[i + 1] && pre[2] == input@[i
                + 2]);
        }
        let c0 = dec_val(input[i]);
        let c1 = dec_val(input[i + 1]);
        let c2 = dec_val(input[i + 2]);
        let ghost out_pre = out@;
        match (c0, c1, c2) {
            (Some(v0), Some(v1), Some(v2)) => {
                if v2 % 4 == 0 {
                    out.push(v0 * 4 + v1 / 16);
                    out.push((v1 % 16) * 16 + v2 / 4);
                    proof {
                        assert(b64_decode(pre) == Some(
                            seq![
                                (v0 as int * 4 + v1 as int / 16) as u8,
                                ((v1 as int % 16) * 16 + v2 as int / 4) as u8,
                            ],
                        ));
                        assert(out@ =~= out_pre + seq![
                            (v0 as int * 4 + v1 as int / 16) as u8,
                            ((v1 as int % 16) * 16 + v2 as int / 4) as u8,
                        ]);
                    }
                    Some(out)
                } else {
                    None
                }
            },
            _ => None,
        }
    }
}

} // verus!
