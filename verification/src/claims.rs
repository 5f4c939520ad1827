//! The claims payload: a JSON object with the subject and the expiry,
//! rendered canonically and parsed back, with a round trip proof.
//!
//! The subject may hold arbitrary bytes; `"`, `\` and control bytes are
//! escaped as JSON demands. The parser is strict: it accepts exactly the
//! canonical form this module produces.
use crate::nums::{dec_digits, digit_span, digits_val, is_digit, parse_nat};
use vstd::arithmetic::div_mod::lemma_fundamental_div_mod;
use vstd::prelude::*;

verus! {

pub open spec fn is_hex_lower(b: u8) -> bool {
    48 <= b <= 57 || 97 <= b <= 102
}

pub open spec fn hex_digit(v: nat) -> u8 {
    if v < 10 {
        (48 + v) as u8
    } else {
        (87 + v) as u8
    }
}

pub open spec fn hex_val(b: u8) -> nat {
    if 48 <= b <= 57 {
        (b - 48) as nat
    } else if 97 <= b <= 102 {
        (b - 87) as nat
    } else {
        0
    }
}

/// JSON escape of one byte of string content.
pub open spec fn esc_byte(b: u8) -> Seq<u8> {
    if b == 34 {
        seq![92u8, 34u8]
    } else if b == 92 {
        seq![92u8, 92u8]
    } else if b < 32 {
        seq![92u8, 117u8, 48u8, 48u8, hex_digit((b / 16) as nat), hex_digit((b % 16) as nat)]
    } else {
        seq![b]
    }
}

/// JSON escape of string content.
pub open spec fn esc(s: Seq<u8>) -> Seq<u8>
    decreases s.len(),
{
    if s.len() == 0 {
        Seq::empty()
    } else {
        esc_byte(s[0]) + esc(s.skip(1))
    }
}

/// Parses JSON string content up to an unescaped closing quote; yields the
/// unescaped content and the remainder after the quote. Strict: of the
/// escapes it accepts exactly those that `esc` emits.
pub open spec fn parse_string_body(s: Seq<u8>) -> Option<(Seq<u8>, Seq<u8>)>
    decreases s.len(),
{
    if s.len() == 0 {
        None
    } else if s[0] == 34 {
        Some((Seq::empty(), s.skip(1)))
    } else if s[0] == 92 {
        if s.len() >= 2 && (s[1] == 34 || s[1] == 92) {
            match parse_string_body(s.skip(2)) {
                Some((c, r)) => Some((seq![s[1]] + c, r)),
                None => None,
            }
        } else if s.len() >= 6 && s[1] == 117 && s[2] == 48 && s[3] == 48 && is_hex_lower(s[4])
            && is_hex_lower(s[5]) && hex_val(s[4]) * 16 + hex_val(s[5]) < 32 {
            match parse_string_body(s.skip(6)) {
                Some((c, r)) => Some((seq![(hex_val(s[4]) * 16 + hex_val(s[5])) as u8] + c, r)),
                None => None,
            }
        } else {
            None
        }
    } else if s[0] < 32 {
        None
    } else {
        match parse_string_body(s.skip(1)) {
            Some((c, r)) => Some((seq![s[0]] + c, r)),
            None => None,
        }
    }
}

/// The bytes of `{"sub":"`.
pub open spec fn payload_prefix() -> Seq<u8> {
    seq![123u8, 34u8, 115u8, 117u8, 98u8, 34u8, 58u8, 34u8]
}

/// The bytes of `","exp":` that follow the subject's closing quote.
pub open spec fn payload_mid() -> Seq<u8> {
    seq![44u8, 34u8, 101u8, 120u8, 112u8, 34u8, 58u8]
}

/// The canonical claims object `{"sub":"...","exp":N}`.
pub open spec fn json_payload(sub: Seq<u8>, exp: nat) -> Seq<u8> {
    payload_prefix() + esc(sub) + seq![34u8] + payload_mid() + dec_digits(exp) + seq![125u8]
}

/// Strict parse of the claims object: the subject bytes and the expiry.
pub open spec fn parse_payload(j: Seq<u8>) -> Option<(Seq<u8>, nat)> {
    if j.len() < 8 || j.take(8) != payload_prefix() {
        None
    } else {
        match parse_string_body(j.skip(8)) {
            None => None,
            Some((sub, r)) => {
                if r.len() < 7 || r.take(7) != payload_mid() {
                    None
                } else {
                    match parse_nat(r.skip(7)) {
                        None => None,
                        Some((n, r2)) => {
                            if r2 == seq![125u8] {
                                Some((sub, n))
                            } else {
                                None
                            }
                        },
                    }
                }
            },
        }
    }
}

pub proof fn lemma_esc_append(a: Seq<u8>, b: Seq<u8>)
    ensures
        esc(a + b) == esc(a) + esc(b),
    decreases a.len(),
{
    if a.len() == 0 {
        assert(a + b =~= b);
        assert(esc(a) + esc(b) =~= esc(b));
    } else {
        assert((a + b).skip(1) =~= a.skip(1) + b);
        lemma_esc_append(a.skip(1), b);
        assert(esc(a + b) =~= esc(a) + esc(b));
    }
}

/// Round trip: escaped content followed by the closing quote parses back to
/// the content, leaving the remainder untouched.
pub proof fn lemma_parse_esc(sub: Seq<u8>, rest: Seq<u8>)
    ensures
        parse_string_body(esc(sub) + seq![34u8] + rest) == Some((sub, rest)),
    decreases sub.len(),
{
    let s = esc(sub) + seq![34u8] + rest;
    if sub.len() == 0 {
        assert(s =~= seq![34u8] + rest);
        assert(s[0] == 34);
        assert(s.skip(1) =~= rest);
    } else {
        let b = sub[0];
        let tail = sub.skip(1);
        lemma_parse_esc(tail, rest);
        let inner = esc(tail) + seq![34u8] + rest;
        assert(s =~= esc_byte(b) + inner) by {
            assert(esc(sub) =~= esc_byte(b) + esc(tail));
        }
        if b == 34 || b == 92 {
            assert(s[0] == 92 && s[1] == b);
            assert(s.skip(2) =~= inner);
            assert(seq![b] + tail =~= sub);
        } else if b < 32 {
            let h1 = hex_digit((b / 16) as nat);
            let h2 = hex_digit((b % 16) as nat);
            assert(s[0] == 92 && s[1] == 117 && s[2] == 48 && s[3] == 48 && s[4] == h1 && s[5]
                == h2);
            assert(0 <= b % 16 < 16 && 0 <= b / 16 < 2) by {
                lemma_fundamental_div_mod(b as int, 16);
            }
            assert(is_hex_lower(h1) && is_hex_lower(h2));
            assert(hex_val(h1) == b / 16 && hex_val(h2) == b % 16);
            assert(hex_val(h1) * 16 + hex_val(h2) == b) by {
                lemma_fundamental_div_mod(b as int, 16);
            }
            assert(s.skip(6) =~= inner);
            assert(seq![(hex_val(s[4]) * 16 + hex_val(s[5])) as u8] + tail =~= sub);
        } else {
            assert(s[0] == b && b != 34 && b != 92 && b >= 32);
            assert(s.skip(1) =~= inner);
            assert(seq![b] + tail =~= sub);
        }
    }
}

/// The digit span is exactly the index of the first non-digit.
pub proof fn lemma_digit_span_char(s: Seq<u8>, m: int)
    requires
        0 <= m <= s.len(),
        forall|k: int| 0 <= k < m ==> is_digit(#[trigger] s[k]),
        m == s.len() || !is_digit(s[m]),
    ensures
        digit_span(s) == m,
    decreases m,
{
    if m == 0 {
    } else {
        assert(is_digit(s[0]));
        lemma_digit_span_char(s.skip(1), m - 1);
    }
}

/// Round trip: the canonical claims object parses back to its fields.
pub proof fn lemma_parse_payload_roundtrip(sub: Seq<u8>, exp: nat)
    ensures
        parse_payload(json_payload(sub, exp)) == Some((sub, exp)),
{
    let j = json_payload(sub, exp);
    let after_sub = payload_mid() + dec_digits(exp) + seq![125u8];
    assert(j.take(8) =~= payload_prefix());
    assert(j.skip(8) =~= esc(sub) + seq![34u8] + after_sub);
    lemma_parse_esc(sub, after_sub);
    assert(after_sub.take(7) =~= payload_mid());
    assert(after_sub.skip(7) =~= dec_digits(exp) + seq![125u8]);
    crate::nums::lemma_parse_nat_roundtrip(exp, seq![125u8]);
}

/// The hexadecimal digit for a value below sixteen.
fn hex_char(v: u8) -> (r: u8)
    requires
        v < 16,
    ensures
        r == hex_digit(v as nat),
{
    if v < 10 {
        48 + v
    } else {
        87 + v
    }
}

/// The value of a lowercase hexadecimal digit.
fn hex_value(b: u8) -> (r: Option<u8>)
    ensures
        match r {
            Some(v) => is_hex_lower(b) && hex_val(b) == v as nat && v < 16,
            None => !is_hex_lower(b),
        },
{
    if 48 <= b && b <= 57 {
        Some(b - 48)
    } else if 97 <= b && b <= 102 {
        Some(b - 87)
    } else {
        None
    }
}

/// Renders the canonical claims object for a subject and an expiry.
pub fn build_payload(sub: &Vec<u8>, exp: u64) -> (r: Vec<u8>)
    ensures
        r@ == json_payload(sub@, exp as nat),
{
    let mut out: Vec<u8> = vec![123u8, 34u8, 115u8, 117u8, 98u8, 34u8, 58u8, 34u8];
    proof {
        assert(out@ =~= payload_prefix());
        assert(sub@.take(0) =~= Seq::<u8>::empty());
        assert(out@ =~= payload_prefix() + esc(sub@.take(0)));
    }
    let n = sub.len();
    let mut i: usize = 0;
    while i < n
        invariant
            n == sub.len(),
            i <= n,
            out@ == payload_prefix() + esc(sub@.take(i as int)),
        decreases n - i,
    {
        let b = sub[i];
        if b == 34 || b == 92 {
            out.push(92);
            out.push(b);
        } else if b < 32 {
            out.push(92);
            out.push(117);
            out.push(48);
            out.push(48);
            out.push(hex_char(b / 16));
            out.push(hex_char(b % 16));
        } else {
            out.push(b);
        }
        proof {
            lemma_esc_append(sub@.take(i as int), seq![b]);
            assert(sub@.take(i as int) + seq![b] =~= sub@.take(i + 1));
            assert(seq![b].skip(1) =~= Seq::<u8>::empty());
            assert(esc(seq![b]) == esc_byte(b) + esc(Seq::<u8>::empty()));
            assert(esc(seq![b]) =~= esc_byte(b));
            assert(out@ =~= payload_prefix() + esc(sub@.take(i + 1)));
        }
        i = i + 1;
    }
    proof {
        assert(sub@.take(n as int) =~= sub@);
    }
    out.push(34);
    let mid: Vec<u8> = vec![44u8, 34u8, 101u8, 120u8, 112u8, 34u8, 58u8];
    proof {
        assert(mid@ =~= payload_mid());
    }
    let mut m = mid;
    out.append(&mut m);
    let mut d = crate::nums::format_u64(exp);
    out.append(&mut d);
    out.push(125);
    proof {
        assert(out@ =~= json_payload(sub@, exp as nat));
    }
    out
}

/// Parses the canonical claims object; yields the subject bytes and the
/// expiry. `None` when the object is not canonical or the expiry does not
/// fit the timestamp type.
pub fn parse_payload_vec(j: &Vec<u8>) -> (r: Option<(Vec<u8>, u64)>)
    ensures
        match r {
            Some(p) => parse_payload(j@) == Some((p.0@, p.1 as nat)),
            None => match parse_payload(j@) {
                Some(q) => q.1 > u64::MAX,
                None => true,
            },
        },
{
    let n = j.len();
    if n < 8 {
        return None;
    }
    let pre: Vec<u8> = vec![123u8, 34u8, 115u8, 117u8, 98u8, 34u8, 58u8, 34u8];
    proof {
        assert(pre@ =~= payload_prefix());
    }
    let mut k: usize = 0;
    while k < 8
        invariant
            n == j.len(),
            n >= 8,
            pre@ == payload_prefix(),
            k <= 8,
            forall|t: int| 0 <= t < k ==> j@[t] == payload_prefix()[t],
        decreases 8 - k,
    {
        if j[k] != pre[k] {
            proof {
                assert(j@.take(8)[k as int] != payload_prefix()[k as int]);
            }
            return None;
        }
        k = k + 1;
    }
    proof {
        assert(j@.take(8) =~= payload_prefix());
    }
    // String content of the subject.
    let mut sub: Vec<u8> = Vec::new();
    let mut i: usize = 8;
    proof {
        assert(j@.skip(8) =~= j@.skip(8));
    }
    loop
        invariant_except_break
            parse_string_body(j@.skip(8)) == match parse_string_body(j@.skip(i as int)) {
                Some(p) => Some((sub@ + p.0, p.1)),
                None => None::<(Seq<u8>, Seq<u8>)>,
            },
        invariant
            n == j.len(),
            8 <= i <= n,
        ensures
            parse_string_body(j@.skip(8)) == Some((sub@, j@.skip(i as int))),
        decreases n - i,
    {
        if i == n {
            proof {
                assert(j@.skip(i as int).len() == 0);
            }
            return None;
        }
        let ghost s = j@.skip(i as int);
        let ghost sub_pre = sub@;
        proof {
            assert(s.len() == n - i);
            assert(s[0] == j@[i as int]);
        }
        let b = j[i];
        if b == 34 {
            proof {
                assert(s.skip(1) =~= j@.skip(i + 1));
                assert(sub@ + Seq::<u8>::empty() =~= sub@);
            }
            i = i + 1;
            break;
        } else if b == 92 {
            if n - i < 2 {
                proof {
                    assert(s.len() < 2);
                    assert(parse_string_body(s) is None);
                }
                return None;
            }
            let c = j[i + 1];
            proof {
                assert(s[1] == j@[i + 1]);
            }
            if c == 34 || c == 92 {
                sub.push(c);
                proof {
                    assert(s.skip(2) =~= j@.skip(i + 2));
                    if let Some(p) = parse_string_body(j@.skip(i + 2)) {
                        assert(sub@ + p.0 =~= sub_pre + (seq![c] + p.0));
                    }
                }
                i = i + 2;
            } else if c == 117 {
                if n - i < 6 {
                    proof {
                        assert(s.len() < 6);
                        assert(parse_string_body(s) is None);
                    }
                    return None;
                }
                proof {
                    assert(s[2] == j@[i + 2] && s[3] == j@[i + 3] && s[4] == j@[i + 4] && s[5]
                        == j@[i + 5]);
                }
                if j[i + 2] != 48 || j[i + 3] != 48 {
                    return None;
                }
                let h1 = hex_value(j[i + 4]);
                let h2 = hex_value(j[i + 5]);
                match (h1, h2) {
                    (Some(v1), Some(v2)) => {
                        let v = v1 * 16 + v2;
                        if v >= 32 {
                            return None;
                        }
                        sub.push(v);
                        proof {
                            assert(s.skip(6) =~= j@.skip(i + 6));
                            if let Some(p) = parse_string_body(j@.skip(i + 6)) {
                                assert(sub@ + p.0 =~= sub_pre + (seq![v] + p.0));
                            }
                        }
                        i = i + 6;
                    },
                    _ => {
                        return None;
                    },
                }
            } else {
                return None;
            }
        } else if b < 32 {
            return None;
        } else {
            sub.push(b);
            proof {
                assert(s.skip(1) =~= j@.skip(i + 1));
                if let Some(p) = parse_string_body(j@.skip(i + 1)) {
                    assert(sub@ + p.0 =~= sub_pre + (seq![b] + p.0));
                }
            }
            i = i + 1;
        }
    }
    // The remainder after the subject's closing quote.
    let ghost rest = j@.skip(i as int);
    proof {
        assert(parse_string_body(j@.skip(8)) == Some((sub@, rest)));
    }
    if n - i < 7 {
        proof {
            assert(rest.len() < 7);
        }
        return None;
    }
    let mid: Vec<u8> = vec![44u8, 34u8, 101u8, 120u8, 112u8, 34u8, 58u8];
    proof {
        assert(mid@ =~= payload_mid());
    }
    let mut k2: usize = 0;
    while k2 < 7
        invariant
            n == j.len(),
            8 <= i <= n,
            n - i >= 7,
            rest == j@.skip(i as int),
            j@.take(8) == payload_prefix(),
            parse_string_body(j@.skip(8)) == Some((sub@, rest)),
            mid@ == payload_mid(),
            k2 <= 7,
            forall|t: int| 0 <= t < k2 ==> rest[t] == payload_mid()[t],
        decreases 7 - k2,
    {
        proof {
            assert(rest[k2 as int] == j@[i + k2]);
        }
        if j[i + k2] != mid[k2] {
            proof {
                assert(rest.take(7)[k2 as int] != payload_mid()[k2 as int]);
                assert(rest.take(7) != payload_mid());
            }
            return None;
        }
        k2 = k2 + 1;
    }
    proof {
        assert(rest.take(7) =~= payload_mid());
    }
    // The expiry digits.
    let ghost digits_zone = rest.skip(7);
    let start = i + 7;
    proof {
        assert(digits_zone =~= j@.skip(start as int));
    }
    let mut pos: usize = start;
    while pos < n && 48 <= j[pos] && j[pos] <= 57
        invariant
            n == j.len(),
            start <= pos <= n,
            digits_zone == j@.skip(start as int),
            forall|t: int| 0 <= t < pos - start ==> is_digit(#[trigger] digits_zone[t]),
        decreases n - pos,
    {
        proof {
            assert(digits_zone[pos - start] == j@[pos as int]);
        }
        pos = pos + 1;
    }
    proof {
        if pos < n {
            assert(digits_zone[pos - start] == j@[pos as int]);
            assert(!is_digit(digits_zone[pos - start]));
        }
        lemma_digit_span_char(digits_zone, pos - start);
    }
    let klen = pos - start;
    if klen == 0 {
        return None;
    }
    proof {
        assert(digits_zone[0] == j@[start as int]);
    }
    if j[start] == 48 && klen > 1 {
        return None;
    }
    // The remainder after the digits must be the single closing brace.
    let ghost dseq = digits_zone.take(klen as int);
    proof {
        assert(digits_zone.skip(klen as int) =~= j@.skip(pos as int));
    }
    if !(pos < n && n - pos == 1 && j[pos] == 125) {
        proof {
            let tail = j@.skip(pos as int);
            if tail == seq![125u8] {
                assert(tail.len() == 1);
                assert(j@[pos as int] == tail[0]);
            }
        }
        return None;
    }
    proof {
        assert(j@.skip(pos as int) =~= seq![125u8]);
    }
    // The value of the digits, watching for overflow.
    let mut val: u64 = 0;
    let mut m: usize = 0;
    proof {
        assert(dseq.take(0) =~= Seq::<u8>::empty());
    }
    while m < klen
        invariant
            n == j.len(),
            8 <= i <= n,
            start == i + 7,
            start + klen <= n,
            rest == j@.skip(i as int),
            j@.take(8) == payload_prefix(),
            parse_string_body(j@.skip(8)) == Some((sub@, rest)),
            rest.len() >= 7,
            rest.take(7) == payload_mid(),
            digits_zone == rest.skip(7),
            digits_zone == j@.skip(start as int),
            digit_span(digits_zone) == klen,
            klen >= 1,
            !(digits_zone[0] == 48 && klen > 1),
            digits_zone.skip(klen as int) == seq![125u8],
            klen == dseq.len(),
            dseq == digits_zone.take(klen as int),
            forall|t: int| 0 <= t < klen ==> is_digit(#[trigger] dseq[t]),
            m <= klen,
            val as nat == digits_val(dseq.take(m as int)),
        decreases klen - m,
    {
        proof {
            assert(dseq[m as int] == j@[start + m]);
        }
        let d = j[start + m] - 48;
        if val > (u64::MAX - (d as u64)) / 10 {
            proof {
                crate::nums::lemma_digits_val_step(dseq, m as int);
                assert(val * 10 + d > u64::MAX) by (nonlinear_arith)
                    requires
                        val > (u64::MAX - (d as u64)) / 10,
                        d <= 9,
                ;
                assert(digits_val(dseq.take(m + 1)) > u64::MAX);
                crate::nums::lemma_digits_val_monotone(dseq, m + 1, klen as int);
                assert(dseq.take(klen as int) =~= dseq);
                assert(digits_val(dseq) > u64::MAX);
            }
            return None;
        }
        proof {
            crate::nums::lemma_digits_val_step(dseq, m as int);
        }
        val = val * 10 + (d as u64);
        m = m + 1;
    }
    proof {
        assert(dseq.take(klen as int) =~= dseq);
    }
    Some((sub, val))
}

} // verus!
