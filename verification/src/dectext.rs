//! Decimal text for the integer claim fields: canonical printing of an
//! `i64` and strict parsing back, both specified over byte sequences.

#![verifier::loop_isolation(false)]

use vstd::prelude::*;

verus! {

pub open spec fn pow10(k: nat) -> int
    decreases k,
{
    if k == 0 {
        1
    } else {
        10 * pow10((k - 1) as nat)
    }
}

/// Decimal digits of a natural number, most significant first.
pub open spec fn dec_digits(n: nat) -> Seq<u8>
    decreases n,
{
    if n < 10 {
        seq![(0x30 + n) as u8]
    } else {
        dec_digits(n / 10) + seq![(0x30 + n % 10) as u8]
    }
}

/// Decimal text of an integer, with a leading minus for negatives.
pub open spec fn int_bytes(v: int) -> Seq<u8> {
    if v < 0 {
        seq![0x2du8] + dec_digits((-v) as nat)
    } else {
        dec_digits(v as nat)
    }
}

pub open spec fn is_digit(b: u8) -> bool {
    0x30 <= b && b <= 0x39
}

/// Consume digits from position `p`, accumulating their value onto `acc`;
/// returns the value and the position after the last digit.
pub open spec fn parse_digits(s: Seq<u8>, p: int, acc: int) -> (int, int)
    decreases s.len() - p,
{
    if 0 <= p < s.len() && is_digit(s[p]) {
        parse_digits(s, p + 1, acc * 10 + (s[p] - 0x30))
    } else {
        (acc, p)
    }
}

/// Parse an integer at position `p`: an optional minus sign, then at
/// least one digit; rejected if the value does not fit an `i64`.
pub open spec fn parse_int(s: Seq<u8>, p: int) -> Option<(int, int)> {
    if 0 <= p < s.len() && s[p] == 0x2d {
        if p + 1 < s.len() && is_digit(s[p + 1]) {
            let (n, q) = parse_digits(s, p + 1, 0);
            if n <= 0x8000_0000_0000_0000 {
                Some((-n, q))
            } else {
                None
            }
        } else {
            None
        }
    } else if 0 <= p < s.len() && is_digit(s[p]) {
        let (n, q) = parse_digits(s, p, 0);
        if n <= 0x7fff_ffff_ffff_ffff {
            Some((n, q))
        } else {
            None
        }
    } else {
        None
    }
}

/// Every byte that `dec_digits` produces is a digit.
pub proof fn lemma_dec_digits_are_digits(n: nat)
    ensures
        dec_digits(n).len() >= 1,
        forall|i: int| 0 <= i < dec_digits(n).len() ==> #[trigger] is_digit(dec_digits(n)[i]),
    decreases n,
{
    if n >= 10 {
        lemma_dec_digits_are_digits(n / 10);
    }
}

/// The value and end position that `parse_digits` yields never shrink.
pub proof fn lemma_parse_digits_bounds(s: Seq<u8>, p: int, acc: int)
    requires
        0 <= p,
        acc >= 0,
    ensures
        parse_digits(s, p, acc).0 >= acc,
        p <= parse_digits(s, p, acc).1 <= if p <= s.len() {
            s.len() as int
        } else {
            p
        },
    decreases s.len() - p,
{
    if 0 <= p < s.len() && is_digit(s[p]) {
        assert(acc * 10 + (s[p] - 0x30) >= acc) by (nonlinear_arith)
            requires
                acc >= 0,
                s[p] >= 0x30,
        ;
        lemma_parse_digits_bounds(s, p + 1, acc * 10 + (s[p] - 0x30));
    }
}

/// Running the digit parser over the printed digits of `n` accumulates
/// exactly `n` and stops right after them.
pub proof fn lemma_parse_dec_digits(s: Seq<u8>, p: int, n: nat, acc: int)
    requires
        0 <= p,
        p + dec_digits(n).len() <= s.len(),
        s.subrange(p, p + dec_digits(n).len()) == dec_digits(n),
    ensures
        parse_digits(s, p, acc) == parse_digits(
            s,
            p + dec_digits(n).len(),
            acc * pow10(dec_digits(n).len() as nat) + n,
        ),
    decreases n,
{
    let k = dec_digits(n).len() as int;
    if n < 10 {
        assert(s[p] == dec_digits(n)[0]);
        assert(s[p] == (0x30 + n) as u8);
        assert(is_digit(s[p]));
        assert(parse_digits(s, p, acc) == parse_digits(s, p + 1, acc * 10 + n));
        assert(pow10(0) == 1);
        assert(pow10(1) == 10);
        assert(acc * pow10(1) + n == acc * 10 + n);
    } else {
        let hd = dec_digits(n / 10);
        let kh = hd.len() as int;
        assert(dec_digits(n) == hd + seq![(0x30 + n % 10) as u8]);
        assert(k == kh + 1);
        assert(s.subrange(p, p + kh) == hd) by {
            assert forall|i: int| 0 <= i < kh implies s.subrange(p, p + kh)[i] == hd[i] by {
                assert(s.subrange(p, p + k)[i] == hd[i]);
            }
            assert(s.subrange(p, p + kh) =~= hd);
        }
        lemma_parse_dec_digits(s, p, n / 10, acc);
        let mid = acc * pow10(kh as nat) + n / 10;
        assert(s[p + kh] == dec_digits(n)[kh]);
        assert(s[p + kh] == (0x30 + n % 10) as u8);
        assert(is_digit(s[p + kh]));
        assert(parse_digits(s, p + kh, mid) == parse_digits(s, p + k, mid * 10 + n % 10));
        assert(mid * 10 + n % 10 == acc * pow10(k as nat) + n) by (nonlinear_arith)
            requires
                mid == acc * pow10(kh as nat) + n / 10,
                k == kh + 1,
                kh >= 0,
                pow10(k as nat) == 10 * pow10(kh as nat),
                n >= 10,
        ;
    }
}

/// Parsing the printed form of an `i64` recovers the value, provided the
/// text is followed by a non-digit or by the end of the input.
pub proof fn lemma_parse_int_bytes(s: Seq<u8>, p: int, v: int)
    requires
        0 <= p,
        -0x8000_0000_0000_0000 <= v <= 0x7fff_ffff_ffff_ffff,
        p + int_bytes(v).len() <= s.len(),
        s.subrange(p, p + int_bytes(v).len()) == int_bytes(v),
        p + int_bytes(v).len() == s.len() || !is_digit(s[p + int_bytes(v).len()]),
    ensures
        parse_int(s, p) == Some((v, p + int_bytes(v).len())),
{
    let k = int_bytes(v).len() as int;
    let e = p + k;
    if v < 0 {
        let n = (-v) as nat;
        let dl = dec_digits(n).len() as int;
        assert(k == 1 + dl);
        assert(s[p] == int_bytes(v)[0]);
        assert(s[p] == 0x2d);
        assert(s.subrange(p + 1, p + 1 + dl) == dec_digits(n)) by {
            assert forall|i: int| 0 <= i < dl implies s.subrange(p + 1, p + 1 + dl)[i]
                == dec_digits(n)[i] by {
                assert(s.subrange(p, p + k)[i + 1] == int_bytes(v)[i + 1]);
            }
            assert(s.subrange(p + 1, p + 1 + dl) =~= dec_digits(n));
        }
        lemma_dec_digits_are_digits(n);
        assert(s[p + 1] == dec_digits(n)[0]);
        lemma_parse_dec_digits(s, p + 1, n, 0);
        assert(parse_digits(s, p + 1, 0) == parse_digits(s, e, n as int));
        assert(parse_digits(s, e, n as int) == (n as int, e));
        assert(n <= 0x8000_0000_0000_0000);
        assert(!(s[p] == 0x2d && is_digit(s[p])));
    } else {
        let n = v as nat;
        lemma_dec_digits_are_digits(n);
        assert(s[p] == dec_digits(n)[0]);
        assert(is_digit(s[p]));
        assert(s[p] != 0x2d);
        lemma_parse_dec_digits(s, p, n, 0);
        assert(parse_digits(s, p, 0) == parse_digits(s, e, n as int));
        assert(parse_digits(s, e, n as int) == (n as int, e));
    }
}

/// Append the decimal digits of `n` to `out`.
pub fn push_digits(out: &mut Vec<u8>, n: u64)
    ensures
        final(out)@ == old(out)@ + dec_digits(n as nat),
    decreases n,
{
    if n < 10 {
        out.push(0x30 + n as u8);
        assert(final(out)@ =~= old(out)@ + dec_digits(n as nat));
    } else {
        push_digits(out, n / 10);
        out.push(0x30 + (n % 10) as u8);
        assert(final(out)@ =~= old(out)@ + dec_digits(n as nat));
    }
}

/// Append the canonical decimal text of `v` to `out`.
pub fn push_i64(out: &mut Vec<u8>, v: i64)
    ensures
        final(out)@ == old(out)@ + int_bytes(v as int),
{
    if v >= 0 {
        push_digits(out, v as u64);
    } else {
        out.push(0x2d);
        let mag: u64 = if v == -0x7fff_ffff_ffff_ffff - 1 {
            0x8000_0000_0000_0000u64
        } else {
            (-v) as u64
        };
        assert(mag as nat == (-(v as int)) as nat);
        push_digits(out, mag);
        assert(final(out)@ =~= old(out)@ + int_bytes(v as int));
    }
}

/// Parse an integer at position `p` of `s`, as `parse_int` describes.
pub fn parse_int_exec(s: &[u8], p: usize) -> (r: Option<(i64, usize)>)
    requires
        p <= s@.len(),
    ensures
        match r {
            Some((v, q)) => parse_int(s@, p as int) == Some((v as int, q as int)) && p <= q
                <= s@.len(),
            None => parse_int(s@, p as int) is None,
        },
{
    let n = s.len();
    let neg = p < n && s[p] == 0x2d;
    let start = if neg {
        p + 1
    } else {
        p
    };
    if start >= n || !(0x30 <= s[start] && s[start] <= 0x39) {
        return None;
    }
    let mut acc: u128 = 0;
    let mut q = start;
    proof {
        assert(parse_digits(s@, start as int, 0) == parse_digits(s@, q as int, acc as int));
    }
    while q < n && 0x30 <= s[q] && s[q] <= 0x39
        invariant
            start <= q <= n,
            acc <= 0xffff_ffff_ffff_ffff,
            parse_digits(s@, start as int, 0) == parse_digits(s@, q as int, acc as int),
        decreases n - q,
    {
        let d = s[q];
        let acc2: u128 = acc * 10 + (d - 0x30) as u128;
        proof {
            assert(acc2 == acc * 10 + (d - 0x30)) by (nonlinear_arith)
                requires
                    acc <= 0xffff_ffff_ffff_ffff,
                    acc2 == ((acc * 10 + (d - 0x30) as u128) as u128),
                    0x30 <= d <= 0x39,
            ;
            assert(parse_digits(s@, q as int, acc as int) == parse_digits(
                s@,
                q + 1,
                acc as int * 10 + (s@[q as int] - 0x30),
            ));
        }
        if acc2 > 0xffff_ffff_ffff_ffff {
            proof {
                lemma_parse_digits_bounds(s@, q + 1, acc2 as int);
                assert(parse_digits(s@, start as int, 0).0 > 0x8000_0000_0000_0000);
            }
            return None;
        }
        acc = acc2;
        q = q + 1;
    }
    proof {
        assert(parse_digits(s@, q as int, acc as int) == ((acc as int, q as int)));
    }
    if neg {
        if acc > 0x8000_0000_0000_0000 {
            return None;
        }
        let v: i64 = if acc == 0x8000_0000_0000_0000 {
            -0x7fff_ffff_ffff_ffff - 1
        } else {
            -(acc as i64)
        };
        Some((v, q))
    } else {
        if acc > 0x7fff_ffff_ffff_ffff {
            return None;
        }
        Some((acc as i64, q))
    }
}

} // verus!
