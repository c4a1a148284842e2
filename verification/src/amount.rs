//! Exact decimal amounts.
//!
//! Monetary balances are carried as a scaled integer: a mantissa and a
//! decimal scale (the number of fraction digits, at most six).  Texts
//! such as `100.00` parse to `(10000, 2)` and format back unchanged;
//! addition aligns scales exactly, so no rounding ever happens.

use vstd::prelude::*;
use crate::seqtools::find_idx;
use crate::seqtools::lemma_find_idx_at;
use crate::seqtools::lemma_find_idx_none;
use crate::text::all_digits;
use crate::text::dec_seq;
use crate::text::is_digit_char;
use crate::text::lemma_pow10_add;
use crate::text::lemma_pow10_mono;
use crate::text::lemma_pow10_values;
use crate::text::lemma_seq_to_nat_bound;
use crate::text::lemma_seq_to_nat_concat;
use crate::text::padded_seq;
use crate::text::padded_string;
use crate::text::pow10;
use crate::text::seq_to_nat;
use crate::text::u128_string;

verus! {

/// A decimal number `mantissa / 10^scale`.
#[derive(Clone, Copy, Debug, PartialEq, Eq, Structural)]
pub struct Amount {
    pub mantissa: i128,
    pub scale: u32,
}

impl Amount {
    /// At most six fraction digits, and a magnitude whose negation fits.
    pub open spec fn wf(self) -> bool {
        self.scale <= 6 && self.mantissa > i128::MIN
    }

    /// Exact addition after aligning scales, where the aligned mantissas
    /// and their sum fit the machine range.
    pub open spec fn add_spec(self, o: Amount) -> Option<Amount> {
        let s = if self.scale >= o.scale {
            self.scale
        } else {
            o.scale
        };
        let am = self.mantissa * pow10((s - self.scale) as nat);
        let bm = o.mantissa * pow10((s - o.scale) as nat);
        if i128::MIN <= am <= i128::MAX && i128::MIN <= bm <= i128::MAX && i128::MIN < am + bm
            <= i128::MAX {
            Some(Amount { mantissa: (am + bm) as i128, scale: s })
        } else {
            None
        }
    }

    /// Adds two amounts exactly; `None` when a machine limit is hit.
    pub fn checked_add(self, o: Amount) -> (r: Option<Amount>)
        requires
            self.wf(),
            o.wf(),
        ensures
            r == self.add_spec(o),
            r is Some ==> r.unwrap().wf() && r.unwrap().scale == if self.scale >= o.scale {
                self.scale
            } else {
                o.scale
            },
    {
        let s = if self.scale >= o.scale {
            self.scale
        } else {
            o.scale
        };
        let fa = pow10_i128(s - self.scale);
        let fb = pow10_i128(s - o.scale);
        let am = match self.mantissa.checked_mul(fa) {
            Some(v) => v,
            None => {
                return None;
            },
        };
        let bm = match o.mantissa.checked_mul(fb) {
            Some(v) => v,
            None => {
                return None;
            },
        };
        let sum = match am.checked_add(bm) {
            Some(v) => v,
            None => {
                return None;
            },
        };
        if sum == i128::MIN {
            None
        } else {
            Some(Amount { mantissa: sum, scale: s })
        }
    }

    /// The zero amount, at scale zero.
    pub fn zero() -> (r: Amount)
        ensures
            r == (Amount { mantissa: 0, scale: 0 }),
    {
        Amount { mantissa: 0, scale: 0 }
    }
}

/// The text of an amount: optional sign, integer digits, and — where the
/// scale is positive — a point and exactly `scale` fraction digits.
pub open spec fn amount_text(a: Amount) -> Seq<char> {
    let mag = if a.mantissa < 0 {
        (-a.mantissa) as nat
    } else {
        a.mantissa as nat
    };
    let sign: Seq<char> = if a.mantissa < 0 {
        seq!['-']
    } else {
        Seq::empty()
    };
    if a.scale == 0 {
        sign + dec_seq(mag)
    } else {
        sign + dec_seq(mag / pow10(a.scale as nat)) + seq!['.'] + padded_seq(
            mag % pow10(a.scale as nat),
            a.scale as nat,
        )
    }
}

/// Ten to the `n`, for small `n`.
pub fn pow10_i128(n: u32) -> (r: i128)
    requires
        n <= 6,
    ensures
        r == pow10(n as nat),
        1 <= r <= 1000000,
{
    proof {
        reveal_with_fuel(pow10, 8);
    }
    match n {
        0 => 1,
        1 => 10,
        2 => 100,
        3 => 1000,
        4 => 10000,
        5 => 100000,
        _ => 1000000,
    }
}

/// Ten to the `n`, for `n` up to 38.
pub fn pow10_u128(n: u32) -> (r: u128)
    requires
        n <= 38,
    ensures
        r == pow10(n as nat),
{
    let mut r: u128 = 1;
    let mut i: u32 = 0;
    while i < n
        invariant
            i <= n <= 38,
            r == pow10(i as nat),
        decreases n - i,
    {
        proof {
            lemma_pow10_mono((i + 1) as nat, 38);
            lemma_pow10_values();
        }
        r = r * 10;
        i = i + 1;
    }
    r
}

/// Formats an amount as its decimal text.
pub fn format_amount(a: &Amount) -> (r: String)
    requires
        a.wf(),
    ensures
        r@ == amount_text(*a),
{
    let mag: u128 = if a.mantissa < 0 {
        (-a.mantissa) as u128
    } else {
        a.mantissa as u128
    };
    let mut s: String = if a.mantissa < 0 {
        let h = "-".to_owned();
        proof {
            reveal_strlit("-");
        }
        h
    } else {
        String::new()
    };
    if a.scale == 0 {
        let d = u128_string(mag);
        s.append(d.as_str());
        proof {
            assert(s@ =~= amount_text(*a));
        }
        s
    } else {
        let p = pow10_i128(a.scale) as u128;
        proof {
            assert(pow10(a.scale as nat) >= 1);
        }
        let d = u128_string(mag / p);
        s.append(d.as_str());
        s.append(".");
        let f = padded_string(mag % p, a.scale as usize);
        s.append(f.as_str());
        proof {
            reveal_strlit(".");
            assert(s@ =~= amount_text(*a));
        }
        s
    }
}

pub open spec fn dot_pred() -> spec_fn(char) -> bool {
    |c: char| c == '.'
}

/// The amount read from a decimal text: optional leading minus, digits
/// with at most one point, at least one digit, at most 38 digits in
/// all and at most six of them after the point.
pub open spec fn parse_amount_spec(s: Seq<char>) -> Option<Amount> {
    let neg = s.len() > 0 && s[0] == '-';
    let t = if neg {
        s.drop_first()
    } else {
        s
    };
    match find_idx(t, dot_pred()) {
        None => if 1 <= t.len() <= 38 && all_digits(t) {
            Some(signed_amount(neg, seq_to_nat(t), 0))
        } else {
            None
        },
        Some(p) => {
            let ip = t.take(p);
            let fp = t.skip(p + 1);
            if all_digits(ip) && all_digits(fp) && 1 <= ip.len() + fp.len() && ip.len() + fp.len()
                <= 38 && fp.len() <= 6 {
                Some(signed_amount(neg, seq_to_nat(ip + fp), fp.len()))
            } else {
                None
            }
        },
    }
}

pub open spec fn signed_amount(neg: bool, v: nat, scale: nat) -> Amount {
    Amount {
        mantissa: if neg {
            (-(v as int)) as i128
        } else {
            v as i128
        },
        scale: scale as u32,
    }
}

/// Reads the digit run `s[from..to]` as a number.
fn read_digits(s: &str, from: usize, to: usize) -> (r: Option<u128>)
    requires
        from <= to <= s@.len(),
        to - from <= 38,
    ensures
        match r {
            Some(v) => all_digits(s@.subrange(from as int, to as int)) && v == seq_to_nat(
                s@.subrange(from as int, to as int),
            ) && v < pow10((to - from) as nat),
            None => !all_digits(s@.subrange(from as int, to as int)),
        },
{
    let ghost t = s@.subrange(from as int, to as int);
    let mut i: usize = from;
    let mut acc: u128 = 0;
    while i < to
        invariant
            from <= i <= to <= s@.len(),
            to - from <= 38,
            t == s@.subrange(from as int, to as int),
            all_digits(t.take(i - from)),
            acc == seq_to_nat(t.take(i - from)),
            acc < pow10((i - from) as nat),
        decreases to - i,
    {
        let c = s.get_char(i);
        let cu: u32 = c as u32;
        if cu < 48 || cu > 57 {
            proof {
                assert(t[i - from] == s@[i as int]);
                assert(!is_digit_char(t[i - from]));
            }
            return None;
        }
        let d: u128 = (cu - 48) as u128;
        proof {
            lemma_pow10_mono((i - from) as nat, 37);
            lemma_pow10_values();
            assert(pow10(((i + 1) - from) as nat) == 10 * pow10((i - from) as nat));
            assert(t.take(i + 1 - from).drop_last() =~= t.take(i - from));
            assert(t.take(i + 1 - from).last() == s@[i as int]);
        }
        acc = acc * 10 + d;
        i = i + 1;
        proof {
            assert(forall|j: int|
                0 <= j < i - from ==> is_digit_char(#[trigger] t.take(i - from)[j]));
        }
    }
    proof {
        assert(t.take(t.len() as int) =~= t);
    }
    Some(acc)
}

/// Parses a decimal amount text.
pub fn parse_amount(s: &str) -> (r: Option<Amount>)
    ensures
        r == parse_amount_spec(s@),
        r is Some ==> r.unwrap().wf(),
{
    let len = s.unicode_len();
    let neg = len > 0 && s.get_char(0) as u32 == 45;
    proof {
        assert('-' as u32 == 45);
    }
    let start: usize = if neg {
        1
    } else {
        0
    };
    let ghost t = if neg {
        s@.drop_first()
    } else {
        s@
    };
    proof {
        assert(t =~= s@.skip(start as int));
    }
    // find the first point in t
    let mut k: usize = start;
    let mut dot: Option<usize> = None;
    while k < len && dot.is_none()
        invariant
            start <= k <= len,
            len == s@.len(),
            start <= 1,
            t == s@.skip(start as int),
            forall|j: int| 0 <= j < k - start ==> !(dot_pred())(#[trigger] t[j]),
            match dot {
                None => true,
                Some(p) => start <= p < len && p == k && dot_pred()(t[p - start]),
            },
        decreases len - k + (if dot is None {
            1int
        } else {
            0int
        }),
    {
        proof {
            assert('.' as u32 == 46);
            assert(t[k - start] == s@[k as int]);
        }
        if s.get_char(k) as u32 == 46 {
            dot = Some(k);
        } else {
            k = k + 1;
        }
    }
    match dot {
        None => {
            proof {
                lemma_find_idx_none(t, dot_pred());
            }
            if len - start < 1 || len - start > 38 {
                return None;
            }
            match read_digits(s, start, len) {
                None => {
                    proof {
                        assert(s@.subrange(start as int, len as int) =~= t);
                    }
                    None
                },
                Some(v) => {
                    proof {
                        assert(s@.subrange(start as int, len as int) =~= t);
                        lemma_seq_to_nat_bound(t);
                        lemma_pow10_mono(t.len(), 38);
                        lemma_pow10_values();
                    }
                    let m: i128 = if neg {
                        -(v as i128)
                    } else {
                        v as i128
                    };
                    Some(Amount { mantissa: m, scale: 0 })
                },
            }
        },
        Some(p) => {
            let ghost dp = p - start;
            proof {
                lemma_find_idx_at(t, dot_pred(), dp);
            }
            let iplen = p - start;
            let fplen = len - p - 1;
            let ghost ip = t.take(dp);
            let ghost fp = t.skip(dp + 1);
            proof {
                assert(ip =~= s@.subrange(start as int, p as int));
                assert(fp =~= s@.subrange(p + 1, len as int));
            }
            if iplen + fplen < 1 || iplen + fplen > 38 || fplen > 6 {
                return None;
            }
            let ipv = match read_digits(s, start, p) {
                None => {
                    return None;
                },
                Some(v) => v,
            };
            let fpv = match read_digits(s, p + 1, len) {
                None => {
                    return None;
                },
                Some(v) => v,
            };
            let pw = pow10_u128(fplen as u32);
            proof {
                lemma_seq_to_nat_concat(ip, fp);
                lemma_pow10_add(ip.len(), fp.len());
                lemma_pow10_mono((ip.len() + fp.len()) as nat, 38);
                lemma_pow10_values();
                assert(ipv * pw + fpv < pow10(ip.len()) * pow10(fp.len())) by (nonlinear_arith)
                    requires
                        ipv < pow10(ip.len()),
                        fpv < pow10(fp.len()),
                        pw == pow10(fp.len()),
                        pw >= 1,
                ;
                assert(seq_to_nat(ip + fp) == ipv * pw + fpv);
            }
            let v: u128 = ipv * pw + fpv;
            let m: i128 = if neg {
                -(v as i128)
            } else {
                v as i128
            };
            Some(Amount { mantissa: m, scale: fplen as u32 })
        },
    }
}

} // verus!
