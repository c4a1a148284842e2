//! Decimal digit sequences and lexicographic order on text.
//!
//! The store formats identifiers, amounts and timestamps as text and
//! orders rows by their names.  Everything here is specified over
//! `Seq<char>`: `dec_seq` is the plain decimal form of a natural number,
//! `padded_seq` its zero-padded form, `seq_to_nat` the inverse reading,
//! and `lex_le` the code-point lexicographic order.

use vstd::prelude::*;

verus! {

pub open spec fn pow10(n: nat) -> nat
    decreases n,
{
    if n == 0 {
        1
    } else {
        10 * pow10((n - 1) as nat)
    }
}

pub open spec fn is_digit_char(c: char) -> bool {
    48 <= c as u32 <= 57
}

pub open spec fn digit_val(c: char) -> nat {
    (c as u32 - 48) as nat
}

pub open spec fn digit_char(d: nat) -> char {
    if d == 0 {
        '0'
    } else if d == 1 {
        '1'
    } else if d == 2 {
        '2'
    } else if d == 3 {
        '3'
    } else if d == 4 {
        '4'
    } else if d == 5 {
        '5'
    } else if d == 6 {
        '6'
    } else if d == 7 {
        '7'
    } else if d == 8 {
        '8'
    } else {
        '9'
    }
}

/// The decimal text of `n`, without padding or sign.
pub open spec fn dec_seq(n: nat) -> Seq<char>
    decreases n,
{
    if n < 10 {
        seq![digit_char(n)]
    } else {
        dec_seq(n / 10).push(digit_char(n % 10))
    }
}

/// The decimal text of `n` zero-padded to exactly `w` digits
/// (truncating high digits if `n >= pow10(w)`).
pub open spec fn padded_seq(n: nat, w: nat) -> Seq<char>
    decreases w,
{
    if w == 0 {
        Seq::empty()
    } else {
        padded_seq(n / 10, (w - 1) as nat).push(digit_char(n % 10))
    }
}

/// The decimal text of a signed integer.
pub open spec fn int_seq(i: int) -> Seq<char> {
    if i < 0 {
        seq!['-'] + dec_seq((-i) as nat)
    } else {
        dec_seq(i as nat)
    }
}

pub open spec fn all_digits(s: Seq<char>) -> bool {
    forall|i: int| 0 <= i < s.len() ==> is_digit_char(#[trigger] s[i])
}

/// Reads a digit sequence as a natural number (most significant first).
pub open spec fn seq_to_nat(s: Seq<char>) -> nat
    decreases s.len(),
{
    if s.len() == 0 {
        0
    } else {
        seq_to_nat(s.drop_last()) * 10 + digit_val(s.last())
    }
}

pub proof fn lemma_pow10_values()
    ensures
        pow10(6) == 1000000,
        pow10(17) == 100000000000000000,
        pow10(18) == 1000000000000000000,
        pow10(37) == 10000000000000000000000000000000000000,
        pow10(38) == 100000000000000000000000000000000000000,
{
    reveal_with_fuel(pow10, 39);
}

pub proof fn lemma_pow10_mono(a: nat, b: nat)
    requires
        a <= b,
    ensures
        pow10(a) <= pow10(b),
    decreases b,
{
    if a < b {
        lemma_pow10_mono(a, (b - 1) as nat);
    }
}

pub proof fn lemma_pow10_add(a: nat, b: nat)
    ensures
        pow10(a + b) == pow10(a) * pow10(b),
    decreases b,
{
    if b == 0 {
        assert(pow10(a) * 1 == pow10(a));
    } else {
        lemma_pow10_add(a, (b - 1) as nat);
        assert(pow10(a + b) == 10 * pow10((a + (b - 1)) as nat));
        assert(10 * (pow10(a) * pow10((b - 1) as nat)) == pow10(a) * (10 * pow10(
            (b - 1) as nat,
        ))) by (nonlinear_arith);
    }
}

pub proof fn lemma_seq_to_nat_concat(a: Seq<char>, b: Seq<char>)
    ensures
        seq_to_nat(a + b) == seq_to_nat(a) * pow10(b.len()) + seq_to_nat(b),
    decreases b.len(),
{
    if b.len() == 0 {
        assert(a + b =~= a);
        assert(seq_to_nat(a) * 1 == seq_to_nat(a));
    } else {
        lemma_seq_to_nat_concat(a, b.drop_last());
        assert((a + b).drop_last() =~= a + b.drop_last());
        assert((a + b).last() == b.last());
        let x = seq_to_nat(a);
        let y = pow10((b.len() - 1) as nat);
        let z = seq_to_nat(b.drop_last());
        let d = digit_val(b.last());
        assert(seq_to_nat(a + b) == (x * y + z) * 10 + d);
        assert((x * y + z) * 10 + d == x * (10 * y) + (z * 10 + d)) by (nonlinear_arith);
        assert(pow10(b.len()) == 10 * y);
        assert(x * (10 * y) == x * pow10(b.len()));
    }
}

pub proof fn lemma_seq_to_nat_bound(s: Seq<char>)
    requires
        all_digits(s),
    ensures
        seq_to_nat(s) < pow10(s.len()),
    decreases s.len(),
{
    if s.len() > 0 {
        lemma_seq_to_nat_bound(s.drop_last());
    }
}

pub proof fn lemma_dec_seq_digits(n: nat)
    ensures
        all_digits(dec_seq(n)),
        seq_to_nat(dec_seq(n)) == n,
        1 <= dec_seq(n).len(),
    decreases n,
{
    if n < 10 {
        assert(is_digit_char(digit_char(n)));
        assert(digit_val(digit_char(n)) == n);
        assert(forall|i: int| 0 <= i < 1 ==> is_digit_char(#[trigger] dec_seq(n)[i]));
        let s = seq![digit_char(n)];
        assert(s.drop_last() =~= Seq::<char>::empty());
        assert(seq_to_nat(s) == seq_to_nat(s.drop_last()) * 10 + digit_val(s.last()));
        assert(seq_to_nat(s.drop_last()) == 0);
    } else {
        lemma_dec_seq_digits(n / 10);
        let s = dec_seq(n);
        assert(s == dec_seq(n / 10).push(digit_char(n % 10)));
        assert(is_digit_char(digit_char(n % 10)));
        assert(digit_val(digit_char(n % 10)) == n % 10);
        assert(forall|i: int|
            0 <= i < s.len() - 1 ==> is_digit_char(#[trigger] s[i])) by {
            assert(forall|i: int| 0 <= i < s.len() - 1 ==> s[i] == dec_seq(n / 10)[i]);
        }
        assert(s.drop_last() =~= dec_seq(n / 10));
        assert(seq_to_nat(s) == seq_to_nat(dec_seq(n / 10)) * 10 + digit_val(s.last()));
    }
}

pub proof fn lemma_padded_seq_props(n: nat, w: nat)
    requires
        n < pow10(w),
    ensures
        all_digits(padded_seq(n, w)),
        padded_seq(n, w).len() == w,
        seq_to_nat(padded_seq(n, w)) == n,
    decreases w,
{
    if w == 0 {
    } else {
        assert(pow10(w) == 10 * pow10((w - 1) as nat));
        lemma_padded_seq_props(n / 10, (w - 1) as nat);
        let s = padded_seq(n, w);
        assert(s == padded_seq(n / 10, (w - 1) as nat).push(digit_char(n % 10)));
        assert(is_digit_char(digit_char(n % 10)));
        assert(digit_val(digit_char(n % 10)) == n % 10);
        assert(forall|i: int|
            0 <= i < s.len() - 1 ==> is_digit_char(#[trigger] s[i])) by {
            assert(forall|i: int|
                0 <= i < s.len() - 1 ==> s[i] == padded_seq(n / 10, (w - 1) as nat)[i]);
        }
        assert(s.drop_last() =~= padded_seq(n / 10, (w - 1) as nat));
        assert(seq_to_nat(s) == seq_to_nat(padded_seq(n / 10, (w - 1) as nat)) * 10 + digit_val(
            s.last(),
        ));
    }
}

pub proof fn lemma_dec_seq_len(n: nat, k: nat)
    requires
        n < pow10(k),
        1 <= k,
    ensures
        dec_seq(n).len() <= k,
    decreases k,
{
    if n < 10 {
    } else {
        assert(pow10(k) == 10 * pow10((k - 1) as nat));
        lemma_dec_seq_len(n / 10, (k - 1) as nat);
    }
}

/// Reading back the decimal text of a (small enough) number gives the
/// number.
pub proof fn lemma_parse_int_seq(n: i64)
    requires
        0 <= n < 1000000000000000000,
    ensures
        parse_i64_spec(int_seq(n as int)) == Some(n),
{
    let s = dec_seq(n as nat);
    lemma_dec_seq_digits(n as nat);
    lemma_pow10_values();
    lemma_dec_seq_len(n as nat, 18);
    assert(is_digit_char(s[0]));
    assert(s[0] != '-');
    assert(int_seq(n as int) == s);
}

/// Code-point lexicographic order: `a` sorts at or before `b`.
pub open spec fn lex_le(a: Seq<char>, b: Seq<char>) -> bool
    decreases a.len(),
{
    if a.len() == 0 {
        true
    } else if b.len() == 0 {
        false
    } else if a[0] as u32 == b[0] as u32 {
        lex_le(a.drop_first(), b.drop_first())
    } else {
        (a[0] as u32) < (b[0] as u32)
    }
}

pub proof fn lemma_lex_le_total(a: Seq<char>, b: Seq<char>)
    ensures
        lex_le(a, b) || lex_le(b, a),
    decreases a.len(),
{
    if a.len() > 0 && b.len() > 0 && a[0] as u32 == b[0] as u32 {
        lemma_lex_le_total(a.drop_first(), b.drop_first());
    }
}

/// One decimal digit as a fresh string.
pub fn digit_string(d: u32) -> (r: String)
    requires
        d < 10,
    ensures
        r@ == seq![digit_char(d as nat)],
{
    let lit: &str = match d {
        0 => "0",
        1 => "1",
        2 => "2",
        3 => "3",
        4 => "4",
        5 => "5",
        6 => "6",
        7 => "7",
        8 => "8",
        _ => "9",
    };
    proof {
        reveal_strlit("0");
        reveal_strlit("1");
        reveal_strlit("2");
        reveal_strlit("3");
        reveal_strlit("4");
        reveal_strlit("5");
        reveal_strlit("6");
        reveal_strlit("7");
        reveal_strlit("8");
        reveal_strlit("9");
        assert(lit@ =~= seq![digit_char(d as nat)]);
    }
    lit.to_owned()
}

/// The decimal text of `n`.
pub fn u128_string(n: u128) -> (r: String)
    ensures
        r@ == dec_seq(n as nat),
    decreases n,
{
    if n < 10 {
        digit_string(n as u32)
    } else {
        let mut s = u128_string(n / 10);
        let d = digit_string((n % 10) as u32);
        s.append(d.as_str());
        proof {
            assert(s@ =~= dec_seq(n as nat));
        }
        s
    }
}

/// The decimal text of `n`, zero-padded to exactly `w` digits.
pub fn padded_string(n: u128, w: usize) -> (r: String)
    ensures
        r@ == padded_seq(n as nat, w as nat),
    decreases w,
{
    if w == 0 {
        String::new()
    } else {
        let mut s = padded_string(n / 10, w - 1);
        let d = digit_string((n % 10) as u32);
        s.append(d.as_str());
        proof {
            assert(s@ =~= padded_seq(n as nat, w as nat));
        }
        s
    }
}

/// The decimal text of a signed 64-bit integer.
pub fn i64_string(n: i64) -> (r: String)
    ensures
        r@ == int_seq(n as int),
{
    if n < 0 {
        let mag: u128 = (-(n as i128)) as u128;
        let mut s = "-".to_owned();
        let d = u128_string(mag);
        s.append(d.as_str());
        proof {
            reveal_strlit("-");
            assert(s@ =~= int_seq(n as int));
        }
        s
    } else {
        u128_string(n as u128)
    }
}

/// Whether the views of `a` and `b` are the same text.
pub fn str_eq(a: &str, b: &str) -> (r: bool)
    ensures
        r == (a@ == b@),
{
    let alen = a.unicode_len();
    let blen = b.unicode_len();
    if alen != blen {
        return false;
    }
    let mut i: usize = 0;
    while i < alen
        invariant
            alen == a@.len(),
            blen == b@.len(),
            alen == blen,
            0 <= i <= alen,
            forall|j: int| 0 <= j < i ==> a@[j] == b@[j],
        decreases alen - i,
    {
        if a.get_char(i) != b.get_char(i) {
            return false;
        }
        i = i + 1;
    }
    proof {
        assert(a@ =~= b@);
    }
    true
}

/// Whether `a` sorts at or before `b` in code-point order.
pub fn str_le(a: &str, b: &str) -> (r: bool)
    ensures
        r == lex_le(a@, b@),
{
    let alen = a.unicode_len();
    let blen = b.unicode_len();
    let mut i: usize = 0;
    proof {
        assert(a@.skip(0) =~= a@);
        assert(b@.skip(0) =~= b@);
    }
    loop
        invariant
            alen == a@.len(),
            blen == b@.len(),
            0 <= i <= alen,
            i <= blen,
            lex_le(a@, b@) == lex_le(a@.skip(i as int), b@.skip(i as int)),
        decreases alen - i,
    {
        if i == alen {
            return true;
        }
        if i == blen {
            return false;
        }
        let ca = a.get_char(i);
        let cb = b.get_char(i);
        if ca as u32 != cb as u32 {
            return (ca as u32) < (cb as u32);
        }
        proof {
            assert(a@.skip(i as int).drop_first() =~= a@.skip(i + 1));
            assert(b@.skip(i as int).drop_first() =~= b@.skip(i + 1));
        }
        i = i + 1;
    }
}

/// The value of a decimal integer text, as `str::parse::<i64>` reads it,
/// for texts of at most eighteen digits.
pub open spec fn parse_i64_spec(s: Seq<char>) -> Option<i64> {
    let neg = s.len() > 0 && s[0] == '-';
    let t = if neg {
        s.drop_first()
    } else {
        s
    };
    if t.len() == 0 || t.len() > 18 || !all_digits(t) {
        None
    } else if neg {
        Some((-(seq_to_nat(t) as int)) as i64)
    } else {
        Some(seq_to_nat(t) as i64)
    }
}

/// Reads a signed decimal integer of at most eighteen digits.
pub fn parse_i64(s: &str) -> (r: Option<i64>)
    ensures
        r == parse_i64_spec(s@),
{
    let len = s.unicode_len();
    let neg = len > 0 && s.get_char(0) == '-';
    let start: usize = if neg {
        1
    } else {
        0
    };
    let ghost t = if neg {
        s@.drop_first()
    } else {
        s@
    };
    proof {
        assert(t =~= s@.skip(start as int));
    }
    if len - start == 0 || len - start > 18 {
        return None;
    }
    let mut i: usize = start;
    let mut acc: u64 = 0;
    while i < len
        invariant
            len == s@.len(),
            start <= i <= len,
            neg == (s@.len() > 0 && s@[0] == '-'),
            start == if neg {
                1int
            } else {
                0int
            },
            t == s@.skip(start as int),
            t == if neg {
                s@.drop_first()
            } else {
                s@
            },
            t.len() == len - start,
            1 <= t.len() <= 18,
            all_digits(t.take(i - start)),
            acc == seq_to_nat(t.take(i - start)),
            acc < pow10((i - start) as nat),
        decreases len - i,
    {
        let c = s.get_char(i);
        let cu: u32 = c as u32;
        if cu < 48 || cu > 57 {
            proof {
                assert(t[i - start] == s@[i as int]);
                assert(!is_digit_char(t[i - start]));
                assert(0 <= i - start < t.len());
                assert(!all_digits(t));
            }
            return None;
        }
        let d: u64 = (cu - 48) as u64;
        proof {
            lemma_pow10_mono((i - start) as nat, 17);
            assert(pow10(17) == 100000000000000000) by {
                reveal_with_fuel(pow10, 18);
            }
            assert(pow10(((i + 1) - start) as nat) == 10 * pow10((i - start) as nat));
            assert(t.take(i + 1 - start).drop_last() =~= t.take(i - start));
            assert(t.take(i + 1 - start).last() == s@[i as int]);
        }
        acc = acc * 10 + d;
        i = i + 1;
        proof {
            assert(forall|j: int| 0 <= j < i - start ==> is_digit_char(#[trigger] t.take(
                i - start,
            )[j]));
        }
    }
    proof {
        assert(t.take(t.len() as int) =~= t);
        lemma_pow10_mono((len - start) as nat, 18);
        assert(pow10(18) == 1000000000000000000) by {
            reveal_with_fuel(pow10, 19);
        }
    }
    if neg {
        Some(-(acc as i64))
    } else {
        Some(acc as i64)
    }
}

} // verus!
