//! Verified decimal and hexadecimal formatting of integers, as `format!`
//! writes them with `{}`, `{:0N}` and `{:016x}`.

use vstd::prelude::*;
use crate::text::push_char;

verus! {

/// The decimal digit character for `d < 10`.
pub open spec fn digit_char(d: nat) -> char {
    if d == 0 { '0' }
    else if d == 1 { '1' }
    else if d == 2 { '2' }
    else if d == 3 { '3' }
    else if d == 4 { '4' }
    else if d == 5 { '5' }
    else if d == 6 { '6' }
    else if d == 7 { '7' }
    else if d == 8 { '8' }
    else { '9' }
}

/// Decimal representation of a natural number, without leading zeros.
pub open spec fn dec(n: nat) -> Seq<char>
    decreases n,
{
    if n < 10 {
        seq![digit_char(n)]
    } else {
        dec(n / 10).push(digit_char(n % 10))
    }
}

/// Decimal representation of an integer, with a leading `-` when negative.
pub open spec fn int_dec(i: int) -> Seq<char> {
    if i < 0 {
        seq!['-'] + dec((-i) as nat)
    } else {
        dec(i as nat)
    }
}

/// `n` zero characters.
pub open spec fn zeros(n: nat) -> Seq<char> {
    Seq::new(n, |k: int| '0')
}

/// `{:0w}` of an integer: sign, then zeros up to width `w`, then digits.
pub open spec fn int_padded(i: int, w: nat) -> Seq<char> {
    let sign: Seq<char> = if i < 0 { seq!['-'] } else { seq![] };
    let digits = if i < 0 { dec((-i) as nat) } else { dec(i as nat) };
    let fill: int = w - sign.len() - digits.len();
    sign + zeros(if fill > 0 { fill as nat } else { 0 }) + digits
}

/// The number a text of decimal digits stands for, most significant first.
pub open spec fn digits_value(s: Seq<char>) -> int
    decreases s.len(),
{
    if s.len() == 0 {
        0
    } else {
        digits_value(s.drop_last()) * 10 + (s.last() as int - '0' as int)
    }
}

/// Whether every character of `s` is a decimal digit.
pub open spec fn all_digits(s: Seq<char>) -> bool {
    forall|k: int| 0 <= k < s.len() ==> '0' <= #[trigger] s[k] && s[k] <= '9'
}

/// The decimal text of a number reads back as that number: it is made of
/// digits only, has no leading zero (a single `0` for zero), and its
/// digits stand for the number.
pub proof fn lemma_dec_reads_back(n: nat)
    ensures
        all_digits(dec(n)),
        digits_value(dec(n)) == n,
        dec(n).len() >= 1,
        dec(n)[0] == '0' ==> n == 0,
    decreases n,
{
    let d = digit_char(n % 10);
    assert(d as int - '0' as int == n % 10 && '0' <= d && d <= '9');
    if n >= 10 {
        lemma_dec_reads_back(n / 10);
        let p = dec(n / 10);
        let q = dec(n);
        assert(q == p.push(d));
        assert(q.drop_last() =~= p);
        assert(q[0] == p[0]);
        assert forall|k: int| 0 <= k < q.len() implies '0' <= #[trigger] q[k] && q[k] <= '9' by {
            if k < p.len() {
                assert(q[k] == p[k]);
            }
        }
        assert(q.last() == d);
        assert(digits_value(q) == digits_value(p) * 10 + n % 10);
        assert(n == (n / 10) * 10 + n % 10);
    } else {
        let q = dec(n);
        assert(q.drop_last() =~= Seq::<char>::empty());
        assert(q.last() == d);
        assert(digits_value(q.drop_last()) == 0);
    }
}

/// The decimal text of an integer: a `-` before the digits of its size
/// exactly when it is negative.
pub proof fn lemma_int_dec_reads_back(i: int)
    ensures
        i >= 0 ==> all_digits(int_dec(i)) && digits_value(int_dec(i)) == i,
        i < 0 ==> int_dec(i)[0] == '-' && int_dec(i).drop_first() == dec((-i) as nat)
            && digits_value(int_dec(i).drop_first()) == -i,
{
    if i >= 0 {
        lemma_dec_reads_back(i as nat);
    } else {
        lemma_dec_reads_back((-i) as nat);
        assert((seq!['-'] + dec((-i) as nat)).drop_first() =~= dec((-i) as nat));
    }
}

/// Every number has at least one digit.
proof fn lemma_dec_len_pos(n: nat)
    ensures
        dec(n).len() >= 1,
    decreases n,
{
    if n >= 10 {
        lemma_dec_len_pos(n / 10);
    }
}

/// The digit character of `d < 10`.
pub fn digit(d: u64) -> (c: char)
    requires
        d < 10,
    ensures
        c == digit_char(d as nat),
{
    if d == 0 { '0' }
    else if d == 1 { '1' }
    else if d == 2 { '2' }
    else if d == 3 { '3' }
    else if d == 4 { '4' }
    else if d == 5 { '5' }
    else if d == 6 { '6' }
    else if d == 7 { '7' }
    else if d == 8 { '8' }
    else { '9' }
}

/// Appends the decimal digits of `n`.
pub fn push_dec(s: &mut String, n: u64)
    ensures
        final(s)@ == old(s)@ + dec(n as nat),
    decreases n,
{
    if n >= 10 {
        push_dec(s, n / 10);
    }
    push_char(s, digit(n % 10));
    proof {
        if n >= 10 {
            assert(old(s)@ + dec(n as nat) =~= old(s)@ + dec((n / 10) as nat) + seq![digit_char((n % 10) as nat)]);
        } else {
            assert(old(s)@ + dec(n as nat) =~= old(s)@.push(digit_char(n as nat)));
        }
    }
}

/// Appends `{}` of a signed integer.
pub fn push_int(s: &mut String, n: i64)
    ensures
        final(s)@ == old(s)@ + int_dec(n as int),
{
    if n < 0 {
        push_char(s, '-');
        let m: u64 = (0i128 - n as i128) as u64;
        push_dec(s, m);
        proof {
            assert(old(s)@ + int_dec(n as int) =~= old(s)@.push('-') + dec(m as nat));
        }
    } else {
        push_dec(s, n as u64);
    }
}

/// Appends `k` zero characters.
pub fn push_zeros(s: &mut String, k: usize)
    ensures
        final(s)@ == old(s)@ + zeros(k as nat),
{
    let mut i: usize = 0;
    while i < k
        invariant
            i <= k,
            s@ == old(s)@ + zeros(i as nat),
        decreases k - i,
    {
        push_char(s, '0');
        proof {
            assert(old(s)@ + zeros((i + 1) as nat) =~= (old(s)@ + zeros(i as nat)).push('0'));
        }
        i = i + 1;
    }
}

/// Number of decimal digits of `n`.
pub fn dec_len(n: u64) -> (len: usize)
    ensures
        len as nat == dec(n as nat).len(),
        len <= 20,
    decreases n,
{
    if n < 10 {
        1
    } else {
        let l = dec_len(n / 10);
        proof {
            lemma_dec_len_pos((n / 10) as nat);
            assert(dec(n as nat).len() == dec((n / 10) as nat).len() + 1);
            lemma_dec_len_bound(n as nat);
        }
        l + 1
    }
}

/// A 64-bit number has at most twenty digits.
proof fn lemma_dec_len_bound(n: nat)
    requires
        n < 0x1_0000_0000_0000_0000,
    ensures
        dec(n).len() <= 20,
{
    reveal_with_fuel(pow10, 21);
    assert(pow10(20) == 100000000000000000000);
    lemma_dec_len_le(n, 20);
}

proof fn lemma_dec_len_le(n: nat, k: nat)
    requires
        n < pow10(k),
        k >= 1,
    ensures
        dec(n).len() <= k,
    decreases n,
{
    if n >= 10 {
        if k == 1 {
            assert(pow10(1) == 10 * pow10(0));
        }
        assert(pow10(k) == 10 * pow10((k - 1) as nat));
        lemma_dec_len_le(n / 10, (k - 1) as nat);
    }
}

pub open spec fn pow10(k: nat) -> nat
    decreases k,
{
    if k == 0 { 1 } else { 10 * pow10((k - 1) as nat) }
}

/// Appends `{:0w}` of a signed integer (Rust's sign-aware zero padding).
pub fn push_padded(s: &mut String, n: i64, w: usize)
    ensures
        final(s)@ == old(s)@ + int_padded(n as int, w as nat),
{
    let neg = n < 0;
    let m: u64 = if neg { (0i128 - n as i128) as u64 } else { n as u64 };
    let d = dec_len(m);
    let sign_len: usize = if neg { 1 } else { 0 };
    if neg {
        push_char(s, '-');
    }
    let ghost after_sign = s@;
    let fill: usize = if w > sign_len + d { w - sign_len - d } else { 0 };
    push_zeros(s, fill);
    push_dec(s, m);
    proof {
        let sign: Seq<char> = if n < 0 { seq!['-'] } else { seq![] };
        assert(after_sign =~= old(s)@ + sign);
        assert(s@ =~= old(s)@ + int_padded(n as int, w as nat));
    }
}

} // verus!
