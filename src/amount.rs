use vstd::prelude::*;

use crate::transactions::Amount;

verus! {

/// Whether `b` is an ASCII decimal digit.
pub open spec fn is_digit(b: u8) -> bool {
    48 <= b <= 57
}

/// Whether every byte of `s` is an ASCII decimal digit.
pub open spec fn all_digits(s: Seq<u8>) -> bool {
    forall|i: int| 0 <= i < s.len() ==> is_digit(#[trigger] s[i])
}

/// The number that a run of decimal digits spells, most significant first.
pub open spec fn digits_value(s: Seq<u8>) -> int
    decreases s.len(),
{
    if s.len() == 0 {
        0
    } else {
        digits_value(s.drop_last()) * 10 + (s.last() - 48)
    }
}

/// The index of the first `.` in `s` at or after `i`, or `s.len()` if there is none.
pub open spec fn first_dot(s: Seq<u8>, i: int) -> int
    decreases s.len() - i,
{
    if i >= s.len() {
        s.len() as int
    } else if s[i] == 46 {
        i
    } else {
        first_dot(s, i + 1)
    }
}

/// Ten to the power of the number of fractional digits that `n` of them
/// leave out of four.
pub open spec fn fraction_scale(n: int) -> int {
    if n == 0 {
        10000
    } else if n == 1 {
        1000
    } else if n == 2 {
        100
    } else if n == 3 {
        10
    } else {
        1
    }
}

/// The length of the sign in front of a decimal text: one for `-` or `+`.
pub open spec fn sign_len(s: Seq<u8>) -> int {
    if s.len() > 0 && (s[0] == 45 || s[0] == 43) {
        1
    } else {
        0
    }
}

/// The value, in ten-thousandths, of a decimal text: an optional sign, then
/// digits with at most one `.` among them, at least one digit and at most four
/// after the `.`. `None` for any other text.
pub open spec fn decimal_value(s: Seq<u8>) -> Option<int> {
    let body = s.subrange(sign_len(s), s.len() as int);
    let p = first_dot(body, 0);
    let whole = body.subrange(0, p);
    let frac = if p < body.len() {
        body.subrange(p + 1, body.len() as int)
    } else {
        Seq::<u8>::empty()
    };
    if all_digits(whole) && all_digits(frac) && whole.len() + frac.len() > 0 && frac.len() <= 4 {
        let v = digits_value(whole) * 10000 + digits_value(frac) * fraction_scale(frac.len() as int);
        Some(
            if s.len() > 0 && s[0] == 45 {
                -v
            } else {
                v
            },
        )
    } else {
        None
    }
}

/// The amount that a decimal text stands for, if it is one and fits an `Amount`.
pub open spec fn amount_of(s: Seq<u8>) -> Option<Amount> {
    match decimal_value(s) {
        Some(v) => if i64::MIN <= v <= i64::MAX {
            Some(v as i64)
        } else {
            None
        },
        None => None,
    }
}

proof fn lemma_digits_value_nonneg(s: Seq<u8>)
    requires
        all_digits(s),
    ensures
        0 <= digits_value(s),
    decreases s.len(),
{
    if s.len() > 0 {
        assert(all_digits(s.drop_last()));
        lemma_digits_value_nonneg(s.drop_last());
        assert(is_digit(s[s.len() - 1]));
    }
}

/// Reads the digits `s[lo..hi]`. Returns whether they are all digits, and
/// their value while it stays at most `cap` (more than `cap` otherwise).
fn read_digits(s: &[u8], lo: usize, hi: usize, cap: i128) -> (r: (bool, i128))
    requires
        lo <= hi <= s@.len(),
        0 <= cap <= 0x100000000000000000000,
    ensures
        r.0 == all_digits(s@.subrange(lo as int, hi as int)),
        r.0 && digits_value(s@.subrange(lo as int, hi as int)) <= cap ==> r.1 == digits_value(
            s@.subrange(lo as int, hi as int),
        ),
        r.0 && digits_value(s@.subrange(lo as int, hi as int)) > cap ==> r.1 > cap,
{
    let mut acc: i128 = 0;
    let mut i: usize = lo;
    while i < hi
        invariant
            lo <= i <= hi <= s@.len(),
            0 <= cap <= 0x100000000000000000000,
            all_digits(s@.subrange(lo as int, i as int)),
            0 <= acc <= cap + 1,
            digits_value(s@.subrange(lo as int, i as int)) <= cap ==> acc == digits_value(s@.subrange(lo as int, i as int)),
            digits_value(s@.subrange(lo as int, i as int)) > cap ==> acc == cap + 1,
        decreases hi - i,
    {
        let b = s[i];
        let ghost prev = s@.subrange(lo as int, i as int);
        let ghost next = s@.subrange(lo as int, i + 1);
        assert(next.drop_last() =~= prev);
        if b < 48 || b > 57 {
            proof {
                assert forall|j: int| lo <= j <= hi implies !all_digits(#[trigger] s@.subrange(lo as int, j)) || j <= i by {
                    if j > i {
                        assert(s@.subrange(lo as int, j)[i - lo] == b);
                    }
                }
            }
            assert(s@.subrange(lo as int, hi as int)[i - lo] == b);
            return (false, 0);
        }
        proof {
            lemma_digits_value_nonneg(prev);
        }
        if acc <= cap {
            let d = (b - 48) as i128;
            let v = acc * 10 + d;
            acc = if v > cap { cap + 1 } else { v };
        }
        i = i + 1;
    }
    (true, acc)
}

/// Ten to the power `n`.
pub open spec fn pow10(n: nat) -> int
    decreases n,
{
    if n == 0 {
        1
    } else {
        10 * pow10((n - 1) as nat)
    }
}

proof fn lemma_digits_value_bound(s: Seq<u8>)
    requires
        all_digits(s),
    ensures
        0 <= digits_value(s) < pow10(s.len()),
    decreases s.len(),
{
    if s.len() > 0 {
        assert(all_digits(s.drop_last()));
        lemma_digits_value_bound(s.drop_last());
        assert(is_digit(s[s.len() - 1]));
    }
}

/// Parses a decimal amount: an optional `-` or `+`, then digits with at most
/// one `.` among them, at least one digit, and at most four digits after the
/// `.`. The result is in ten-thousandths; `None` for any other text, or for a
/// value that does not fit an `Amount`.
pub fn parse_amount(s: &[u8]) -> (r: Option<Amount>)
    ensures
        r == amount_of(s@),
{
    let n = s.len();
    let sl: usize = if n > 0 && (s[0] == 45 || s[0] == 43) { 1 } else { 0 };
    let ghost body = s@.subrange(sl as int, n as int);
    let mut p: usize = sl;
    while p < n && s[p] != 46
        invariant
            sl <= p <= n == s@.len(),
            body == s@.subrange(sl as int, n as int),
            first_dot(body, 0) == first_dot(body, p - sl),
        decreases n - p,
    {
        assert(body[p - sl] == s@[p as int]);
        p = p + 1;
    }
    proof {
        if p < n {
            assert(body[p - sl] == s@[p as int]);
        }
        assert(first_dot(body, 0) == p - sl);
        assert(body.subrange(0, p - sl) =~= s@.subrange(sl as int, p as int));
        if p < n {
            assert(body.subrange(p - sl + 1, body.len() as int) =~= s@.subrange(p + 1, n as int));
        }
    }
    let frac_lo: usize = if p < n { p + 1 } else { n };
    let ghost whole = s@.subrange(sl as int, p as int);
    let ghost frac = s@.subrange(frac_lo as int, n as int);
    assert(p >= n ==> frac =~= Seq::<u8>::empty());
    let frac_len = n - frac_lo;
    if frac_len > 4 || (p - sl) + frac_len == 0 {
        return None;
    }
    let cap: i128 = 1_000_000_000_000_000;
    let (whole_ok, whole_v) = read_digits(s, sl, p, cap);
    let (frac_ok, frac_v) = read_digits(s, frac_lo, n, cap);
    if !whole_ok || !frac_ok {
        return None;
    }
    proof {
        lemma_digits_value_bound(frac);
        assert(pow10(frac.len()) <= 10000) by {
            reveal_with_fuel(pow10, 5);
        }
        lemma_digits_value_nonneg(whole);
    }
    if whole_v > cap {
        return None;
    }
    let scale: i128 = if frac_len == 0 {
        10000
    } else if frac_len == 1 {
        1000
    } else if frac_len == 2 {
        100
    } else if frac_len == 3 {
        10
    } else {
        1
    };
    assert(0 <= frac_v * scale <= 9999 * 10000) by (nonlinear_arith)
        requires
            0 <= frac_v <= 9999,
            1 <= scale <= 10000,
    ;
    let v: i128 = whole_v * 10000 + frac_v * scale;
    let signed: i128 = if n > 0 && s[0] == 45 { -v } else { v };
    if signed < i64::MIN as i128 || signed > i64::MAX as i128 {
        None
    } else {
        Some(signed as i64)
    }
}

/// The decimal digits of `n`, most significant first, without leading zeros
/// (a single `0` for zero).
pub open spec fn digits_of(n: nat) -> Seq<u8>
    decreases n,
{
    if n < 10 {
        seq![(48 + n) as u8]
    } else {
        digits_of(n / 10).push((48 + n % 10) as u8)
    }
}

/// The four decimals of `f` (below `10000`), without trailing zeros but with
/// at least one digit.
pub open spec fn fraction_text(f: nat) -> Seq<u8> {
    let d1 = (48 + f / 1000) as u8;
    let d2 = (48 + f / 100 % 10) as u8;
    let d3 = (48 + f / 10 % 10) as u8;
    let d4 = (48 + f % 10) as u8;
    if f % 1000 == 0 {
        seq![d1]
    } else if f % 100 == 0 {
        seq![d1, d2]
    } else if f % 10 == 0 {
        seq![d1, d2, d3]
    } else {
        seq![d1, d2, d3, d4]
    }
}

/// The decimal text of an amount of ten-thousandths: a `-` for a negative
/// amount, the whole units, a `.`, and the decimals without trailing zeros
/// (`8000` is `0.8`, `0` is `0.0`).
pub open spec fn amount_text(a: int) -> Seq<u8> {
    let m = if a < 0 { -a } else { a };
    let sign = if a < 0 { seq![45u8] } else { Seq::<u8>::empty() };
    sign + digits_of((m / 10000) as nat) + seq![46u8] + fraction_text((m % 10000) as nat)
}

fn push_digits(out: &mut Vec<u8>, n: u64)
    ensures
        final(out)@ == old(out)@ + digits_of(n as nat),
    decreases n,
{
    if n >= 10 {
        push_digits(out, n / 10);
    }
    out.push((48 + n % 10) as u8);
    proof {
        if n < 10 {
            assert(n % 10 == n);
        }
        assert(final(out)@ =~= old(out)@ + digits_of(n as nat));
    }
}

/// Writes an amount of ten-thousandths as decimal text.
pub fn format_amount(a: Amount) -> (r: Vec<u8>)
    ensures
        r@ == amount_text(a as int),
{
    let mut out: Vec<u8> = Vec::new();
    if a < 0 {
        out.push(45);
    }
    let m: u64 = if a < 0 { (-(a as i128)) as u64 } else { a as u64 };
    push_digits(&mut out, m / 10000);
    out.push(46);
    let f = m % 10000;
    out.push((48 + f / 1000) as u8);
    if f % 1000 != 0 {
        out.push((48 + f / 100 % 10) as u8);
        if f % 100 != 0 {
            out.push((48 + f / 10 % 10) as u8);
            if f % 10 != 0 {
                out.push((48 + f % 10) as u8);
            }
        }
    }
    assert(out@ =~= amount_text(a as int));
    out
}

proof fn lemma_digits_of(n: nat)
    ensures
        digits_of(n).len() >= 1,
        all_digits(digits_of(n)),
        digits_value(digits_of(n)) == n,
    decreases n,
{
    if n >= 10 {
        lemma_digits_of(n / 10);
        let d = digits_of(n);
        assert(d.drop_last() =~= digits_of(n / 10));
        assert forall|i: int| 0 <= i < d.len() implies is_digit(#[trigger] d[i]) by {
            if i < d.len() - 1 {
                assert(d[i] == digits_of(n / 10)[i]);
            }
        }
        assert(d.last() == 48 + n % 10);
        assert(digits_value(d) == digits_value(d.drop_last()) * 10 + (d.last() - 48));
        assert(digits_value(d.drop_last()) == n / 10);
        assert((n / 10) * 10 + n % 10 == n);
    } else {
        let d = digits_of(n);
        assert(d.drop_last() =~= Seq::<u8>::empty());
        assert(d.last() == 48 + n);
        assert(digits_value(d) == digits_value(d.drop_last()) * 10 + (d.last() - 48));
    }
}

proof fn lemma_first_dot_after_digits(s: Seq<u8>, k: int, i: int)
    requires
        0 <= i <= k < s.len(),
        all_digits(s.subrange(0, k)),
        s[k] == 46,
    ensures
        first_dot(s, i) == k,
    decreases k - i,
{
    if i < k {
        assert(is_digit(s.subrange(0, k)[i]));
        lemma_first_dot_after_digits(s, k, i + 1);
    }
}

proof fn lemma_fraction_text(f: nat)
    requires
        f < 10000,
    ensures
        1 <= fraction_text(f).len() <= 4,
        all_digits(fraction_text(f)),
        digits_value(fraction_text(f)) * fraction_scale(fraction_text(f).len() as int) == f,
{
    let t = fraction_text(f);
    reveal_with_fuel(digits_value, 5);
    if f % 1000 == 0 {
        assert(t.drop_last() =~= Seq::<u8>::empty());
    } else if f % 100 == 0 {
        assert(t.drop_last().drop_last() =~= Seq::<u8>::empty());
    } else if f % 10 == 0 {
        assert(t.drop_last().drop_last().drop_last() =~= Seq::<u8>::empty());
    } else {
        assert(t.drop_last().drop_last().drop_last().drop_last() =~= Seq::<u8>::empty());
    }
}

/// Writing an amount as text and parsing the text gives the amount back.
#[verifier::rlimit(30)]
pub proof fn lemma_format_then_parse(a: Amount)
    ensures
        amount_of(amount_text(a as int)) == Some(a),
{
    let m: int = if a < 0 { -a } else { a as int };
    let w = (m / 10000) as nat;
    let f = (m % 10000) as nat;
    let sign = if a < 0 { seq![45u8] } else { Seq::<u8>::empty() };
    let d = digits_of(w);
    let ft = fraction_text(f);
    let t = amount_text(a as int);
    lemma_digits_of(w);
    lemma_fraction_text(f);
    assert(t == sign + d + seq![46u8] + ft);
    assert(is_digit(d[0]));
    if a < 0 {
        assert(t[0] == 45);
    } else {
        assert(t[0] == d[0]);
    }
    assert(sign_len(t) == sign.len());
    let body = t.subrange(sign_len(t), t.len() as int);
    assert(body =~= d + seq![46u8] + ft);
    assert(body.subrange(0, d.len() as int) =~= d);
    lemma_first_dot_after_digits(body, d.len() as int, 0);
    assert(body.subrange(d.len() as int + 1, body.len() as int) =~= ft);
    assert(w * 10000 + f == m);
}

} // verus!
