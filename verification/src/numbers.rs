//! Decimal digit strings: printing and parsing, with proofs that parsing a
//! printed number gives the number back.
//!
//! Quantities print as plain digit runs, colors as an optional minus sign
//! and a digit run, and prices as a digit run, a point, and exactly two
//! fractional digits.
use vstd::prelude::*;
use vstd::arithmetic::div_mod::lemma_fundamental_div_mod;

use crate::text::push_char;

verus! {

pub open spec fn is_digit(c: char) -> bool {
    48 <= c as int && c as int <= 57
}

pub open spec fn digit_val(c: char) -> nat {
    (c as int - 48) as nat
}

pub open spec fn digit_char(d: int) -> char {
    if d == 0 {
        '0'
    } else if d == 1 {
        '1'
    } else if d == 2 {
        '2'
    } else if d == 3 {
        '3'
    } else if d == 4 {
        '4'
    } else if d == 5 {
        '5'
    } else if d == 6 {
        '6'
    } else if d == 7 {
        '7'
    } else if d == 8 {
        '8'
    } else {
        '9'
    }
}

/// Each digit value prints as a digit character of that value.
pub proof fn lemma_digit_char_val(d: int)
    requires
        0 <= d <= 9,
    ensures
        is_digit(digit_char(d)),
        digit_val(digit_char(d)) == d,
{
}

/// The decimal digits of `n`, most significant first, without a sign and
/// without leading zeros (except for `n == 0` itself).
pub open spec fn dec_digits(n: nat) -> Seq<char>
    decreases n,
{
    if n < 10 {
        seq![digit_char(n as int)]
    } else {
        dec_digits(n / 10).push(digit_char((n % 10) as int))
    }
}

pub open spec fn all_digits(s: Seq<char>) -> bool {
    forall|i: int| 0 <= i < s.len() ==> is_digit(s[i])
}

/// The value of a digit string, most significant digit first.
pub open spec fn digits_val(s: Seq<char>) -> nat
    decreases s.len(),
{
    if s.len() == 0 {
        0
    } else {
        digits_val(s.drop_last()) * 10 + digit_val(s.last())
    }
}

pub open spec fn pow10(k: nat) -> nat
    decreases k,
{
    if k == 0 {
        1
    } else {
        10 * pow10((k - 1) as nat)
    }
}

/// Powers of ten are positive, and at least ten past the first.
pub proof fn lemma_pow10_pos(k: nat)
    ensures
        pow10(k) >= 1,
        k >= 1 ==> pow10(k) >= 10,
    decreases k,
{
    if k >= 1 {
        lemma_pow10_pos((k - 1) as nat);
    }
}

/// Printed digits are digits, nonempty, and read back to the number.
pub proof fn lemma_dec_digits(n: nat)
    ensures
        dec_digits(n).len() >= 1,
        all_digits(dec_digits(n)),
        digits_val(dec_digits(n)) == n,
    decreases n,
{
    if n < 10 {
        lemma_digit_char_val(n as int);
        assert(dec_digits(n).drop_last() =~= Seq::<char>::empty());
        assert(dec_digits(n).last() == digit_char(n as int));
        assert(digits_val(Seq::<char>::empty()) == 0);
        assert(digits_val(dec_digits(n)) == digits_val(dec_digits(n).drop_last()) * 10
            + digit_val(dec_digits(n).last()));
    } else {
        lemma_dec_digits(n / 10);
        lemma_digit_char_val((n % 10) as int);
        let s0 = dec_digits(n / 10);
        let c = digit_char((n % 10) as int);
        assert(dec_digits(n) == s0.push(c));
        assert(s0.push(c).drop_last() =~= s0);
        assert(s0.push(c).last() == c);
        lemma_fundamental_div_mod(n as int, 10);
        assert(digits_val(dec_digits(n)) == digits_val(s0) * 10 + digit_val(c));
        assert(n == 10 * (n / 10) + n % 10);
        assert(forall|i: int|
            0 <= i < s0.push(c).len() ==> is_digit(#[trigger] s0.push(c)[i])) by {
            assert forall|i: int| 0 <= i < s0.push(c).len() implies is_digit(
                #[trigger] s0.push(c)[i],
            ) by {
                if i < s0.len() {
                    assert(s0.push(c)[i] == s0[i]);
                }
            }
        }
    }
}

/// A digit string's value, split at its first digit.
pub proof fn lemma_digits_val_prepend(ds: Seq<char>)
    requires
        ds.len() >= 1,
    ensures
        digits_val(ds) == digit_val(ds[0]) * pow10((ds.len() - 1) as nat) + digits_val(
            ds.skip(1),
        ),
    decreases ds.len(),
{
    if ds.len() == 1 {
        assert(ds.drop_last() =~= Seq::<char>::empty());
        assert(ds.skip(1) =~= Seq::<char>::empty());
        assert(ds.last() == ds[0]);
        assert(digits_val(Seq::<char>::empty()) == 0);
        assert(pow10(0) == 1);
        assert(digits_val(ds) == digits_val(ds.drop_last()) * 10 + digit_val(ds.last()));
    } else {
        let head = ds[0];
        let front = ds.drop_last();
        lemma_digits_val_prepend(front);
        assert(front[0] == head);
        assert(ds.skip(1).drop_last() =~= front.skip(1));
        assert(ds.skip(1).last() == ds.last());
        let k = (ds.len() - 2) as nat;
        assert(pow10(k + 1) == 10 * pow10(k));
        assert(digits_val(ds) == digits_val(front) * 10 + digit_val(ds.last()));
        assert(digits_val(front) == digit_val(head) * pow10(k) + digits_val(front.skip(1)));
        assert((digit_val(head) * pow10(k) + digits_val(front.skip(1))) * 10 == digit_val(head)
            * (10 * pow10(k)) + digits_val(front.skip(1)) * 10) by (nonlinear_arith);
        assert(digits_val(ds.skip(1)) == digits_val(front.skip(1)) * 10 + digit_val(ds.last()));
        let vfs = digits_val(front.skip(1));
        assert(digits_val(ds) == (digit_val(head) * pow10(k) + vfs) * 10 + digit_val(ds.last()));
        assert((ds.len() - 1) as nat == k + 1);
        assert(digits_val(ds) == digit_val(head) * (10 * pow10(k)) + (vfs * 10 + digit_val(
            ds.last(),
        )));
        assert(pow10((ds.len() - 1) as nat) == 10 * pow10(k));
    }
}

/// Parses a run of decimal digits starting at `pos`, accumulating into
/// `acc`.  Yields the value and the position just past the run; `None` when
/// there is no digit at all or the value does not fit in a `u64`.
pub open spec fn spec_parse_u64_loop(s: Seq<char>, pos: int, acc: u64, seen: bool) -> Option<
    (u64, int),
>
    decreases s.len() - pos,
{
    if !(0 <= pos <= s.len()) {
        None
    } else if pos < s.len() && is_digit(s[pos]) {
        let d = digit_val(s[pos]);
        if acc as nat * 10 + d > u64::MAX {
            None
        } else {
            spec_parse_u64_loop(s, pos + 1, (acc as nat * 10 + d) as u64, true)
        }
    } else if seen {
        Some((acc, pos))
    } else {
        None
    }
}

proof fn lemma_parse_u64_loop_general(s: Seq<char>, pos: int, ds: Seq<char>, acc: u64, seen: bool)
    requires
        0 <= pos,
        pos + ds.len() <= s.len(),
        all_digits(ds),
        s.subrange(pos, pos + ds.len()) == ds,
        pos + ds.len() == s.len() || !is_digit(s[pos + ds.len()]),
        acc as nat * pow10(ds.len()) + digits_val(ds) <= u64::MAX,
        seen || ds.len() > 0,
    ensures
        spec_parse_u64_loop(s, pos, acc, seen) == Some(
            (((acc as nat * pow10(ds.len()) + digits_val(ds)) as u64), pos + ds.len()),
        ),
    decreases ds.len(),
{
    if ds.len() == 0 {
        assert(pow10(0) == 1);
        assert(pos == s.len() || !is_digit(s[pos]));
        assert(digits_val(ds) == 0);
        assert(spec_parse_u64_loop(s, pos, acc, seen) == Some((acc, pos)));
        assert(acc as nat * pow10(ds.len()) + digits_val(ds) == acc as nat) by (nonlinear_arith)
            requires
                pow10(ds.len()) == 1,
                digits_val(ds) == 0,
        ;
        assert(((acc as nat * pow10(ds.len()) + digits_val(ds)) as u64) == acc);
    } else {
        let d = digit_val(ds[0]);
        let rest = ds.skip(1);
        let l1 = rest.len();
        assert(s[pos] == ds[0]) by {
            assert(s.subrange(pos, pos + ds.len())[0] == s[pos]);
        }
        lemma_digits_val_prepend(ds);
        lemma_pow10_pos(l1);
        // total value, written two ways
        assert(acc as nat * pow10(ds.len()) == acc as nat * (10 * pow10(l1))) by {
            assert(pow10(ds.len()) == 10 * pow10(l1));
        }
        assert((acc as nat * 10 + d) * pow10(l1) == acc as nat * (10 * pow10(l1)) + d * pow10(l1))
            by (nonlinear_arith);
        // the next accumulator fits
        assert(acc as nat * 10 + d <= (acc as nat * 10 + d) * pow10(l1)) by (nonlinear_arith)
            requires
                pow10(l1) >= 1,
        ;
        assert((acc as nat * 10 + d) * pow10(l1) + digits_val(rest) <= u64::MAX);
        let acc2 = (acc as nat * 10 + d) as u64;
        assert(s.subrange(pos + 1, pos + 1 + rest.len()) =~= rest) by {
            assert(forall|i: int|
                0 <= i < rest.len() ==> #[trigger] s.subrange(pos + 1, pos + 1 + rest.len())[i]
                    == s.subrange(pos, pos + ds.len())[i + 1]);
        }
        lemma_parse_u64_loop_general(s, pos + 1, rest, acc2, true);
        assert(acc2 as nat == acc as nat * 10 + d);
        assert(acc2 as nat * pow10(l1) + digits_val(rest) == acc as nat * pow10(ds.len())
            + digits_val(ds));
        assert(spec_parse_u64_loop(s, pos, acc, seen) == spec_parse_u64_loop(s, pos + 1, acc2, true));
        assert(pos + 1 + rest.len() == pos + ds.len());
    }
}

/// Scanning printed digits, delimited by a non-digit, gives the number.
pub proof fn lemma_parse_u64_dec(s: Seq<char>, pos: int, n: u64)
    requires
        0 <= pos,
        pos + dec_digits(n as nat).len() <= s.len(),
        s.subrange(pos, pos + dec_digits(n as nat).len()) == dec_digits(n as nat),
        pos + dec_digits(n as nat).len() == s.len() || !is_digit(
            s[pos + dec_digits(n as nat).len()],
        ),
    ensures
        spec_parse_u64_loop(s, pos, 0, false) == Some((n, pos + dec_digits(n as nat).len())),
{
    lemma_dec_digits(n as nat);
    lemma_parse_u64_loop_general(s, pos, dec_digits(n as nat), 0, false);
}

/// A successful scan lands between its start and the end of the input.
pub proof fn lemma_parse_u64_loop_bounds(s: Seq<char>, pos: int, acc: u64, seen: bool)
    ensures
        (match spec_parse_u64_loop(s, pos, acc, seen) {
            Some((v, q)) => pos <= q <= s.len(),
            None => true,
        }),
    decreases s.len() - pos,
{
    if 0 <= pos <= s.len() {
        if pos < s.len() && is_digit(s[pos]) {
            let d = digit_val(s[pos]);
            if acc as nat * 10 + d <= u64::MAX {
                lemma_parse_u64_loop_bounds(s, pos + 1, (acc as nat * 10 + d) as u64, true);
            }
        }
    }
}

/// A successful signed scan lands between its start and the end.
pub proof fn lemma_parse_i8_bounds(s: Seq<char>, pos: int)
    ensures
        (match spec_parse_i8(s, pos) {
            Some((v, q)) => pos <= q <= s.len(),
            None => true,
        }),
{
    if 0 <= pos < s.len() && s[pos] == '-' {
        lemma_parse_u64_loop_bounds(s, pos + 1, 0, false);
    } else {
        lemma_parse_u64_loop_bounds(s, pos, 0, false);
    }
}

/// The decimal text of a signed color code.
pub open spec fn dec_i8(v: i8) -> Seq<char> {
    if v < 0 {
        seq!['-'] + dec_digits((-(v as int)) as nat)
    } else {
        dec_digits(v as nat)
    }
}

/// Parses an optionally signed integer in the range of `i8` at `pos`.
pub open spec fn spec_parse_i8(s: Seq<char>, pos: int) -> Option<(i8, int)> {
    if 0 <= pos < s.len() && s[pos] == '-' {
        match spec_parse_u64_loop(s, pos + 1, 0, false) {
            Some((m, q)) => if m <= 128 {
                Some(((-(m as int)) as i8, q))
            } else {
                None
            },
            None => None,
        }
    } else {
        match spec_parse_u64_loop(s, pos, 0, false) {
            Some((m, q)) => if m <= 127 {
                Some((m as i8, q))
            } else {
                None
            },
            None => None,
        }
    }
}

/// Scanning a printed signed number gives the number back.
pub proof fn lemma_parse_i8_dec(s: Seq<char>, pos: int, v: i8)
    requires
        0 <= pos,
        pos + dec_i8(v).len() <= s.len(),
        s.subrange(pos, pos + dec_i8(v).len()) == dec_i8(v),
        pos + dec_i8(v).len() == s.len() || !is_digit(s[pos + dec_i8(v).len()]),
    ensures
        spec_parse_i8(s, pos) == Some((v, pos + dec_i8(v).len())),
{
    if v < 0 {
        let m = (-(v as int)) as u64;
        let digits = dec_digits(m as nat);
        assert(s[pos] == '-') by {
            assert(s.subrange(pos, pos + dec_i8(v).len())[0] == s[pos]);
        }
        assert(s.subrange(pos + 1, pos + 1 + digits.len()) =~= digits) by {
            assert(forall|i: int|
                0 <= i < digits.len() ==> #[trigger] s.subrange(pos + 1, pos + 1 + digits.len())[i]
                    == s.subrange(pos, pos + dec_i8(v).len())[i + 1]);
        }
        lemma_parse_u64_dec(s, pos + 1, m);
    } else {
        let m = v as u64;
        lemma_parse_u64_dec(s, pos, m);
        lemma_dec_digits(m as nat);
        assert(s[pos] == dec_i8(v)[0]) by {
            assert(s.subrange(pos, pos + dec_i8(v).len())[0] == s[pos]);
        }
        assert(s[pos] != '-');
    }
}

/// The wire text of a price in hundredths: optional sign, the whole part,
/// a point, and exactly two fractional digits.
pub open spec fn price_text(h: i64) -> Seq<char> {
    let m = if h < 0 {
        -(h as int)
    } else {
        h as int
    };
    let digits = dec_digits((m / 100) as nat) + seq![
        '.',
        digit_char((m % 100) / 10),
        digit_char((m % 100) % 10),
    ];
    if h < 0 {
        seq!['-'] + digits
    } else {
        digits
    }
}

/// Parses decimal price text into hundredths: optional sign, at least one
/// digit, and optionally a point with one or two fractional digits.  `None`
/// when the shape is wrong or the value does not fit in an `i64`.
pub open spec fn spec_parse_price(s: Seq<char>) -> Option<i64> {
    let neg = s.len() > 0 && s[0] == '-';
    let start: int = if neg {
        1
    } else {
        0
    };
    match spec_parse_u64_loop(s, start, 0, false) {
        None => None,
        Some((ip, p)) => {
            let mag: int = if p == s.len() {
                ip as int * 100
            } else if s[p] == '.' {
                if p + 1 < s.len() && is_digit(s[p + 1]) {
                    if p + 2 == s.len() {
                        ip as int * 100 + digit_val(s[p + 1]) * 10
                    } else if p + 3 == s.len() && is_digit(s[p + 2]) {
                        ip as int * 100 + digit_val(s[p + 1]) * 10 + digit_val(s[p + 2])
                    } else {
                        -1
                    }
                } else {
                    -1
                }
            } else {
                -1
            };
            if mag < 0 {
                None
            } else if neg {
                if mag <= i64::MAX as int + 1 {
                    Some((-mag) as i64)
                } else {
                    None
                }
            } else {
                if mag <= i64::MAX as int {
                    Some(mag as i64)
                } else {
                    None
                }
            }
        },
    }
}

/// Parsing printed price text gives the same hundredths back.
pub proof fn lemma_price_roundtrip(h: i64)
    ensures
        spec_parse_price(price_text(h)) == Some(h),
{
    let m = if h < 0 {
        -(h as int)
    } else {
        h as int
    };
    let ipart = (m / 100) as nat;
    let r = m % 100;
    lemma_fundamental_div_mod(m, 100);
    lemma_fundamental_div_mod(r, 10);
    assert(0 <= r < 100);
    let whole = dec_digits(ipart);
    lemma_dec_digits(ipart);
    lemma_digit_char_val(r / 10);
    lemma_digit_char_val(r % 10);
    let tail = seq!['.', digit_char(r / 10), digit_char(r % 10)];
    let digits = whole + tail;
    let s = price_text(h);
    let start: int = if h < 0 {
        1
    } else {
        0
    };
    assert(s.len() == start + whole.len() + 3);
    assert(ipart <= u64::MAX as nat) by {
        assert(m <= i64::MAX as int + 1);
        assert(m / 100 <= m) by (nonlinear_arith)
            requires
                m >= 0,
        ;
    }
    // the digit run of the whole part sits at `start`
    assert(s.subrange(start, start + whole.len()) =~= whole) by {
        assert(forall|i: int| 0 <= i < whole.len() ==> s[start + i] == #[trigger] whole[i]);
    }
    assert(s[start + whole.len()] == '.');
    assert(!is_digit('.'));
    lemma_parse_u64_dec(s, start, ipart as u64);
    let p = start + whole.len();
    assert(s[p + 1] == digit_char(r / 10));
    assert(s[p + 2] == digit_char(r % 10));
    assert(p + 3 == s.len());
    if h < 0 {
        assert(s[0] == '-');
        assert(ipart as int * 100 + (r / 10) * 10 + r % 10 == m);
        assert(m <= i64::MAX as int + 1);
    } else {
        assert(s[0] == whole[0]);
        assert(is_digit(whole[0]));
        assert(s[0] != '-');
        assert(ipart as int * 100 + (r / 10) * 10 + r % 10 == m);
        assert(m <= i64::MAX as int);
    }
}

/// One decimal digit as a character.
pub(crate) fn digit_to_char(d: u64) -> (c: char)
    requires
        d <= 9,
    ensures
        c == digit_char(d as int),
{
    if d == 0 {
        '0'
    } else if d == 1 {
        '1'
    } else if d == 2 {
        '2'
    } else if d == 3 {
        '3'
    } else if d == 4 {
        '4'
    } else if d == 5 {
        '5'
    } else if d == 6 {
        '6'
    } else if d == 7 {
        '7'
    } else if d == 8 {
        '8'
    } else {
        '9'
    }
}

/// Appends the decimal digits of `n`.
pub(crate) fn append_u64(out: &mut String, n: u64)
    ensures
        final(out)@ == old(out)@ + dec_digits(n as nat),
    decreases n,
{
    if n < 10 {
        push_char(out, digit_to_char(n));
        proof {
            assert(out@ =~= old(out)@ + dec_digits(n as nat));
        }
    } else {
        let q = n / 10;
        let r = n % 10;
        append_u64(out, q);
        push_char(out, digit_to_char(r));
        proof {
            assert(out@ =~= old(out)@ + dec_digits(n as nat));
        }
    }
}

/// Appends the decimal text of a signed color code.
pub(crate) fn append_i8(out: &mut String, v: i8)
    ensures
        final(out)@ == old(out)@ + dec_i8(v),
{
    if v < 0 {
        push_char(out, '-');
        let m: i64 = -(v as i64);
        append_u64(out, m as u64);
        proof {
            assert(out@ =~= old(out)@ + dec_i8(v));
        }
    } else {
        append_u64(out, v as u64);
    }
}

/// Classifies one character as a decimal digit.
pub(crate) fn digit_of_char(c: char) -> (r: Option<u64>)
    ensures
        (match r {
            Some(d) => is_digit(c) && d == digit_val(c),
            None => !is_digit(c),
        }),
{
    let cv = c as u32;
    if 48 <= cv && cv <= 57 {
        Some((cv - 48) as u64)
    } else {
        None
    }
}

/// Scans a digit run at `pos`; mirrors [`spec_parse_u64_loop`].
pub(crate) fn parse_u64_at(s: &str, pos: usize, slen: usize) -> (r: Option<(u64, usize)>)
    requires
        slen == s@.len(),
        pos <= slen,
    ensures
        (match r {
            Some((v, q)) => spec_parse_u64_loop(s@, pos as int, 0, false) == Some((v, q as int))
                && q <= slen,
            None => spec_parse_u64_loop(s@, pos as int, 0, false) is None,
        }),
{
    let mut acc: u64 = 0;
    let mut seen: bool = false;
    let mut i: usize = pos;
    loop
        invariant
            pos <= i <= slen,
            slen == s@.len(),
            spec_parse_u64_loop(s@, pos as int, 0, false) == spec_parse_u64_loop(
                s@,
                i as int,
                acc,
                seen,
            ),
        ensures
            pos <= i <= slen,
            spec_parse_u64_loop(s@, pos as int, 0, false) == spec_parse_u64_loop(
                s@,
                i as int,
                acc,
                seen,
            ),
            i == slen || !is_digit(s@[i as int]),
        decreases slen - i,
    {
        if i == slen {
            break ;
        }
        let c = s.get_char(i);
        let cv = c as u32;
        if 48 <= cv && cv <= 57 {
            let d = (cv - 48) as u64;
            proof {
                assert(is_digit(s@[i as int]));
                assert(d == digit_val(s@[i as int]));
            }
            match acc.checked_mul(10) {
                Some(a10) => {
                    match a10.checked_add(d) {
                        Some(a2) => {
                            acc = a2;
                            seen = true;
                            i = i + 1;
                        },
                        None => {
                            proof {
                                assert(spec_parse_u64_loop(s@, i as int, acc, seen) is None);
                            }
                            return None;
                        },
                    }
                },
                None => {
                    proof {
                        assert(acc as nat * 10 + digit_val(s@[i as int]) > u64::MAX);
                        assert(spec_parse_u64_loop(s@, i as int, acc, seen) is None);
                    }
                    return None;
                },
            }
        } else {
            proof {
                assert(!is_digit(s@[i as int]));
            }
            break ;
        }
    }
    if seen {
        Some((acc, i))
    } else {
        None
    }
}

/// Scans an optionally signed `i8` at `pos`; mirrors [`spec_parse_i8`].
pub(crate) fn parse_i8_at(s: &str, pos: usize, slen: usize) -> (r: Option<(i8, usize)>)
    requires
        slen == s@.len(),
        pos <= slen,
    ensures
        (match r {
            Some((v, q)) => spec_parse_i8(s@, pos as int) == Some((v, q as int)) && q <= slen,
            None => spec_parse_i8(s@, pos as int) is None,
        }),
{
    if pos < slen && s.get_char(pos) == '-' {
        match parse_u64_at(s, pos + 1, slen) {
            Some((m, q)) => {
                if m <= 128 {
                    let neg: i64 = -(m as i64);
                    Some((neg as i8, q))
                } else {
                    None
                }
            },
            None => None,
        }
    } else {
        match parse_u64_at(s, pos, slen) {
            Some((m, q)) => {
                if m <= 127 {
                    Some((m as i8, q))
                } else {
                    None
                }
            },
            None => None,
        }
    }
}

} // verus!
