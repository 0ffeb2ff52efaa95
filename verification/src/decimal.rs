//! Decimal text of fixed-point numbers.
//!
//! A value is a natural number of units, `10^precision` of which make one.
//! With precision 0 the text is the plain decimal numeral of the value; with
//! precision 2 the value 150 is written `1.50`.

use vstd::prelude::*;
use vstd::string::*;
use crate::round::lemma_round_div_unique;
use crate::round::round_div;

verus! {

/// Ten to the power `e`.
pub open spec fn pow10(e: nat) -> nat
    decreases e,
{
    if e == 0 {
        1
    } else {
        10 * pow10((e - 1) as nat)
    }
}

/// The character that writes the digit `d`.
pub open spec fn digit_char(d: nat) -> char
    recommends
        d < 10,
{
    if d == 0 {
        '0'
    } else if d == 1 {
        '1'
    } else if d == 2 {
        '2'
    } else if d == 3 {
        '3'
    } else if d == 4 {
        '4'
    } else if d == 5 {
        '5'
    } else if d == 6 {
        '6'
    } else if d == 7 {
        '7'
    } else if d == 8 {
        '8'
    } else {
        '9'
    }
}

/// The decimal numeral of `n`, without leading zeros.
pub open spec fn digits(n: nat) -> Seq<char>
    decreases n,
{
    if n < 10 {
        seq![digit_char(n)]
    } else {
        digits(n / 10).push(digit_char(n % 10))
    }
}

/// The last `width` decimal digits of `n`, with leading zeros where `n` has
/// fewer.
pub open spec fn padded(n: nat, width: nat) -> Seq<char>
    decreases width,
{
    if width == 0 {
        Seq::<char>::empty()
    } else {
        padded(n / 10, (width - 1) as nat).push(digit_char(n % 10))
    }
}

/// The text of `value` units at `precision` decimal places: the whole part,
/// and for a precision above zero a point and exactly `precision` digits.
pub open spec fn fixed_text(value: nat, precision: nat) -> Seq<char> {
    if precision == 0 {
        digits(value)
    } else {
        digits(value / pow10(precision)) + seq!['.'] + padded(
            value % pow10(precision),
            precision,
        )
    }
}

/// Whether `c` is one of the ten decimal digits.
pub open spec fn is_digit(c: char) -> bool {
    48 <= c as u32 <= 57
}

/// The number that the digit `c` writes.
pub open spec fn digit_value(c: char) -> nat
    recommends
        is_digit(c),
{
    (c as u32 - 48) as nat
}

/// Whether every character of `s` is a decimal digit.
pub open spec fn all_digits(s: Seq<char>) -> bool {
    forall|i: int| 0 <= i < s.len() ==> is_digit(#[trigger] s[i])
}

/// The number that the digits `s` write, read as a decimal numeral; zero for
/// no digits at all.
pub open spec fn number(s: Seq<char>) -> nat
    decreases s.len(),
{
    if s.len() == 0 {
        0
    } else {
        number(s.drop_last()) * 10 + digit_value(s.last())
    }
}

/// Whether `s` is a numeral whose whole part is its first `k` characters: one
/// digit or more, then nothing, or a point and any number of digits. A point
/// is only read where the precision is above zero.
pub open spec fn splits_at(s: Seq<char>, precision: nat, k: int) -> bool {
    &&& 1 <= k <= s.len()
    &&& all_digits(s.take(k))
    &&& k < s.len() ==> {
        &&& s[k] == '.'
        &&& precision > 0
        &&& all_digits(s.skip(k + 1))
    }
}

/// The number of units that the digits `frac` write behind the point:
/// decimal places that are missing count as zeros, and decimal places beyond
/// the precision are rounded to the nearest unit, halves up.
pub open spec fn frac_units(frac: Seq<char>, precision: nat) -> nat {
    if frac.len() <= precision {
        number(frac) * pow10((precision - frac.len()) as nat)
    } else {
        round_div(number(frac), pow10((frac.len() - precision) as nat))
    }
}

/// The number of units that `s` writes when its whole part is its first `k`
/// characters.
pub open spec fn value_at(s: Seq<char>, precision: nat, k: int) -> nat {
    if k < s.len() {
        number(s.take(k)) * pow10(precision) + frac_units(s.skip(k + 1), precision)
    } else {
        number(s.take(k)) * pow10(precision)
    }
}

/// The number of units that the text `s` writes at `precision` decimal
/// places, or `None` where `s` is no such numeral.
pub open spec fn parse_value(s: Seq<char>, precision: nat) -> Option<nat> {
    if exists|k: int| splits_at(s, precision, k) {
        Some(value_at(s, precision, choose|k: int| splits_at(s, precision, k)))
    } else {
        None
    }
}

/// A number of units as a 32-bit counter holds it: a number that does not fit
/// becomes the largest that does.
pub open spec fn saturate(v: nat) -> u32 {
    if v > u32::MAX {
        u32::MAX
    } else {
        v as u32
    }
}

/// The whole part of a numeral is its longest run of leading digits: if the
/// first `i` characters of `s` are digits and the next is not, a split of `s`
/// can only be at `i`.
pub proof fn lemma_split_at_digit_run(s: Seq<char>, precision: nat, i: int, k: int)
    requires
        0 <= i <= s.len(),
        all_digits(s.take(i)),
        i < s.len() ==> !is_digit(s[i]),
        splits_at(s, precision, k),
    ensures
        k == i,
{
    if k > i {
        assert(s.take(k)[i] == s[i]);
    }
    if k < i {
        assert(s.take(i)[k] == s[k]);
    }
}

/// A text has at most one split, so `parse_value` reads it in the only way
/// there is.
pub proof fn lemma_split_unique(s: Seq<char>, precision: nat, k1: int, k2: int)
    requires
        splits_at(s, precision, k1),
        splits_at(s, precision, k2),
    ensures
        k1 == k2,
        parse_value(s, precision) == Some(value_at(s, precision, k1)),
{
    lemma_split_at_digit_run(s, precision, k1, k2);
    let k = choose|k: int| splits_at(s, precision, k);
    lemma_split_at_digit_run(s, precision, k1, k);
}

/// Each digit character is a digit and writes its own number.
pub proof fn lemma_digit_char(d: nat)
    requires
        d < 10,
    ensures
        is_digit(digit_char(d)),
        digit_value(digit_char(d)) == d,
{
}

/// A numeral of `n` digits writes a number below `10^n`.
pub proof fn lemma_number_bound(s: Seq<char>)
    requires
        all_digits(s),
    ensures
        number(s) < pow10(s.len()),
    decreases s.len(),
{
    if s.len() > 0 {
        let init = s.drop_last();
        assert forall|i: int| 0 <= i < init.len() implies is_digit(#[trigger] init[i]) by {
            assert(init[i] == s[i]);
        }
        lemma_number_bound(init);
        assert(is_digit(s[s.len() - 1]));
    }
}

/// Digits written behind other digits: the number that `a` followed by `b`
/// writes is the number of `a`, shifted by the length of `b`, plus the number
/// of `b`.
pub proof fn lemma_number_concat(a: Seq<char>, b: Seq<char>)
    ensures
        number(a + b) == number(a) * pow10(b.len()) + number(b),
    decreases b.len(),
{
    if b.len() == 0 {
        assert(a + b =~= a);
        assert(number(a) * 1 == number(a));
    } else {
        let init = b.drop_last();
        lemma_number_concat(a, init);
        assert((a + b).drop_last() =~= a + init);
        assert((a + b).last() == b.last());
        let e = pow10(init.len());
        assert(pow10(b.len()) == 10 * e);
        assert((number(a) * e + number(init)) * 10 == number(a) * (10 * e) + number(init) * 10)
            by (nonlinear_arith);
    }
}

/// Rounding decimal places beyond the precision looks at the first of them
/// only: the units are those of the places within the precision, and one
/// more where the next digit is five or above.
pub proof fn lemma_frac_units_rounds(frac: Seq<char>, precision: nat)
    requires
        all_digits(frac),
        frac.len() > precision,
    ensures
        frac_units(frac, precision) == number(frac.take(precision as int)) + if digit_value(
            frac[precision as int],
        ) >= 5 {
            1nat
        } else {
            0nat
        },
{
    let p = precision as int;
    let head = frac.take(p);
    let tail = frac.skip(p);
    let first = seq![frac[p]];
    let rest = frac.skip(p + 1);
    assert(frac =~= head + tail);
    assert(tail =~= first + rest);
    lemma_number_concat(head, tail);
    lemma_number_concat(first, rest);
    assert(first.drop_last() =~= Seq::<char>::empty());
    assert(number(first) == digit_value(frac[p])) by {
        assert(number(first.drop_last()) == 0);
        assert(first.last() == frac[p]);
    }
    assert forall|i: int| 0 <= i < rest.len() implies is_digit(#[trigger] rest[i]) by {
        assert(rest[i] == frac[p + 1 + i]);
    }
    lemma_number_bound(rest);
    let e = pow10(rest.len());
    let unit = pow10(tail.len());
    assert(unit == 10 * e);
    let d = digit_value(frac[p]);
    assert(is_digit(frac[p]));
    let t = number(tail);
    let h = number(head);
    let n = number(frac);
    assert(t == d * e + number(rest));
    assert(n == h * unit + t);
    let up: nat = if d >= 5 {
        1
    } else {
        0
    };
    lemma_pow10_monotonic(0, rest.len());
    assert(2 * (h + up) * unit - unit <= 2 * n < 2 * (h + up) * unit + unit) by (nonlinear_arith)
        requires
            n == h * unit + t,
            t == d * e + number(rest),
            number(rest) < e,
            unit == 10 * e,
            e >= 1,
            d <= 9,
            up == if d >= 5 { 1nat } else { 0nat },
    ;
    lemma_round_div_unique(n, unit, h + up);
}

/// The numeral of `n` is made of digits, one at least, and writes `n`.
pub proof fn lemma_digits_number(n: nat)
    ensures
        digits(n).len() >= 1,
        all_digits(digits(n)),
        number(digits(n)) == n,
    decreases n,
{
    lemma_digit_char(n % 10);
    if n < 10 {
        let s = digits(n);
        assert(s.drop_last() =~= Seq::<char>::empty());
        assert(number(s.drop_last()) == 0);
    } else {
        lemma_digits_number(n / 10);
        let s = digits(n);
        assert(s.drop_last() =~= digits(n / 10));
        assert forall|i: int| 0 <= i < s.len() implies is_digit(#[trigger] s[i]) by {
            if i < s.len() - 1 {
                assert(s[i] == digits(n / 10)[i]);
            }
        }
    }
}

/// The last `width` digits of `n` are `width` digits, and write `n` modulo
/// `10^width`.
pub proof fn lemma_padded_number(n: nat, width: nat)
    ensures
        padded(n, width).len() == width,
        all_digits(padded(n, width)),
        number(padded(n, width)) == n % pow10(width),
    decreases width,
{
    if width > 0 {
        let w = (width - 1) as nat;
        lemma_padded_number(n / 10, w);
        lemma_digit_char(n % 10);
        let s = padded(n, width);
        assert(s.drop_last() =~= padded(n / 10, w));
        assert forall|i: int| 0 <= i < s.len() implies is_digit(#[trigger] s[i]) by {
            if i < s.len() - 1 {
                assert(s[i] == padded(n / 10, w)[i]);
            }
        }
        lemma_pow10_monotonic(0, w);
        vstd::arithmetic::div_mod::lemma_mod_breakdown(n as int, 10, pow10(w) as int);
        assert(10 * ((n / 10) % pow10(w)) == ((n / 10) % pow10(w)) * 10);
        assert((n as int) / 10 == (n / 10) as int);
    }
}

/// Reading back what was written gives the value that was written.
pub proof fn lemma_parse_fixed_text(value: nat, precision: nat)
    ensures
        parse_value(fixed_text(value, precision), precision) == Some(value),
{
    let s = fixed_text(value, precision);
    if precision == 0 {
        lemma_digits_number(value);
        assert(s.take(s.len() as int) =~= s);
        assert(splits_at(s, precision, s.len() as int));
        lemma_split_unique(s, precision, s.len() as int, s.len() as int);
        assert(pow10(0) == 1);
        assert(value_at(s, precision, s.len() as int) == value);
    } else {
        let unit = pow10(precision);
        lemma_pow10_monotonic(0, precision);
        let whole = digits(value / unit);
        let frac = padded(value % unit, precision);
        lemma_digits_number(value / unit);
        lemma_padded_number(value % unit, precision);
        let k = whole.len() as int;
        assert(s.take(k) =~= whole);
        assert(s.skip(k + 1) =~= frac);
        assert(s[k] == '.');
        assert(splits_at(s, precision, k));
        lemma_split_unique(s, precision, k, k);
        assert(pow10(0) == 1);
        vstd::arithmetic::div_mod::lemma_small_mod(value % unit, unit);
        vstd::arithmetic::div_mod::lemma_fundamental_div_mod(value as int, unit as int);
        assert((value / unit) * unit == unit * (value / unit)) by (nonlinear_arith);
        assert(s.len() - k - 1 == precision);
        assert(number(frac) == value % unit);
        assert(number(whole) == value / unit);
        assert(number(frac) * 1 == number(frac));
        assert(frac_units(frac, precision) == number(frac));
        assert(value_at(s, precision, k) == value);
    }
}

/// `pow10` on the exponents whose power fits 32 bits.
pub proof fn lemma_pow10_values()
    ensures
        pow10(0) == 1,
        pow10(1) == 10,
        pow10(2) == 100,
        pow10(3) == 1_000,
        pow10(4) == 10_000,
        pow10(5) == 100_000,
        pow10(6) == 1_000_000,
        pow10(7) == 10_000_000,
        pow10(8) == 100_000_000,
        pow10(9) == 1_000_000_000,
{
    reveal_with_fuel(pow10, 11);
}

/// Ten to the power `e`, for the exponents whose power fits 32 bits.
pub fn ten_to(e: u32) -> (r: u32)
    requires
        e <= 9,
    ensures
        r == pow10(e as nat),
        1 <= r <= 1_000_000_000,
{
    proof {
        lemma_pow10_values();
    }
    let mut r: u32 = 1;
    let mut i: u32 = 0;
    while i < e
        invariant
            i <= e <= 9,
            r == pow10(i as nat),
            1 <= r,
            i <= 9 ==> r <= pow10(9),
            pow10(9) == 1_000_000_000,
        decreases e - i,
    {
        proof {
            lemma_pow10_monotonic((i + 1) as nat, 9);
        }
        r = r * 10;
        i = i + 1;
    }
    r
}

/// A larger exponent gives a power of ten at least as large.
pub proof fn lemma_pow10_monotonic(a: nat, b: nat)
    requires
        a <= b,
    ensures
        1 <= pow10(a) <= pow10(b),
    decreases b,
{
    if a == 0 {
        if b > 0 {
            lemma_pow10_monotonic(0, (b - 1) as nat);
        }
    } else {
        lemma_pow10_monotonic((a - 1) as nat, (b - 1) as nat);
    }
}

/// The number that the character `c` writes, if it is a digit.
pub fn digit_of(c: char) -> (r: Option<u32>)
    ensures
        r is Some <==> is_digit(c),
        r matches Some(d) ==> d == digit_value(c) && d < 10,
{
    let code: u32 = c as u32;
    if 48 <= code && code <= 57 {
        Some(code - 48)
    } else {
        None
    }
}

/// The bound at which a number read from text stops being counted exactly:
/// any number from here on is too large for a 32-bit counter.
spec fn read_cap() -> nat {
    0x1_0000_0000
}

/// A number as the reader counts it: exactly below the cap, and as
/// the cap from there on.
spec fn capped(n: nat) -> nat {
    if n >= read_cap() {
        read_cap()
    } else {
        n
    }
}

/// Reads the run of digits of `text` that starts at `start` and ends before
/// `len` at the latest: returns where it ends and the number it writes,
/// counted up to the cap.
fn read_digits(text: &str, start: usize, len: usize) -> (r: (usize, u64))
    requires
        start <= len <= text@.len(),
    ensures
        start <= r.0 <= len,
        all_digits(text@.subrange(start as int, r.0 as int)),
        r.0 < len ==> !is_digit(text@[r.0 as int]),
        r.1 == capped(number(text@.subrange(start as int, r.0 as int))),
{
    let mut i: usize = start;
    let mut acc: u64 = 0;
    let mut done: bool = false;
    assert(text@.subrange(start as int, start as int) =~= Seq::<char>::empty());
    while i < len && !done
        invariant
            start <= i <= len <= text@.len(),
            all_digits(text@.subrange(start as int, i as int)),
            acc == capped(number(text@.subrange(start as int, i as int))),
            done ==> i < len && !is_digit(text@[i as int]),
        decreases len - i + if done { 0int } else { 1int },
    {
        let c = text.get_char(i);
        match digit_of(c) {
            Some(d) => {
                proof {
                    let before = text@.subrange(start as int, i as int);
                    let after = text@.subrange(start as int, i + 1);
                    assert(after.drop_last() =~= before);
                    assert(after.last() == c);
                    assert forall|j: int| 0 <= j < after.len() implies is_digit(
                        #[trigger] after[j],
                    ) by {
                        if j < before.len() {
                            assert(after[j] == before[j]);
                        }
                    }
                }
                let next: u64 = acc * 10 + d as u64;
                acc = if next >= 0x1_0000_0000 {
                    0x1_0000_0000
                } else {
                    next
                };
                i = i + 1;
            },
            None => {
                done = true;
            },
        }
    }
    (i, acc)
}

/// Reads `text` as a number of units at `precision` decimal places.
///
/// The text is one digit or more, and where the precision is above zero it
/// may go on with a point and any number of digits; decimal places beyond
/// the precision are rounded to the nearest unit, halves up. Any other text
/// gives `None`. A number too large for 32 bits is read as `u32::MAX`.
pub fn parse_fixed(text: &str, precision: u32) -> (r: Option<u32>)
    requires
        precision <= 9,
    ensures
        r == match parse_value(text@, precision as nat) {
            Some(v) => Some(saturate(v)),
            None => None,
        },
{
    let ghost s = text@;
    let ghost p = precision as nat;
    let len = text.unicode_len();
    let (k, whole) = read_digits(text, 0, len);
    assert(s.subrange(0, k as int) =~= s.take(k as int));
    if k == 0 {
        proof {
            if exists|j: int| splits_at(s, p, j) {
                let j = choose|j: int| splits_at(s, p, j);
                lemma_split_at_digit_run(s, p, 0, j);
            }
        }
        return None;
    }
    let unit = ten_to(precision);
    assert(whole * unit <= 0x1_0000_0000 * 1_000_000_000) by (nonlinear_arith)
        requires
            whole <= 0x1_0000_0000,
            unit <= 1_000_000_000,
    ;
    if k == len {
        proof {
            assert(splits_at(s, p, k as int));
            lemma_split_unique(s, p, k as int, k as int);
            let n = number(s.take(k as int));
            assert(n >= read_cap() ==> n * unit >= read_cap()) by (nonlinear_arith)
                requires
                    unit >= 1,
            ;
            assert(whole >= read_cap() ==> whole * unit >= read_cap()) by (nonlinear_arith)
                requires
                    unit >= 1,
            ;
            assert(whole < read_cap() ==> whole * unit == n * unit);
            assert(value_at(s, p, k as int) == n * unit);
        }
        let total: u64 = whole * unit as u64;
        return Some(
            if total > 0xffff_ffff {
                0xffff_ffff
            } else {
                total as u32
            },
        );
    }
    let c = text.get_char(k);
    if c != '.' || precision == 0 {
        proof {
            if exists|j: int| splits_at(s, p, j) {
                let j = choose|j: int| splits_at(s, p, j);
                lemma_split_at_digit_run(s, p, k as int, j);
            }
        }
        return None;
    }
    let first: usize = k + 1;
    let stop: usize = if len - first > precision as usize {
        first + precision as usize
    } else {
        len
    };
    let ghost tail = s.skip(first as int);
    let (end, head) = read_digits(text, first, stop);
    if end < stop {
        proof {
            if exists|j: int| splits_at(s, p, j) {
                let j = choose|j: int| splits_at(s, p, j);
                lemma_split_at_digit_run(s, p, k as int, j);
                assert(tail[end - first] == s[end as int]);
            }
        }
        return None;
    }
    proof {
        let shown = s.subrange(first as int, stop as int);
        assert(shown =~= tail.take(stop - first));
        lemma_number_bound(shown);
        lemma_pow10_monotonic(shown.len(), 9);
        lemma_pow10_values();
        assert(head == number(shown));
        let n = number(s.take(k as int));
        assert(n >= read_cap() ==> n * unit >= read_cap()) by (nonlinear_arith)
            requires
                unit >= 1,
        ;
        assert(whole >= read_cap() ==> whole * unit >= read_cap()) by (nonlinear_arith)
            requires
                unit >= 1,
        ;
        assert(whole < read_cap() ==> whole * unit == n * unit);
    }
    let units: u64 = if stop == len {
        let missing: u32 = precision - (len - first) as u32;
        let scale = ten_to(missing);
        assert(head * scale <= 1_000_000_000 * 1_000_000_000) by (nonlinear_arith)
            requires
                head <= 1_000_000_000,
                scale <= 1_000_000_000,
        ;
        proof {
            assert(tail.take(stop - first) =~= tail);
            assert(splits_at(s, p, k as int));
            assert(frac_units(tail, p) == head * scale);
        }
        head * scale as u64
    } else {
        let beyond = match digit_of(text.get_char(stop)) {
            Some(d) => d,
            None => {
                proof {
                    if exists|j: int| splits_at(s, p, j) {
                        let j = choose|j: int| splits_at(s, p, j);
                        lemma_split_at_digit_run(s, p, k as int, j);
                        assert(tail[stop - first] == s[stop as int]);
                    }
                }
                return None;
            },
        };
        let (last, _) = read_digits(text, stop + 1, len);
        if last < len {
            proof {
                if exists|j: int| splits_at(s, p, j) {
                    let j = choose|j: int| splits_at(s, p, j);
                    lemma_split_at_digit_run(s, p, k as int, j);
                    assert(tail[last - first] == s[last as int]);
                }
            }
            return None;
        }
        proof {
            let shown = s.subrange(first as int, stop as int);
            let rest = s.subrange(stop + 1, len as int);
            assert forall|i: int| 0 <= i < tail.len() implies is_digit(#[trigger] tail[i]) by {
                if i < stop - first {
                    assert(tail[i] == shown[i]);
                } else if i > stop - first {
                    assert(tail[i] == rest[i - (stop - first) - 1]);
                }
            }
            assert(splits_at(s, p, k as int));
            lemma_frac_units_rounds(tail, p);
            assert(tail[p as int] == s[stop as int]);
        }
        if beyond >= 5 {
            head + 1
        } else {
            head
        }
    };
    proof {
        lemma_split_unique(s, p, k as int, k as int);
        assert(value_at(s, p, k as int) == number(s.take(k as int)) * unit + units);
    }
    let total: u64 = whole * unit as u64 + units;
    Some(
        if total > 0xffff_ffff {
            0xffff_ffff
        } else {
            total as u32
        },
    )
}

/// The one-character text of the digit `d`.
fn digit_str(d: u64) -> (s: &'static str)
    requires
        d < 10,
    ensures
        s@ == seq![digit_char(d as nat)],
{
    proof {
        reveal_strlit("0");
        reveal_strlit("1");
        reveal_strlit("2");
        reveal_strlit("3");
        reveal_strlit("4");
        reveal_strlit("5");
        reveal_strlit("6");
        reveal_strlit("7");
        reveal_strlit("8");
        reveal_strlit("9");
    }
    let s = if d == 0 {
        "0"
    } else if d == 1 {
        "1"
    } else if d == 2 {
        "2"
    } else if d == 3 {
        "3"
    } else if d == 4 {
        "4"
    } else if d == 5 {
        "5"
    } else if d == 6 {
        "6"
    } else if d == 7 {
        "7"
    } else if d == 8 {
        "8"
    } else {
        "9"
    };
    assert(s@ =~= seq![digit_char(d as nat)]);
    s
}

/// Appends the decimal numeral of `n` to `out`.
pub fn push_digits(out: &mut String, n: u64)
    ensures
        final(out)@ == old(out)@ + digits(n as nat),
    decreases n,
{
    if n >= 10 {
        push_digits(out, n / 10);
    }
    out.append(digit_str(n % 10));
    assert(out@ =~= old(out)@ + digits(n as nat));
}

/// Appends the last `width` decimal digits of `n` to `out`.
pub fn push_padded(out: &mut String, n: u64, width: u32)
    ensures
        final(out)@ == old(out)@ + padded(n as nat, width as nat),
    decreases width,
{
    if width > 0 {
        push_padded(out, n / 10, width - 1);
        out.append(digit_str(n % 10));
    }
    assert(out@ =~= old(out)@ + padded(n as nat, width as nat));
}

/// Writes `value` units at `precision` decimal places.
pub fn format_fixed(value: u64, precision: u32) -> (text: String)
    requires
        precision <= 9,
    ensures
        text@ == fixed_text(value as nat, precision as nat),
{
    let mut text = String::new();
    if precision == 0 {
        push_digits(&mut text, value);
    } else {
        let unit: u64 = ten_to(precision) as u64;
        push_digits(&mut text, value / unit);
        proof {
            reveal_strlit(".");
        }
        text.append(".");
        push_padded(&mut text, value % unit, precision);
    }
    assert(text@ =~= fixed_text(value as nat, precision as nat));
    text
}

} // verus!
