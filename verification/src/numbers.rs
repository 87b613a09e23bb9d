//! Numbers in their normal form. A JSON number can be written as an integer
//! or as a decimal text; where the text denotes an integer that one of the
//! integer kinds can hold, the normal form is that integer, so that `1`,
//! `1.0` and `10e-1` are one number.

use crate::json::{entries_view, values_view, JNumber, JNumberView, JValue, JValueView};
use crate::text::chars_of;
use vstd::prelude::*;

verus! {

/// Whether `c` is one of the digits `0` to `9`.
pub open spec fn is_digit(c: char) -> bool {
    '0' <= c && c <= '9'
}

/// The number that the digit `c` stands for.
pub open spec fn digit_of(c: char) -> nat {
    (c as u32 - 48) as nat
}

/// The number that a row of digits denotes.
pub open spec fn number_of(digits: Seq<char>) -> nat
    decreases digits.len(),
{
    if digits.len() == 0 {
        0
    } else {
        number_of(digits.drop_last()) * 10 + digit_of(digits.last())
    }
}

/// The power of ten with exponent `n`.
pub open spec fn pow10(n: nat) -> nat
    decreases n,
{
    if n == 0 {
        1
    } else {
        10 * pow10((n - 1) as nat)
    }
}

/// Whether every character of `text` is a digit.
pub open spec fn all_digits(text: Seq<char>) -> bool {
    forall|i: int| 0 <= i < text.len() ==> is_digit(#[trigger] text[i])
}

/// Where the digits that start at `from` end.
pub open spec fn digits_end(text: Seq<char>, from: int) -> int
    decreases text.len() - from,
{
    if 0 <= from < text.len() && is_digit(text[from]) {
        digits_end(text, from + 1)
    } else {
        from
    }
}

/// The exponent that is written from `from` to the end of a text: `e` or
/// `E`, a sign or none, and digits. Where the text ends at `from`, it is 0.
pub open spec fn exponent_of(text: Seq<char>, from: int) -> Option<int> {
    if from == text.len() {
        Some(0)
    } else if text[from] != 'e' && text[from] != 'E' {
        None
    } else {
        let negative = from + 1 < text.len() && text[from + 1] == '-';
        let signed = negative || (from + 1 < text.len() && text[from + 1] == '+');
        let start = if signed {
            from + 2
        } else {
            from + 1
        };
        if start >= text.len() || digits_end(text, start) != text.len() {
            None
        } else if negative {
            Some(-(number_of(text.subrange(start, text.len() as int)) as int))
        } else {
            Some(number_of(text.subrange(start, text.len() as int)) as int)
        }
    }
}

/// A decimal number: its sign, its digits, and how many of them stand
/// before the decimal point. `point` may lie before the first digit or
/// behind the last.
pub struct Decimal {
    pub negative: bool,
    pub digits: Seq<char>,
    pub point: int,
}

/// The number that a text denotes, where it is written as JSON writes a
/// number: a sign or none; `0`, or digits that do not start with `0`; a
/// point and digits, or none; an exponent, or none.
pub open spec fn decimal_of(text: Seq<char>) -> Option<Decimal> {
    let start: int = if text.len() > 0 && text[0] == '-' {
        1
    } else {
        0
    };
    let whole_end = digits_end(text, start);
    let pointed = whole_end < text.len() && text[whole_end] == '.';
    let end = if pointed {
        digits_end(text, whole_end + 1)
    } else {
        whole_end
    };
    let whole = text.subrange(start, whole_end);
    let fraction = if pointed {
        text.subrange(whole_end + 1, end)
    } else {
        Seq::empty()
    };
    if whole.len() == 0 || (whole.len() > 1 && whole[0] == '0') || (pointed && fraction.len()
        == 0) {
        None
    } else {
        match exponent_of(text, end) {
            None => None,
            Some(exponent) => Some(
                Decimal { negative: start == 1, digits: whole + fraction, point: whole.len() + exponent },
            ),
        }
    }
}

/// The integer that digits with a decimal point denote, without its sign:
/// there is one where the digits behind the point come to nothing.
pub open spec fn magnitude_of(digits: Seq<char>, point: int) -> Option<nat> {
    if point <= 0 {
        if number_of(digits) == 0 {
            Some(0)
        } else {
            None
        }
    } else if point <= digits.len() {
        if number_of(digits.subrange(point, digits.len() as int)) == 0 {
            Some(number_of(digits.subrange(0, point)))
        } else {
            None
        }
    } else {
        Some(number_of(digits) * pow10((point - digits.len()) as nat))
    }
}

/// The integer with the given sign and magnitude as a number, where one of
/// the integer kinds can hold it: a [`JNumberView::PosInt`] from 0 on, a
/// [`JNumberView::NegInt`] below.
pub open spec fn integer_of(negative: bool, magnitude: nat) -> Option<JNumberView> {
    if magnitude == 0 || (!negative && magnitude <= u64::MAX) {
        Some(JNumberView::PosInt(magnitude as u64))
    } else if negative && magnitude <= 0x8000_0000_0000_0000 {
        Some(JNumberView::NegInt((-(magnitude as int)) as i64))
    } else {
        None
    }
}

/// The integer that a decimal text denotes, where it denotes one that an
/// integer kind can hold.
pub open spec fn integer_in(text: Seq<char>) -> Option<JNumberView> {
    match decimal_of(text) {
        None => None,
        Some(d) => match magnitude_of(d.digits, d.point) {
            None => None,
            Some(magnitude) => integer_of(d.negative, magnitude),
        },
    }
}

/// The normal form of a number: an integer from 0 on is a
/// [`JNumberView::PosInt`], one below 0 a [`JNumberView::NegInt`], whichever
/// way it was written; any other number stays as it is.
pub open spec fn normal_number(n: JNumberView) -> JNumberView {
    match n {
        JNumberView::PosInt(_) => n,
        JNumberView::NegInt(i) => if i >= 0 {
            JNumberView::PosInt(i as u64)
        } else {
            n
        },
        JNumberView::Float(text) => match integer_in(text) {
            None => n,
            Some(integer) => integer,
        },
    }
}

/// The normal form of a value: each number in it in its normal form.
pub open spec fn normal(v: JValueView) -> JValueView
    decreases v,
{
    match v {
        JValueView::Number(n) => JValueView::Number(normal_number(n)),
        JValueView::Array(items) => JValueView::Array(
            Seq::new(
                items.len(),
                |i: int|
                    if 0 <= i < items.len() {
                        normal(items[i])
                    } else {
                        JValueView::Null
                    },
            ),
        ),
        JValueView::Object(entries) => JValueView::Object(
            Seq::new(
                entries.len(),
                |i: int|
                    if 0 <= i < entries.len() {
                        (entries[i].0, normal(entries[i].1))
                    } else {
                        (Seq::empty(), JValueView::Null)
                    },
            ),
        ),
        _ => v,
    }
}

/// The normal form of a number is its own normal form.
pub proof fn lemma_normal_number_twice(n: JNumberView)
    ensures
        normal_number(normal_number(n)) == normal_number(n),
{
}

/// The normal form of a value is its own normal form.
pub proof fn lemma_normal_twice(v: JValueView)
    ensures
        normal(normal(v)) == normal(v),
    decreases v,
{
    match v {
        JValueView::Number(n) => {
            lemma_normal_number_twice(n);
        },
        JValueView::Array(items) => {
            let once = normal(v)->Array_0;
            assert forall|i: int| 0 <= i < items.len() implies normal(once[i]) == once[i] by {
                lemma_normal_twice(items[i]);
            }
            assert(normal(normal(v))->Array_0 =~= once);
        },
        JValueView::Object(entries) => {
            let once = normal(v)->Object_0;
            assert forall|i: int| 0 <= i < entries.len() implies normal(once[i].1)
                == once[i].1 by {
                lemma_normal_twice(entries[i].1);
            }
            assert(normal(normal(v))->Object_0 =~= once);
        },
        _ => {},
    }
}

/// A row of digits comes to nothing exactly where each of them is `0`.
pub proof fn lemma_number_zero(digits: Seq<char>)
    requires
        all_digits(digits),
    ensures
        number_of(digits) == 0 <==> (forall|i: int| 0 <= i < digits.len() ==> digits[i] == '0'),
    decreases digits.len(),
{
    if digits.len() > 0 {
        let front = digits.drop_last();
        lemma_number_zero(front);
        assert(is_digit(digits.last()));
        if number_of(digits) == 0 {
            assert forall|i: int| 0 <= i < digits.len() implies digits[i] == '0' by {
                if i < front.len() {
                    assert(front[i] == digits[i]);
                }
            }
        } else if forall|i: int| 0 <= i < digits.len() ==> digits[i] == '0' {
            assert forall|i: int| 0 <= i < front.len() implies front[i] == '0' by {
                assert(front[i] == digits[i]);
            }
            assert(digits.last() == '0');
        }
    }
}

/// A longer row of digits denotes no smaller number than its front.
pub proof fn lemma_number_grows(digits: Seq<char>, len: int)
    requires
        0 <= len <= digits.len(),
    ensures
        number_of(digits.subrange(0, len)) <= number_of(digits),
    decreases digits.len(),
{
    if len == digits.len() {
        assert(digits.subrange(0, len) =~= digits);
    } else {
        lemma_number_grows(digits.drop_last(), len);
        assert(digits.drop_last().subrange(0, len) =~= digits.subrange(0, len));
    }
}

/// A power of ten is at least 1, and grows with its exponent.
pub proof fn lemma_pow10_grows(a: nat, b: nat)
    requires
        a <= b,
    ensures
        1 <= pow10(a) <= pow10(b),
    decreases b,
{
    if a == 0 && b == 0 {
    } else if a < b {
        lemma_pow10_grows(a, (b - 1) as nat);
    } else {
        lemma_pow10_grows((a - 1) as nat, (b - 1) as nat);
    }
}

/// From the exponent 20 on a power of ten is beyond every `u64`.
pub proof fn lemma_pow10_large(n: nat)
    requires
        n >= 20,
    ensures
        pow10(n) > u64::MAX,
{
    lemma_pow10_grows(20, n);
    reveal_with_fuel(pow10, 21);
    assert(pow10(20) == 100_000_000_000_000_000_000);
}

/// Where the digits from `from` on end; see [`digits_end`].
fn scan_digits(text: &Vec<char>, from: usize) -> (r: usize)
    requires
        from <= text.len(),
    ensures
        r == digits_end(text@, from as int),
        from <= r <= text.len(),
        all_digits(text@.subrange(from as int, r as int)),
{
    let mut i: usize = from;
    while i < text.len() && '0' <= text[i] && text[i] <= '9'
        invariant
            from <= i <= text.len(),
            digits_end(text@, from as int) == digits_end(text@, i as int),
            forall|k: int| from <= k < i ==> is_digit(text@[k]),
        decreases text.len() - i,
    {
        i += 1;
    }
    i
}

/// The number that the digits from `from` to `to` denote, where it is at
/// most `cap`.
fn number_capped(text: &Vec<char>, from: usize, to: usize, cap: u128) -> (r: Option<u128>)
    requires
        from <= to <= text.len(),
        all_digits(text@.subrange(from as int, to as int)),
        cap <= 0x1_0000_0000_0000_0000_0000_0000_0000,
    ensures
        match r {
            Some(n) => n == number_of(text@.subrange(from as int, to as int)) && n <= cap,
            None => number_of(text@.subrange(from as int, to as int)) > cap,
        },
{
    let ghost digits = text@.subrange(from as int, to as int);
    let mut n: u128 = 0;
    let mut i: usize = from;
    while i < to
        invariant
            from <= i <= to <= text.len(),
            digits == text@.subrange(from as int, to as int),
            all_digits(digits),
            n == number_of(digits.subrange(0, i - from)),
            n <= cap <= 0x1_0000_0000_0000_0000_0000_0000_0000,
        decreases to - i,
    {
        let c = text[i];
        proof {
            assert(digits[i - from] == c);
            assert(is_digit(c));
            let longer = digits.subrange(0, i - from + 1);
            assert(longer.drop_last() =~= digits.subrange(0, i - from));
            assert(longer.last() == c);
            lemma_number_grows(digits, i - from + 1);
        }
        let d: u128 = (c as u32 - 48) as u128;
        let next: u128 = n * 10 + d;
        if next > cap {
            return None;
        }
        n = next;
        i += 1;
    }
    proof {
        assert(digits.subrange(0, to - from) =~= digits);
    }
    Some(n)
}

/// Whether the digits from `from` to `to` come to nothing.
fn comes_to_nothing(text: &Vec<char>, from: usize, to: usize) -> (r: bool)
    requires
        from <= to <= text.len(),
        all_digits(text@.subrange(from as int, to as int)),
    ensures
        r == (number_of(text@.subrange(from as int, to as int)) == 0),
{
    let ghost digits = text@.subrange(from as int, to as int);
    proof {
        lemma_number_zero(digits);
    }
    let mut i: usize = from;
    while i < to
        invariant
            from <= i <= to <= text.len(),
            digits == text@.subrange(from as int, to as int),
            number_of(digits) == 0 <==> (forall|k: int| 0 <= k < digits.len() ==> digits[k] == '0'),
            forall|k: int| 0 <= k < i - from ==> digits[k] == '0',
        decreases to - i,
    {
        if text[i] != '0' {
            assert(digits[i - from] != '0');
            return false;
        }
        assert(digits[i - from] == '0');
        i += 1;
    }
    true
}

/// Puts the characters of `text` from `from` to `to` behind `out`.
fn append_range(out: &mut Vec<char>, text: &Vec<char>, from: usize, to: usize)
    requires
        from <= to <= text.len(),
    ensures
        final(out)@ == old(out)@ + text@.subrange(from as int, to as int),
{
    let mut i: usize = from;
    while i < to
        invariant
            from <= i <= to <= text.len(),
            out@ == old(out)@ + text@.subrange(from as int, i as int),
        decreases to - i,
    {
        out.push(text[i]);
        assert(out@ =~= old(out)@ + text@.subrange(from as int, i + 1));
        i += 1;
    }
}

/// The greatest exponent that is read as it stands; beyond it only the sign
/// of the exponent counts.
pub const EXPONENT_CAP: u128 = 0x10_0000_0000_0000_0000_0000_0000;

/// An exponent as it is read: its sign, and its size where that is at most
/// [`EXPONENT_CAP`].
pub struct Exponent {
    pub negative: bool,
    pub size: Option<u128>,
}

impl Exponent {
    /// Whether this is how the exponent `e` is read.
    pub open spec fn stands_for(self, e: int) -> bool {
        match self.size {
            Some(size) => size <= EXPONENT_CAP && e == if self.negative {
                -(size as int)
            } else {
                size as int
            },
            None => if self.negative {
                e < -(EXPONENT_CAP as int)
            } else {
                e > EXPONENT_CAP as int
            },
        }
    }
}

/// Reads the exponent that is written from `from` on; see [`exponent_of`].
fn read_exponent(text: &Vec<char>, from: usize) -> (r: Option<Exponent>)
    requires
        from <= text.len(),
    ensures
        match r {
            Some(exponent) => exponent_of(text@, from as int) is Some && exponent.stands_for(
                exponent_of(text@, from as int)->Some_0,
            ),
            None => exponent_of(text@, from as int) is None,
        },
{
    if from == text.len() {
        return Some(Exponent { negative: false, size: Some(0) });
    }
    if text[from] != 'e' && text[from] != 'E' {
        return None;
    }
    let negative = from + 1 < text.len() && text[from + 1] == '-';
    let signed = negative || (from + 1 < text.len() && text[from + 1] == '+');
    let start: usize = if signed {
        from + 2
    } else {
        from + 1
    };
    if start >= text.len() {
        return None;
    }
    let end = scan_digits(text, start);
    if end != text.len() {
        return None;
    }
    Some(Exponent { negative, size: number_capped(text, start, end, EXPONENT_CAP) })
}

/// The number `n` times the power of ten with exponent `k`, where a `u64`
/// can hold it.
fn times_ten(n: u128, k: u128) -> (r: Option<u64>)
    requires
        1 <= n <= u64::MAX,
    ensures
        match r {
            Some(m) => m == n * pow10(k as nat),
            None => n * pow10(k as nat) > u64::MAX,
        },
{
    let mut acc: u128 = n;
    let mut j: u128 = 0;
    assert(n * pow10(0) == n) by {
        assert(pow10(0) == 1);
    }
    while j < k
        invariant
            j <= k,
            acc == n * pow10(j as nat),
            1 <= n <= acc <= u64::MAX,
        decreases k - j,
    {
        proof {
            let p = pow10(j as nat);
            assert(pow10((j + 1) as nat) == 10 * p);
            assert(n * (10 * p) == (n * p) * 10) by (nonlinear_arith);
        }
        if acc > 1844674407370955161 {
            proof {
                lemma_pow10_grows((j + 1) as nat, k as nat);
                let a = pow10((j + 1) as nat);
                let b = pow10(k as nat);
                assert(n * a <= n * b) by (nonlinear_arith)
                    requires
                        a <= b,
                        n >= 0,
                ;
            }
            return None;
        }
        acc = acc * 10;
        j += 1;
    }
    Some(acc as u64)
}

/// The number that the first `point` digits denote, where the digits
/// behind them come to nothing and a `u64` can hold it.
fn front_of(digits: &Vec<char>, point: usize) -> (r: Option<u64>)
    requires
        0 < point <= digits.len(),
        all_digits(digits@),
    ensures
        match r {
            Some(m) => magnitude_of(digits@, point as int) == Some(m as nat),
            None => match magnitude_of(digits@, point as int) {
                Some(m) => m > u64::MAX,
                None => true,
            },
        },
{
    if !comes_to_nothing(digits, point, digits.len()) {
        return None;
    }
    match number_capped(digits, 0, point, 0xffff_ffff_ffff_ffff) {
        Some(n) => Some(n as u64),
        None => None,
    }
}

/// The integer that digits with a decimal point denote, without its sign,
/// where there is one and a `u64` can hold it; see [`magnitude_of`]. The
/// point stands `whole` digits from the front, moved by the exponent.
fn magnitude(digits: &Vec<char>, whole: usize, exponent: Exponent, Ghost(point): Ghost<int>) -> (r:
    Option<u64>)
    requires
        whole <= digits.len(),
        all_digits(digits@),
        exponent.stands_for(point - whole),
    ensures
        match r {
            Some(m) => magnitude_of(digits@, point) == Some(m as nat),
            None => match magnitude_of(digits@, point) {
                Some(m) => m > u64::MAX,
                None => true,
            },
        },
{
    let len = digits.len();
    assert(digits@.subrange(0, len as int) =~= digits@);
    if comes_to_nothing(digits, 0, len) {
        proof {
            lemma_number_zero(digits@);
            if 0 < point <= len {
                let front = digits@.subrange(0, point);
                let back = digits@.subrange(point, len as int);
                lemma_number_zero(front);
                lemma_number_zero(back);
            }
            if point > len {
                assert(0 * pow10((point - len) as nat) == 0);
            }
        }
        return Some(0);
    }
    match exponent.size {
        None => {
            proof {
                if !exponent.negative {
                    let p = pow10((point - len) as nat);
                    let n = number_of(digits@);
                    lemma_pow10_large((point - len) as nat);
                    assert(n * p >= p) by (nonlinear_arith)
                        requires
                            n >= 1,
                            p >= 0,
                    ;
                }
            }
            None
        },
        Some(size) => {
            if exponent.negative {
                if size >= whole as u128 {
                    None
                } else {
                    front_of(digits, whole - size as usize)
                }
            } else if size <= (len - whole) as u128 {
                let point: usize = whole + size as usize;
                if point == 0 {
                    None
                } else {
                    front_of(digits, point)
                }
            } else {
                match number_capped(digits, 0, len, 0xffff_ffff_ffff_ffff) {
                    None => {
                        proof {
                            let p = pow10((point - len) as nat);
                            let n = number_of(digits@);
                            lemma_pow10_grows(0, (point - len) as nat);
                            assert(n * p >= n) by (nonlinear_arith)
                                requires
                                    n >= 0,
                                    p >= 1,
                            ;
                        }
                        None
                    },
                    Some(n) => times_ten(n, size - (len - whole) as u128),
                }
            }
        },
    }
}

/// The integer with the given sign and magnitude; see [`integer_of`].
fn integer(negative: bool, magnitude: u64) -> (r: Option<JNumber>)
    ensures
        match r {
            Some(n) => integer_of(negative, magnitude as nat) == Some(n@),
            None => integer_of(negative, magnitude as nat) is None,
        },
{
    if magnitude == 0 || !negative {
        Some(JNumber::PosInt(magnitude))
    } else if magnitude < 0x8000_0000_0000_0000 {
        Some(JNumber::NegInt(0 - (magnitude as i64)))
    } else if magnitude == 0x8000_0000_0000_0000 {
        Some(JNumber::NegInt(i64::MIN))
    } else {
        None
    }
}

/// The integer that a decimal text denotes, where it denotes one that an
/// integer kind can hold; see [`integer_in`].
pub fn integer_in_text(text: &str) -> (r: Option<JNumber>)
    ensures
        match r {
            Some(n) => integer_in(text@) == Some(n@),
            None => integer_in(text@) is None,
        },
{
    let chars = chars_of(text);
    let negative = chars.len() > 0 && chars[0] == '-';
    let start: usize = if negative {
        1
    } else {
        0
    };
    let whole_end = scan_digits(&chars, start);
    let pointed = whole_end < chars.len() && chars[whole_end] == '.';
    let end: usize = if pointed {
        scan_digits(&chars, whole_end + 1)
    } else {
        whole_end
    };
    if whole_end == start || (whole_end - start > 1 && chars[start] == '0') || (pointed && end
        == whole_end + 1) {
        return None;
    }
    let exponent = match read_exponent(&chars, end) {
        None => {
            return None;
        },
        Some(exponent) => exponent,
    };
    let mut digits: Vec<char> = Vec::new();
    append_range(&mut digits, &chars, start, whole_end);
    if pointed {
        append_range(&mut digits, &chars, whole_end + 1, end);
    }
    let ghost d = decimal_of(text@)->Some_0;
    proof {
        assert(decimal_of(text@) is Some);
        assert(digits@ =~= d.digits);
        assert(all_digits(digits@));
    }
    match magnitude(&digits, whole_end - start, exponent, Ghost(d.point)) {
        None => None,
        Some(m) => integer(negative, m),
    }
}

impl JNumber {
    /// The number in its normal form; see [`normal_number`].
    pub fn normalized(&self) -> (r: JNumber)
        ensures
            r@ == normal_number(self@),
    {
        match self {
            JNumber::PosInt(n) => JNumber::PosInt(*n),
            JNumber::NegInt(i) => if *i >= 0 {
                JNumber::PosInt(*i as u64)
            } else {
                JNumber::NegInt(*i)
            },
            JNumber::Float(text) => match integer_in_text(text.as_str()) {
                None => JNumber::Float(text.clone()),
                Some(integer) => integer,
            },
        }
    }
}

/// The values of a list, each in its normal form.
fn normalized_values(items: &Vec<JValue>) -> (r: Vec<JValue>)
    ensures
        r@.len() == items@.len(),
        forall|k: int| 0 <= k < items@.len() ==> r@[k]@ == normal(items@[k]@),
    decreases items,
{
    let mut out: Vec<JValue> = Vec::new();
    let mut i: usize = 0;
    while i < items.len()
        invariant
            i <= items.len(),
            out.len() == i,
            forall|k: int| 0 <= k < i ==> out[k]@ == normal(items[k]@),
        decreases items.len() - i,
    {
        out.push(items[i].normalized());
        i += 1;
    }
    out
}

/// The entries of an object, the value of each in its normal form.
fn normalized_entries(entries: &Vec<(String, JValue)>) -> (r: Vec<(String, JValue)>)
    ensures
        r@.len() == entries@.len(),
        forall|k: int|
            0 <= k < entries@.len() ==> r@[k].0@ == entries@[k].0@ && r@[k].1@ == normal(
                entries@[k].1@,
            ),
    decreases entries,
{
    let mut out: Vec<(String, JValue)> = Vec::new();
    let mut i: usize = 0;
    while i < entries.len()
        invariant
            i <= entries.len(),
            out.len() == i,
            forall|k: int|
                0 <= k < i ==> out[k].0@ == entries[k].0@ && out[k].1@ == normal(entries[k].1@),
        decreases entries.len() - i,
    {
        out.push((entries[i].0.clone(), entries[i].1.normalized()));
        i += 1;
    }
    out
}

impl JValue {
    /// The value in its normal form; see [`normal`].
    pub fn normalized(&self) -> (r: JValue)
        ensures
            r@ == normal(self@),
        decreases self,
    {
        match self {
            JValue::Null => JValue::Null,
            JValue::Bool(b) => JValue::Bool(*b),
            JValue::Number(n) => JValue::Number(n.normalized()),
            JValue::String(s) => JValue::String(s.clone()),
            JValue::Array(items) => {
                let out = normalized_values(items);
                assert(values_view(out@) =~= normal(self@)->Array_0);
                JValue::Array(out)
            },
            JValue::Object(entries) => {
                let out = normalized_entries(entries);
                assert(entries_view(out@) =~= normal(self@)->Object_0);
                JValue::Object(out)
            },
        }
    }
}

} // verus!
