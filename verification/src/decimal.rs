//! Amounts as they are written: digits, with or without a decimal point,
//! with or without an exponent.

use vstd::prelude::*;
use vstd::string::*;
use crate::natural::{all_decimal, number, pow10, Natural};
use crate::text::{all_digits, digit_value, digits_value, is_digit};

verus! {

/// The largest exponent, up or down, that an amount may be written with. The
/// digits of an amount are all kept, so the bound keeps the work of rating a
/// portfolio in proportion to the length of its description.
pub const MAX_EXPONENT: usize = 400;

/// An amount that is not negative: `mantissa` divided by the `scale`-th power
/// of ten.
#[derive(Debug)]
pub struct Decimal {
    /// The amount counted in units of which the `scale`-th power of ten make
    /// one.
    pub mantissa: Natural,
    /// How many decimal places the unit lies behind the point.
    pub scale: usize,
}

/// The mathematical content of a [`Decimal`].
pub struct DecimalView {
    pub mantissa: nat,
    pub scale: nat,
}

impl View for Decimal {
    type V = DecimalView;

    open spec fn view(&self) -> DecimalView {
        DecimalView { mantissa: self.mantissa@, scale: self.scale as nat }
    }
}

/// The place of the first character of a text that is `a` or `b`; the text's
/// length where it has neither.
pub open spec fn first_place(text: Seq<char>, a: char, b: char) -> int
    decreases text.len(),
{
    if text.len() == 0 || text[0] == a || text[0] == b {
        0
    } else {
        1 + first_place(text.drop_first(), a, b)
    }
}

/// The place of the first point in a text; the text's length where it has
/// none.
pub open spec fn point_place(text: Seq<char>) -> int {
    first_place(text, '.', '.')
}

/// The place of the first `e` or `E` in a text; the text's length where it
/// has none.
pub open spec fn exponent_place(text: Seq<char>) -> int {
    first_place(text, 'e', 'E')
}

/// What stands before the first point: all of a text without one.
pub open spec fn whole_part(text: Seq<char>) -> Seq<char> {
    text.take(point_place(text))
}

/// What stands behind the first point: nothing in a text without one.
pub open spec fn fraction_part(text: Seq<char>) -> Seq<char> {
    if point_place(text) < text.len() {
        text.skip(point_place(text) + 1)
    } else {
        Seq::empty()
    }
}

/// A text without the `+` that it may begin with.
pub open spec fn unsigned_part(text: Seq<char>) -> Seq<char> {
    if text.len() > 0 && text[0] == '+' {
        text.skip(1)
    } else {
        text
    }
}

/// What the digits of an amount say: digits, among them at most one point,
/// and at least one digit. The result is the number that the digits denote
/// with the point left out, and how many of them stand behind the point.
pub open spec fn significand_of(text: Seq<char>) -> Option<(nat, nat)> {
    let whole = whole_part(text);
    let fraction = fraction_part(text);
    if all_digits(whole) && all_digits(fraction) && whole.len() + fraction.len() > 0 {
        Some((digits_value(whole + fraction), fraction.len()))
    } else {
        None
    }
}

/// What the exponent of an amount says: one or more digits, with or without
/// a `+` or `-` before them, that denote at most [`MAX_EXPONENT`].
pub open spec fn exponent_of(text: Seq<char>) -> Option<int> {
    let signed = text.len() > 0 && (text[0] == '+' || text[0] == '-');
    let digits = if signed {
        text.skip(1)
    } else {
        text
    };
    if digits.len() > 0 && all_digits(digits) && digits_value(digits) <= MAX_EXPONENT {
        if text[0] == '-' {
            Some(-(digits_value(digits) as int))
        } else {
            Some(digits_value(digits) as int)
        }
    } else {
        None
    }
}

/// The amount of `digits` units of which the `behind`-th power of ten make
/// one, times the `exponent`-th power of ten. Nothing where the amount has
/// more decimal places than a machine word can count.
pub open spec fn raised(digits: nat, behind: nat, exponent: int) -> Option<DecimalView> {
    if exponent >= behind {
        Some(DecimalView { mantissa: digits * pow10((exponent - behind) as nat), scale: 0 })
    } else if behind - exponent <= usize::MAX {
        Some(DecimalView { mantissa: digits, scale: (behind - exponent) as nat })
    } else {
        None
    }
}

/// The amount that a text denotes. An amount is written as digits, among
/// them at most one point, and at least one digit; a `+` may stand before
/// them, and an exponent behind them: `e` or `E`, then digits, with or
/// without a `+` or `-` before them. Its value is what the digits say times
/// ten to the exponent. A text with a `-` in front, a blank or anything else
/// denotes no amount, nor does one with an exponent beyond [`MAX_EXPONENT`].
pub open spec fn decimal_of(text: Seq<char>) -> Option<DecimalView> {
    let body = unsigned_part(text);
    let mark = exponent_place(body);
    let exponent = if mark < body.len() {
        exponent_of(body.skip(mark + 1))
    } else {
        Some(0int)
    };
    match (significand_of(body.take(mark)), exponent) {
        (Some((digits, behind)), Some(e)) => raised(digits, behind, e),
        _ => None,
    }
}

/// The first of two characters stands where one of them stands and neither
/// stands before.
pub proof fn lemma_first_place(text: Seq<char>, a: char, b: char, p: int)
    requires
        0 <= p <= text.len(),
        forall|k: int| 0 <= k < p ==> text[k] != a && text[k] != b,
        p < text.len() ==> text[p] == a || text[p] == b,
    ensures
        first_place(text, a, b) == p,
    decreases text.len(),
{
    if p > 0 {
        let rest = text.drop_first();
        assert(text[0] != a && text[0] != b);
        assert forall|k: int| 0 <= k < p - 1 implies rest[k] != a && rest[k] != b by {
            assert(rest[k] == text[k + 1]);
        }
        lemma_first_place(rest, a, b, p - 1);
    }
}

/// Neither of two characters stands before the first of them, and one of
/// them stands there unless the text has neither.
pub proof fn lemma_first_place_is_first(text: Seq<char>, a: char, b: char)
    ensures
        0 <= first_place(text, a, b) <= text.len(),
        forall|k: int| 0 <= k < first_place(text, a, b) ==> text[k] != a && text[k] != b,
        first_place(text, a, b) < text.len() ==> text[first_place(text, a, b)] == a || text[first_place(
            text,
            a,
            b,
        )] == b,
    decreases text.len(),
{
    if text.len() > 0 && text[0] != a && text[0] != b {
        let rest = text.drop_first();
        let place = first_place(text, a, b);
        lemma_first_place_is_first(rest, a, b);
        assert forall|k: int| 0 <= k < place implies text[k] != a && text[k] != b by {
            if k > 0 {
                assert(text[k] == rest[k - 1]);
            }
        }
        if place < text.len() {
            assert(text[place] == rest[place - 1]);
        }
    }
}

/// A value is never smaller than that of the digits it starts with.
pub proof fn lemma_digits_value_grows(digits: Seq<char>, k: int)
    requires
        0 <= k <= digits.len(),
    ensures
        digits_value(digits.take(k)) <= digits_value(digits),
    decreases digits.len() - k,
{
    if k < digits.len() {
        lemma_digits_value_grows(digits, k + 1);
        assert(digits.take(k + 1).drop_last() =~= digits.take(k));
    } else {
        assert(digits.take(k) =~= digits);
    }
}

/// Digits up to `w`, and behind them either nothing or a point and digits
/// only: the parts of such a text before and behind its first point.
proof fn lemma_significand_parts(text: Seq<char>, w: int, pointed: bool)
    requires
        0 <= w <= text.len(),
        forall|k: int| 0 <= k < w ==> is_digit(#[trigger] text[k]),
        pointed ==> w < text.len() && text[w] == '.',
        pointed ==> forall|k: int| w < k < text.len() ==> is_digit(#[trigger] text[k]),
        !pointed ==> w == text.len(),
    ensures
        whole_part(text) == text.take(w),
        fraction_part(text) == if pointed {
            text.skip(w + 1)
        } else {
            Seq::empty()
        },
        all_digits(whole_part(text)),
        all_digits(fraction_part(text)),
{
    assert forall|k: int| 0 <= k < w implies text[k] != '.' && text[k] != '.' by {
        assert(is_digit(text[k]));
    }
    lemma_first_place(text, '.', '.', w);
    if pointed {
        let fraction = text.skip(w + 1);
        assert forall|k: int| 0 <= k < fraction.len() implies is_digit(#[trigger] fraction[k]) by {
            assert(fraction[k] == text[w + 1 + k]);
        }
    }
}

/// A text that holds, behind its digits or behind the digits that follow its
/// point, a character that is neither a digit nor the first point says
/// nothing.
proof fn lemma_significand_spoiled(text: Seq<char>, w: int, pointed: bool, q: int)
    requires
        0 <= w <= q < text.len(),
        forall|k: int| 0 <= k < w ==> is_digit(#[trigger] text[k]),
        pointed ==> w < q && text[w] == '.',
        pointed ==> forall|k: int| w < k < q ==> is_digit(#[trigger] text[k]),
        !pointed ==> w == q && text[q] != '.',
        !is_digit(text[q]),
    ensures
        significand_of(text) is None,
{
    lemma_first_place_is_first(text, '.', '.');
    let p = point_place(text);
    if pointed {
        assert forall|k: int| 0 <= k < w implies text[k] != '.' && text[k] != '.' by {
            assert(is_digit(text[k]));
        }
        lemma_first_place(text, '.', '.', w);
        let fraction = fraction_part(text);
        assert(fraction[q - w - 1] == text[q]);
    } else {
        if p < q {
            assert(is_digit(text[p]));
        }
        let whole = whole_part(text);
        assert(whole[q] == text[q]);
    }
}

/// Digits written highest first denote the number that the same digits
/// denote in the opposite order, lowest first.
pub proof fn lemma_reversed_digits(text: Seq<char>, digits: Seq<u8>)
    requires
        all_digits(text),
        digits.len() == text.len(),
        forall|k: int|
            0 <= k < digits.len() ==> #[trigger] digits[k] == digit_value(
                text[text.len() - 1 - k],
            ),
    ensures
        all_decimal(digits),
        number(digits) == digits_value(text),
    decreases text.len(),
{
    assert forall|k: int| 0 <= k < digits.len() implies #[trigger] digits[k] < 10 by {
        assert(is_digit(text[text.len() - 1 - k]));
    }
    if text.len() > 0 {
        let shorter = text.drop_last();
        let rest = digits.drop_first();
        assert forall|k: int| 0 <= k < rest.len() implies #[trigger] rest[k] == digit_value(
            shorter[shorter.len() - 1 - k],
        ) by {
            assert(rest[k] == digits[k + 1]);
        }
        lemma_reversed_digits(shorter, rest);
        assert(digits[0] == digit_value(text.last()));
    }
}

/// The elements in the opposite order.
fn reversed(list: &Vec<u8>) -> (turned: Vec<u8>)
    ensures
        turned@.len() == list@.len(),
        forall|k: int|
            0 <= k < turned@.len() ==> #[trigger] turned@[k] == list@[list@.len() - 1 - k],
{
    let mut turned: Vec<u8> = Vec::new();
    let mut left: usize = list.len();
    while left > 0
        invariant
            left <= list@.len(),
            turned@.len() == list@.len() - left,
            forall|k: int|
                0 <= k < turned@.len() ==> #[trigger] turned@[k] == list@[list@.len() - 1 - k],
        decreases left,
    {
        left -= 1;
        turned.push(list[left]);
    }
    turned
}

/// The value of a digit; nothing for any other character.
fn digit_of(c: char) -> (digit: Option<u8>)
    ensures
        digit is Some <==> is_digit(c),
        digit is Some ==> digit.unwrap() == digit_value(c),
{
    let code = c as u32;
    if 48 <= code && code <= 57 {
        Some((code - 48) as u8)
    } else {
        None
    }
}

/// The characters of a text, one by one.
fn characters(text: &str) -> (chars: Vec<char>)
    ensures
        chars@ == text@,
{
    let mut chars: Vec<char> = Vec::new();
    for c in it: text.chars()
        invariant
            it.seq() == text@,
            chars@ =~= text@.take(it.index() as int),
    {
        chars.push(c);
    }
    assert(text@.take(text@.len() as int) =~= text@);
    chars
}

/// Where the digits that begin at `from` end: the place of the first
/// character from there on that is no digit.
fn digits_until(chars: &Vec<char>, from: usize) -> (to: usize)
    requires
        from <= chars@.len(),
    ensures
        from <= to <= chars@.len(),
        forall|k: int| from <= k < to ==> is_digit(#[trigger] chars@[k]),
        to < chars@.len() ==> !is_digit(chars@[to as int]),
{
    let mut to: usize = from;
    while to < chars.len()
        invariant
            from <= to <= chars@.len(),
            forall|k: int| from <= k < to ==> is_digit(#[trigger] chars@[k]),
        decreases chars@.len() - to,
    {
        if digit_of(chars[to]).is_none() {
            return to;
        }
        to += 1;
    }
    to
}

/// Adds the values of the digits from `from` up to `to` to a list.
fn push_digit_values(read: &mut Vec<u8>, chars: &Vec<char>, from: usize, to: usize)
    requires
        from <= to <= chars@.len(),
        forall|k: int| from <= k < to ==> is_digit(#[trigger] chars@[k]),
    ensures
        final(read)@.len() == old(read)@.len() + (to - from),
        forall|j: int| 0 <= j < old(read)@.len() ==> final(read)@[j] == old(read)@[j],
        forall|k: int|
            0 <= k < to - from ==> #[trigger] final(read)@[old(read)@.len() + k] == digit_value(
                chars@[from + k],
            ),
{
    let mut at: usize = from;
    while at < to
        invariant
            from <= at <= to <= chars@.len(),
            forall|k: int| from <= k < to ==> is_digit(#[trigger] chars@[k]),
            read@.len() == old(read)@.len() + (at - from),
            forall|j: int| 0 <= j < old(read)@.len() ==> read@[j] == old(read)@[j],
            forall|k: int|
                0 <= k < at - from ==> #[trigger] read@[old(read)@.len() + k] == digit_value(
                    chars@[from + k],
                ),
        decreases to - at,
    {
        assert(is_digit(chars@[at as int]));
        let digit = digit_of(chars[at]).unwrap();
        read.push(digit);
        at += 1;
    }
}

/// Reads what the digits of an amount say, from `start` up to the exponent
/// or to the end. Returns where the exponent's `e` would stand, if the digits
/// say anything.
fn read_significand(chars: &Vec<char>, start: usize) -> (found: (usize, Option<(Natural, usize)>))
    requires
        start <= chars@.len(),
    ensures
        ({
            let body = chars@.skip(start as int);
            let said = significand_of(body.take(exponent_place(body)));
            match found.1 {
                Some((digits, behind)) => found.0 == start + exponent_place(body) && said == Some(
                    (digits@, behind as nat),
                ),
                None => said is None,
            }
        }),
{
    let whole_end = digits_until(chars, start);
    let pointed = whole_end < chars.len() && chars[whole_end] == '.';
    let fraction_start = if pointed {
        whole_end + 1
    } else {
        whole_end
    };
    let end = if pointed {
        digits_until(chars, fraction_start)
    } else {
        whole_end
    };
    let ghost body = chars@.skip(start as int);
    let ghost w = whole_end - start;
    let ghost q = end - start;
    proof {
        lemma_first_place_is_first(body, 'e', 'E');
        assert forall|k: int| 0 <= k < q implies body[k] != 'e' && body[k] != 'E' by {
            assert(body[k] == chars@[start + k]);
            if k != w {
                assert(is_digit(chars@[start + k]));
            }
        }
    }
    if end < chars.len() && chars[end] != 'e' && chars[end] != 'E' {
        proof {
            let mark = exponent_place(body);
            assert(body[q] == chars@[end as int]);
            if mark <= q {
                assert(body[mark] == 'e' || body[mark] == 'E');
            }
            let text = body.take(mark);
            assert forall|k: int| 0 <= k < w implies is_digit(#[trigger] text[k]) by {
                assert(text[k] == chars@[start + k]);
            }
            assert forall|k: int| w < k < q implies is_digit(#[trigger] text[k]) by {
                assert(text[k] == chars@[start + k]);
            }
            assert(text[q] == chars@[end as int]);
            if pointed {
                assert(text[w] == chars@[whole_end as int]);
            }
            lemma_significand_spoiled(text, w, pointed, q);
        }
        return (end, None);
    }
    let ghost text = body.take(q);
    proof {
        lemma_first_place(body, 'e', 'E', q);
        assert forall|k: int| 0 <= k < w implies is_digit(#[trigger] text[k]) by {
            assert(text[k] == chars@[start + k]);
        }
        assert forall|k: int| w < k < text.len() implies is_digit(#[trigger] text[k]) by {
            assert(text[k] == chars@[start + k]);
        }
        if pointed {
            assert(text[w] == chars@[whole_end as int]);
        }
        lemma_significand_parts(text, w, pointed);
    }
    let behind = end - fraction_start;
    if whole_end - start == 0 && behind == 0 {
        return (end, None);
    }
    let mut read: Vec<u8> = Vec::new();
    push_digit_values(&mut read, chars, start, whole_end);
    push_digit_values(&mut read, chars, fraction_start, end);
    let lowest_first = reversed(&read);
    proof {
        let digits = whole_part(text) + fraction_part(text);
        assert(digits.len() == read@.len());
        assert forall|k: int| 0 <= k < digits.len() implies read@[k] == digit_value(
            #[trigger] digits[k],
        ) && is_digit(digits[k]) by {
            if k < w {
                assert(digits[k] == chars@[start + k]);
                assert(read@[0 + k] == digit_value(chars@[start + k]));
            } else {
                assert(digits[k] == chars@[fraction_start + (k - w)]);
                assert(read@[w + (k - w)] == digit_value(chars@[fraction_start + (k - w)]));
            }
        }
        assert(all_digits(digits));
        lemma_reversed_digits(digits, lowest_first@);
    }
    let digits = Natural::from_digits(lowest_first).unwrap();
    (end, Some((digits, behind)))
}

/// Reads what the exponent of an amount says, from `from` to the end: whether
/// it lowers the amount, and by how many powers of ten it raises or lowers
/// it.
fn read_exponent(chars: &Vec<char>, from: usize) -> (found: Option<(bool, usize)>)
    requires
        from <= chars@.len(),
    ensures
        match found {
            Some((lowers, size)) => size <= MAX_EXPONENT && exponent_of(chars@.skip(from as int))
                == Some(
                if lowers {
                    -(size as int)
                } else {
                    size as int
                },
            ),
            None => exponent_of(chars@.skip(from as int)) is None,
        },
{
    let lowers = from < chars.len() && chars[from] == '-';
    let signed = from < chars.len() && (chars[from] == '-' || chars[from] == '+');
    let first = if signed {
        from + 1
    } else {
        from
    };
    let last = digits_until(chars, first);
    let ghost text = chars@.skip(from as int);
    let ghost digits = chars@.skip(first as int);
    proof {
        if from < chars@.len() {
            assert(text[0] == chars@[from as int]);
        }
        if signed {
            assert(text.skip(1) =~= digits);
        } else {
            assert(text =~= digits);
            if from < chars@.len() && last > first {
                assert(is_digit(chars@[from as int]));
            }
        }
    }
    if last < chars.len() {
        assert(digits[last - first] == chars@[last as int]);
        return None;
    }
    if last == first {
        return None;
    }
    proof {
        assert forall|k: int| 0 <= k < digits.len() implies is_digit(#[trigger] digits[k]) by {
            assert(digits[k] == chars@[first + k]);
        }
        assert(digits.take(0) =~= Seq::<char>::empty());
    }
    let mut size: usize = 0;
    let mut at: usize = first;
    while at < last
        invariant
            first <= at <= last,
            last == chars@.len(),
            digits == chars@.skip(first as int),
            all_digits(digits),
            size <= MAX_EXPONENT,
            size == digits_value(digits.take(at - first)),
            digits_value(digits) > MAX_EXPONENT ==> exponent_of(chars@.skip(from as int)) is None,
            digits_value(digits) <= MAX_EXPONENT ==> exponent_of(chars@.skip(from as int)) == Some(
                if lowers {
                    -(digits_value(digits) as int)
                } else {
                    digits_value(digits) as int
                },
            ),
        decreases last - at,
    {
        assert(digits[at - first] == chars@[at as int]);
        assert(is_digit(digits[at - first]));
        let digit = digit_of(chars[at]).unwrap();
        let next = 10 * size + digit as usize;
        proof {
            assert(digits.take(at - first + 1).drop_last() =~= digits.take(at - first));
            assert(digits.take(at - first + 1).last() == digits[at - first]);
            assert(next == digits_value(digits.take(at - first + 1)));
        }
        if next > MAX_EXPONENT {
            proof {
                lemma_digits_value_grows(digits, at - first + 1);
            }
            return None;
        }
        size = next;
        at += 1;
    }
    proof {
        assert(digits.take(at - first) =~= digits);
    }
    Some((lowers, size))
}

impl Decimal {
    /// Reads an amount: digits, among them at most one point, and at least
    /// one digit, with or without a `+` before them and an exponent of at
    /// most [`MAX_EXPONENT`] behind them. Nothing else is an amount.
    pub fn parse(text: &str) -> (amount: Option<Decimal>)
        ensures
            match amount {
                Some(decimal) => decimal_of(text@) == Some(decimal@),
                None => decimal_of(text@) is None,
            },
    {
        let chars = characters(text);
        let start: usize = if chars.len() > 0 && chars[0] == '+' {
            1
        } else {
            0
        };
        let ghost body = unsigned_part(text@);
        assert(chars@.skip(start as int) =~= body);
        let (end, said) = read_significand(&chars, start);
        let (digits, behind) = match said {
            Some(pair) => pair,
            None => {
                return None;
            },
        };
        proof {
            lemma_first_place_is_first(body, 'e', 'E');
        }
        let exponent = if end < chars.len() {
            assert(body.skip(end - start + 1) =~= chars@.skip(end + 1));
            read_exponent(&chars, end + 1)
        } else {
            Some((false, 0))
        };
        let (lowers, size) = match exponent {
            Some(pair) => pair,
            None => {
                return None;
            },
        };
        if lowers && size > 0 {
            if behind > usize::MAX - size {
                return None;
            }
            Some(Decimal { mantissa: digits, scale: behind + size })
        } else if size >= behind {
            Some(Decimal { mantissa: digits.times_pow10(size - behind), scale: 0 })
        } else {
            Some(Decimal { mantissa: digits, scale: behind - size })
        }
    }
}

} // verus!
