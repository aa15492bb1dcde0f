//! Literal inference: how the text of a rule's value becomes a typed literal.
//!
//! The text is read as a 64-bit signed integer where it is one, else as a
//! floating-point number, else as a boolean, and is kept as text otherwise.

use vstd::prelude::*;

verus! {

/// A typed literal. A floating-point literal keeps the text it was written
/// as; the engine that evaluates the predicate turns it into a number.
#[derive(Clone, Debug, PartialEq, Eq)]
pub enum Literal {
    Int(i64),
    Float(String),
    Bool(bool),
    Text(String),
}

/// A literal as a mathematical value.
pub enum LiteralView {
    Int(i64),
    Float(Seq<char>),
    Bool(bool),
    Text(Seq<char>),
}

impl View for Literal {
    type V = LiteralView;

    open spec fn view(&self) -> LiteralView {
        match self {
            Literal::Int(value) => LiteralView::Int(*value),
            Literal::Float(text) => LiteralView::Float(text@),
            Literal::Bool(value) => LiteralView::Bool(*value),
            Literal::Text(text) => LiteralView::Text(text@),
        }
    }
}

pub open spec fn is_digit(c: char) -> bool {
    '0' <= c <= '9'
}

pub open spec fn is_sign(c: char) -> bool {
    c == '+' || c == '-'
}

pub open spec fn digit_value(c: char) -> nat {
    (c as nat - '0' as nat) as nat
}

pub open spec fn all_digits(text: Seq<char>) -> bool {
    forall|i: int| 0 <= i < text.len() ==> is_digit(#[trigger] text[i])
}

/// One or more decimal digits.
pub open spec fn is_digits(text: Seq<char>) -> bool {
    text.len() > 0 && all_digits(text)
}

/// The number that a run of decimal digits denotes.
pub open spec fn decimal_value(digits: Seq<char>) -> nat
    decreases digits.len(),
{
    if digits.len() == 0 {
        0
    } else {
        decimal_value(digits.drop_last()) * 10 + digit_value(digits.last())
    }
}

/// The text without its leading sign, if it has one.
pub open spec fn unsigned_part(text: Seq<char>) -> Seq<char> {
    if text.len() > 0 && is_sign(text[0]) {
        text.skip(1)
    } else {
        text
    }
}

/// The integer that `text` denotes: an optional sign and one or more decimal
/// digits, with nothing before, between or after.
pub open spec fn integer_value(text: Seq<char>) -> Option<int> {
    let digits = unsigned_part(text);
    if !is_digits(digits) {
        None
    } else if text[0] == '-' {
        Some(-(decimal_value(digits) as int))
    } else {
        Some(decimal_value(digits) as int)
    }
}

/// The 64-bit signed integer that `text` denotes, if it denotes one that fits.
pub open spec fn parsed_integer(text: Seq<char>) -> Option<i64> {
    match integer_value(text) {
        Some(value) => if i64::MIN <= value <= i64::MAX {
            Some(value as i64)
        } else {
            None
        },
        None => None,
    }
}

/// Digits with at most one decimal point among them, at least one digit in
/// all: `Digit+ | Digit+ '.' Digit* | Digit* '.' Digit+`.
pub open spec fn is_mantissa(text: Seq<char>) -> bool {
    ||| is_digits(text)
    ||| exists|point: int|
        0 <= point < text.len() && #[trigger] text[point] == '.' && text.len() >= 2 && all_digits(
            text.take(point),
        ) && all_digits(text.skip(point + 1))
}

/// An exponent: `('e' | 'E') Sign? Digit+`.
pub open spec fn is_exponent(text: Seq<char>) -> bool {
    text.len() > 0 && (text[0] == 'e' || text[0] == 'E') && is_digits(
        unsigned_part(text.skip(1)),
    )
}

/// A decimal number: a mantissa, optionally followed by an exponent.
pub open spec fn is_number(text: Seq<char>) -> bool {
    ||| is_mantissa(text)
    ||| exists|split: int|
        0 <= split <= text.len() && is_mantissa(#[trigger] text.take(split)) && is_exponent(
            text.skip(split),
        )
}

/// The lower-case form of an ASCII capital; any other character is itself.
pub open spec fn lowered(c: char) -> char {
    if 'A' <= c <= 'Z' {
        ((c as u8 + 32) as u8) as char
    } else {
        c
    }
}

/// Whether `text` spells `word`, upper and lower case taken as equal.
pub open spec fn spells(text: Seq<char>, word: Seq<char>) -> bool {
    text.len() == word.len() && forall|i: int|
        0 <= i < text.len() ==> lowered(#[trigger] text[i]) == word[i]
}

/// One of the words for an infinity or for a value that is not a number.
pub open spec fn is_special(text: Seq<char>) -> bool {
    ||| spells(text, seq!['i', 'n', 'f'])
    ||| spells(text, seq!['i', 'n', 'f', 'i', 'n', 'i', 't', 'y'])
    ||| spells(text, seq!['n', 'a', 'n'])
}

/// Whether `text` is written as a floating-point number: an optional sign,
/// then a decimal number or one of the special words. Neither spaces nor any
/// other character may stand before, between or after.
pub open spec fn is_float_text(text: Seq<char>) -> bool {
    let body = unsigned_part(text);
    is_number(body) || is_special(body)
}

/// The literal that a rule's value text stands for.
pub open spec fn literal_of(text: Seq<char>) -> LiteralView {
    match parsed_integer(text) {
        Some(value) => LiteralView::Int(value),
        None => if is_float_text(text) {
            LiteralView::Float(text)
        } else if text == seq!['t', 'r', 'u', 'e'] {
            LiteralView::Bool(true)
        } else if text == seq!['f', 'a', 'l', 's', 'e'] {
            LiteralView::Bool(false)
        } else {
            LiteralView::Text(text)
        },
    }
}

/// The characters of `text`, one by one.
fn chars_of(text: &str) -> (chars: Vec<char>)
    ensures
        chars@ == text@,
{
    let mut chars: Vec<char> = Vec::new();
    for c in it: text.chars()
        invariant
            chars@ == text@.take(it.index() as int),
            it.seq() == text@,
    {
        chars.push(c);
        assert(text@.take(it.index() + 1) =~= text@.take(it.index() as int).push(c));
    }
    assert(text@.take(text@.len() as int) =~= text@);
    chars
}

/// The end of the run of digits that starts at `from`.
fn scan_digits(chars: &Vec<char>, from: usize) -> (end: usize)
    requires
        from <= chars.len(),
    ensures
        from <= end <= chars.len(),
        forall|i: int| from <= i < end ==> is_digit(#[trigger] chars@[i]),
        end == chars.len() || !is_digit(chars@[end as int]),
{
    let mut end = from;
    while end < chars.len() && '0' <= chars[end] && chars[end] <= '9'
        invariant
            from <= end <= chars.len(),
            forall|i: int| from <= i < end ==> is_digit(#[trigger] chars@[i]),
        decreases chars.len() - end,
    {
        end += 1;
    }
    end
}

/// A run of digits denotes at least what any of its beginnings denotes.
proof fn lemma_decimal_value_grows(digits: Seq<char>, len: int)
    requires
        0 <= len <= digits.len(),
    ensures
        decimal_value(digits.take(len)) <= decimal_value(digits),
    decreases digits.len(),
{
    if len == digits.len() {
        assert(digits.take(len) =~= digits);
    } else {
        lemma_decimal_value_grows(digits.drop_last(), len);
        assert(digits.drop_last().take(len) =~= digits.take(len));
    }
}

/// Reads `chars` as a 64-bit signed integer.
fn parse_integer(chars: &Vec<char>) -> (value: Option<i64>)
    ensures
        value == parsed_integer(chars@),
{
    let n = chars.len();
    let negative = n > 0 && chars[0] == '-';
    let start: usize = if n > 0 && (chars[0] == '+' || chars[0] == '-') {
        1
    } else {
        0
    };
    let ghost digits = chars@.skip(start as int);
    assert(digits == unsigned_part(chars@));
    if start == n {
        return None;
    }
    let mut magnitude: u64 = 0;
    let mut i = start;
    while i < n
        invariant
            start <= i <= n,
            n == chars.len(),
            digits == chars@.skip(start as int),
            digits == unsigned_part(chars@),
            all_digits(digits.take(i - start)),
            magnitude == decimal_value(digits.take(i - start)),
            magnitude <= 0x8000_0000_0000_0000,
        decreases n - i,
    {
        let c = chars[i];
        let ghost seen = digits.take(i - start);
        let ghost next = digits.take(i + 1 - start);
        proof {
            assert(digits[i - start] == c);
            assert(next.drop_last() =~= seen);
            assert(next.last() == c);
        }
        if !('0' <= c && c <= '9') {
            assert(!is_digit(digits[i - start]));
            return None;
        }
        let digit: u64 = (c as u32 - '0' as u32) as u64;
        assert(digit == digit_value(c));
        if magnitude > (0x8000_0000_0000_0000 - digit) / 10 {
            proof {
                lemma_decimal_value_grows(digits, i + 1 - start);
                assert(decimal_value(next) == magnitude * 10 + digit);
            }
            return None;
        }
        magnitude = magnitude * 10 + digit;
        assert(all_digits(next)) by {
            assert forall|k: int| 0 <= k < next.len() implies is_digit(#[trigger] next[k]) by {
                if k < seen.len() {
                    assert(seen[k] == next[k]);
                }
            }
        }
        i += 1;
    }
    proof {
        assert(digits.take(n - start) =~= digits);
    }
    if negative {
        if magnitude == 0x8000_0000_0000_0000 {
            Some(i64::MIN)
        } else {
            Some(-(magnitude as i64))
        }
    } else if magnitude == 0x8000_0000_0000_0000 {
        None
    } else {
        Some(magnitude as i64)
    }
}

/// How a number is laid out once its runs of digits are known: `whole` digits
/// from the start, then a decimal point and digits up to `end`, or no point
/// and `end == whole`; the runs cannot be extended.
spec fn is_layout(text: Seq<char>, whole: int, pointed: bool, end: int) -> bool {
    &&& 0 <= whole <= text.len()
    &&& forall|i: int| 0 <= i < whole ==> is_digit(#[trigger] text[i])
    &&& whole == text.len() || !is_digit(text[whole])
    &&& pointed == (whole < text.len() && text[whole] == '.')
    &&& if pointed {
        &&& whole + 1 <= end <= text.len()
        &&& forall|i: int| whole + 1 <= i < end ==> is_digit(#[trigger] text[i])
        &&& end == text.len() || !is_digit(text[end])
    } else {
        end == whole
    }
}

spec fn layout_digits(whole: int, pointed: bool, end: int) -> int {
    if pointed {
        end - 1
    } else {
        whole
    }
}

/// A text is a number exactly when its layout holds a digit and what follows
/// the mantissa is nothing or an exponent.
proof fn lemma_number_layout(text: Seq<char>, whole: int, pointed: bool, end: int)
    requires
        is_layout(text, whole, pointed, end),
    ensures
        is_number(text) <==> layout_digits(whole, pointed, end) > 0 && (end == text.len()
            || is_exponent(text.skip(end))),
{
    let mantissa = text.take(end);
    if layout_digits(whole, pointed, end) > 0 && (end == text.len() || is_exponent(
        text.skip(end),
    )) {
        if pointed {
            assert(mantissa[whole] == '.');
            assert(all_digits(mantissa.take(whole)));
            assert(all_digits(mantissa.skip(whole + 1)));
        } else {
            assert(is_digits(mantissa));
        }
        assert(is_mantissa(mantissa));
        if end == text.len() {
            assert(mantissa =~= text);
        }
    }
    if is_mantissa(text) {
        assert(text.take(text.len() as int) =~= text);
        lemma_mantissa_layout(text, text.len() as int, whole, pointed, end);
    } else if is_number(text) {
        let split = choose|split: int|
            0 <= split <= text.len() && is_mantissa(#[trigger] text.take(split)) && is_exponent(
                text.skip(split),
            );
        assert(text.skip(split)[0] == text[split]);
        lemma_mantissa_layout(text, split, whole, pointed, end);
    }
}

/// Where the first `len` characters of a text are a mantissa and no digit
/// follows them, the layout of the text ends there and holds a digit.
proof fn lemma_mantissa_layout(text: Seq<char>, len: int, whole: int, pointed: bool, end: int)
    requires
        is_layout(text, whole, pointed, end),
        0 <= len <= text.len(),
        is_mantissa(text.take(len)),
        len == text.len() || (!is_digit(text[len]) && text[len] != '.'),
    ensures
        end == len,
        layout_digits(whole, pointed, end) > 0,
{
    let mantissa = text.take(len);
    if is_digits(mantissa) {
        assert forall|i: int| 0 <= i < len implies is_digit(#[trigger] text[i]) by {
            assert(mantissa[i] == text[i]);
        }
        if whole < len {
            assert(is_digit(text[whole]));
        }
        if whole > len {
            assert(is_digit(text[len]));
        }
    } else {
        let point = choose|point: int|
            0 <= point < mantissa.len() && #[trigger] mantissa[point] == '.' && mantissa.len()
                >= 2 && all_digits(mantissa.take(point)) && all_digits(mantissa.skip(point + 1));
        assert(text[point] == '.');
        assert forall|i: int| 0 <= i < point implies is_digit(#[trigger] text[i]) by {
            assert(mantissa.take(point)[i] == text[i]);
        }
        assert forall|i: int| point + 1 <= i < len implies is_digit(#[trigger] text[i]) by {
            assert(mantissa.skip(point + 1)[i - point - 1] == text[i]);
        }
        if whole < point {
            assert(is_digit(text[whole]));
        }
        if whole > point {
            assert(is_digit(text[point]));
        }
        assert(whole == point);
        if end < len {
            assert(is_digit(text[end]));
        }
        if end > len {
            assert(is_digit(text[len]));
        }
    }
}

/// Whether `c` is the letter `lower` in either case.
fn is_letter(c: char, lower: char, upper: char) -> (yes: bool)
    requires
        'a' <= lower <= 'z',
        'A' <= upper <= 'Z',
        upper as u8 + 32 == lower as u8,
    ensures
        yes == (lowered(c) == lower),
{
    c == lower || c == upper
}

/// Whether what follows `from` is one of the special words.
fn is_special_word(chars: &Vec<char>, from: usize) -> (yes: bool)
    requires
        from <= chars.len(),
    ensures
        yes == is_special(chars@.skip(from as int)),
{
    let ghost body = chars@.skip(from as int);
    let len = chars.len() - from;
    if len == 3 {
        let a = chars[from];
        let b = chars[from + 1];
        let c = chars[from + 2];
        assert(body[0] == a && body[1] == b && body[2] == c);
        let inf = is_letter(a, 'i', 'I') && is_letter(b, 'n', 'N') && is_letter(c, 'f', 'F');
        let nan = is_letter(a, 'n', 'N') && is_letter(b, 'a', 'A') && is_letter(c, 'n', 'N');
        inf || nan
    } else if len == 8 {
        assert(body[0] == chars@[from + 0] && body[1] == chars@[from + 1] && body[2] == chars@[from
            + 2] && body[3] == chars@[from + 3] && body[4] == chars@[from + 4] && body[5]
            == chars@[from + 5] && body[6] == chars@[from + 6] && body[7] == chars@[from + 7]);
        is_letter(chars[from], 'i', 'I') && is_letter(chars[from + 1], 'n', 'N') && is_letter(
            chars[from + 2],
            'f',
            'F',
        ) && is_letter(chars[from + 3], 'i', 'I') && is_letter(chars[from + 4], 'n', 'N')
            && is_letter(chars[from + 5], 'i', 'I') && is_letter(chars[from + 6], 't', 'T')
            && is_letter(chars[from + 7], 'y', 'Y')
    } else {
        false
    }
}

/// Whether what follows `at` is an exponent.
fn is_exponent_at(chars: &Vec<char>, at: usize) -> (yes: bool)
    requires
        at <= chars.len(),
    ensures
        yes == is_exponent(chars@.skip(at as int)),
{
    let n = chars.len();
    let ghost tail = chars@.skip(at as int);
    if at >= n {
        return false;
    }
    assert(tail[0] == chars@[at as int]);
    if !(chars[at] == 'e' || chars[at] == 'E') {
        return false;
    }
    let mut from = at + 1;
    assert(tail.skip(1) =~= chars@.skip(at + 1));
    if from < n && (chars[from] == '+' || chars[from] == '-') {
        assert(chars@.skip(at + 1)[0] == chars@[from as int]);
        assert(chars@.skip(at + 1).skip(1) =~= chars@.skip(at + 2));
        from += 1;
    } else if from < n {
        assert(chars@.skip(at + 1)[0] == chars@[from as int]);
    }
    let ghost digits = chars@.skip(from as int);
    assert(digits == unsigned_part(tail.skip(1)));
    if from >= n {
        return false;
    }
    let end = scan_digits(chars, from);
    proof {
        if end == n {
            assert forall|i: int| 0 <= i < digits.len() implies is_digit(#[trigger] digits[i]) by {
                assert(digits[i] == chars@[from + i]);
            }
        } else {
            assert(digits[end - from] == chars@[end as int]);
        }
    }
    end == n
}

/// Whether `chars` are written as a floating-point number.
fn is_float(chars: &Vec<char>) -> (yes: bool)
    ensures
        yes == is_float_text(chars@),
{
    let n = chars.len();
    let start: usize = if n > 0 && (chars[0] == '+' || chars[0] == '-') {
        1
    } else {
        0
    };
    let ghost body = chars@.skip(start as int);
    assert(body == unsigned_part(chars@));
    if is_special_word(chars, start) {
        return true;
    }
    let whole_end = scan_digits(chars, start);
    let pointed = whole_end < n && chars[whole_end] == '.';
    let end = if pointed {
        scan_digits(chars, whole_end + 1)
    } else {
        whole_end
    };
    proof {
        assert forall|i: int| 0 <= i < body.len() implies #[trigger] body[i] == chars@[start
            + i] by {}
        assert(is_layout(body, whole_end - start, pointed, end - start)) by {
            assert forall|i: int| 0 <= i < whole_end - start implies is_digit(
                #[trigger] body[i],
            ) by {
                assert(is_digit(chars@[start + i]));
            }
            if pointed {
                assert forall|i: int| whole_end - start + 1 <= i < end - start implies is_digit(
                    #[trigger] body[i],
                ) by {
                    assert(is_digit(chars@[start + i]));
                }
            }
        }
        lemma_number_layout(body, whole_end - start, pointed, end - start);
        assert(body.skip(end - start) =~= chars@.skip(end as int));
    }
    let digits = if pointed {
        end - start - 1
    } else {
        whole_end - start
    };
    if digits == 0 {
        return false;
    }
    if end == n {
        return true;
    }
    is_exponent_at(chars, end)
}

fn spells_true(chars: &Vec<char>) -> (yes: bool)
    ensures
        yes == (chars@ == seq!['t', 'r', 'u', 'e']),
{
    let yes = chars.len() == 4 && chars[0] == 't' && chars[1] == 'r' && chars[2] == 'u'
        && chars[3] == 'e';
    proof {
        let word = seq!['t', 'r', 'u', 'e'];
        if yes {
            assert(chars@ =~= word);
        } else if chars@ == word {
            assert(chars@.len() == 4);
            assert(chars@[0] == word[0] && chars@[1] == word[1] && chars@[2] == word[2]
                && chars@[3] == word[3]);
        }
    }
    yes
}

fn spells_false(chars: &Vec<char>) -> (yes: bool)
    ensures
        yes == (chars@ == seq!['f', 'a', 'l', 's', 'e']),
{
    let yes = chars.len() == 5 && chars[0] == 'f' && chars[1] == 'a' && chars[2] == 'l'
        && chars[3] == 's' && chars[4] == 'e';
    proof {
        let word = seq!['f', 'a', 'l', 's', 'e'];
        if yes {
            assert(chars@ =~= word);
        } else if chars@ == word {
            assert(chars@.len() == 5);
            assert(chars@[0] == word[0] && chars@[1] == word[1] && chars@[2] == word[2]
                && chars@[3] == word[3] && chars@[4] == word[4]);
        }
    }
    yes
}

/// Infers the literal that `s` stands for: a 64-bit signed integer where the
/// text is one, else a floating-point number, else a boolean, else the text
/// itself.
pub fn parse_literal(s: &str) -> (literal: Literal)
    ensures
        literal@ == literal_of(s@),
{
    let chars = chars_of(s);
    match parse_integer(&chars) {
        Some(value) => Literal::Int(value),
        None => {
            if is_float(&chars) {
                Literal::Float(s.to_owned())
            } else if spells_true(&chars) {
                Literal::Bool(true)
            } else if spells_false(&chars) {
                Literal::Bool(false)
            } else {
                Literal::Text(s.to_owned())
            }
        },
    }
}

} // verus!
