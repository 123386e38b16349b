//! Building and comparing text.
use vstd::prelude::*;
use vstd::string::*;

verus! {

/// `String::push`: appends one character to the end of the string.
pub assume_specification[ String::push ](text: &mut String, character: char)
    ensures
        final(text)@ == old(text)@.push(character),
;

/// The decimal digit that stands for `digit`.
pub open spec fn digit_char(digit: nat) -> char {
    (0x30 + digit) as char
}

/// The decimal numeral of `value`, most significant digit first, without leading zeros.
pub open spec fn decimal(value: nat) -> Seq<char>
    decreases value,
{
    if value < 10 {
        seq![digit_char(value)]
    } else {
        decimal(value / 10).push(digit_char(value % 10))
    }
}

/// Appends the decimal numeral of `value`.
pub fn push_decimal(output: &mut String, value: u128)
    ensures
        final(output)@ == old(output)@ + decimal(value as nat),
    decreases value,
{
    if value >= 10 {
        push_decimal(output, value / 10);
    }
    let digit: u8 = (value % 10) as u8;
    output.push((0x30 + digit) as char);
}

/// Whether two texts hold the same characters.
pub fn same_text(left: &str, right: &str) -> (same: bool)
    ensures
        same == (left@ == right@),
{
    let length: usize = left.unicode_len();
    if right.unicode_len() != length {
        return false;
    }
    let mut index: usize = 0;
    while index < length
        invariant
            index <= length,
            left@.len() == length,
            right@.len() == length,
            forall|i: int| 0 <= i < index ==> left@[i] == right@[i],
        decreases length - index,
    {
        if left.get_char(index) != right.get_char(index) {
            return false;
        }
        index += 1;
    }
    assert(left@ =~= right@);
    true
}

/// Why a text is not a number.
#[derive(Debug, Clone, Copy, PartialEq, Eq, Structural)]
pub enum NumberError {
    Empty,
    InvalidDigit,
    TooLarge,
}

impl NumberError {
    pub open spec fn text(self) -> Seq<char> {
        match self {
            NumberError::Empty => "cannot parse integer from empty string"@,
            NumberError::InvalidDigit => "invalid digit found in string"@,
            NumberError::TooLarge => "number too large to fit in target type"@,
        }
    }

    /// Describes the error in one sentence.
    pub fn message(self) -> (message: &'static str)
        ensures
            message@ == self.text(),
    {
        match self {
            NumberError::Empty => "cannot parse integer from empty string",
            NumberError::InvalidDigit => "invalid digit found in string",
            NumberError::TooLarge => "number too large to fit in target type",
        }
    }
}

/// Whether every character is a decimal digit.
pub open spec fn all_digits(text: Seq<char>) -> bool {
    forall|i: int| 0 <= i < text.len() ==> '0' <= #[trigger] text[i] <= '9'
}

/// The value of a text of decimal digits.
pub open spec fn digits_value(text: Seq<char>) -> nat
    decreases text.len(),
{
    if text.len() == 0 {
        0
    } else {
        digits_value(text.drop_last()) * 10 + (text.last() as nat - 0x30) as nat
    }
}

/// The text of a number without its sign: one `+` may lead it.
pub open spec fn without_plus(text: Seq<char>) -> Seq<char> {
    if text.len() > 0 && text[0] == '+' {
        text.skip(1)
    } else {
        text
    }
}

/// The number that a text of decimal digits stands for, where it is at most `limit`. The first
/// character that is no digit, or that leads past the limit, decides.
pub open spec fn digits_number(text: Seq<char>, limit: nat) -> Result<nat, NumberError>
    decreases text.len(),
{
    if text.len() == 0 {
        Ok(0)
    } else {
        match digits_number(text.drop_last(), limit) {
            Ok(value) => {
                let next = value * 10 + (text.last() as nat - 0x30) as nat;
                if !('0' <= text.last() <= '9') {
                    Err(NumberError::InvalidDigit)
                } else if next > limit {
                    Err(NumberError::TooLarge)
                } else {
                    Ok(next)
                }
            },
            Err(error) => Err(error),
        }
    }
}

/// The number that a text stands for, where it is at most `limit`.
pub open spec fn number(text: Seq<char>, limit: nat) -> Result<nat, NumberError> {
    let digits = without_plus(text);
    if text.len() == 0 {
        Err(NumberError::Empty)
    } else if digits.len() == 0 {
        Err(NumberError::InvalidDigit)
    } else {
        digits_number(digits, limit)
    }
}

proof fn lemma_digits_number_fails(text: Seq<char>, limit: nat, count: int)
    requires
        0 <= count <= text.len(),
        digits_number(text.take(count), limit) is Err,
    ensures
        digits_number(text, limit) == digits_number(text.take(count), limit),
    decreases text.len(),
{
    if count < text.len() {
        assert(text.drop_last().take(count) =~= text.take(count));
        lemma_digits_number_fails(text.drop_last(), limit, count);
    } else {
        assert(text.take(count) =~= text);
    }
}

/// Reads a number of at most `limit`.
pub fn parse_number(text: &str, limit: usize) -> (parsed: Result<usize, NumberError>)
    ensures
        match (parsed, number(text@, limit as nat)) {
            (Ok(value), Ok(expected)) => value == expected,
            (Err(error), Err(expected)) => error == expected,
            _ => false,
        },
{
    let length: usize = text.unicode_len();
    if length == 0 {
        return Err(NumberError::Empty);
    }
    let start: usize = if text.get_char(0) == '+' {
        1
    } else {
        0
    };
    let ghost digits = without_plus(text@);
    assert(digits =~= text@.skip(start as int));
    if start == length {
        return Err(NumberError::InvalidDigit);
    }
    let mut value: usize = 0;
    let mut index: usize = start;
    while index < length
        invariant
            start <= index <= length,
            length == text@.len(),
            digits == text@.skip(start as int),
            digits == without_plus(text@),
            digits.len() > 0,
            value <= limit,
            digits_number(digits.take(index - start), limit as nat) == Ok::<nat, NumberError>(
                value as nat,
            ),
        decreases length - index,
    {
        let character: char = text.get_char(index);
        let ghost next = digits.take(index + 1 - start);
        assert(next.drop_last() =~= digits.take(index - start));
        assert(next.last() == character);
        if character < '0' || '9' < character {
            proof {
                lemma_digits_number_fails(digits, limit as nat, index + 1 - start);
            }
            return Err(NumberError::InvalidDigit);
        }
        let digit: usize = (character as u32 - 0x30) as usize;
        let wide: u128 = value as u128 * 10 + digit as u128;
        if wide > limit as u128 {
            proof {
                lemma_digits_number_fails(digits, limit as nat, index + 1 - start);
            }
            return Err(NumberError::TooLarge);
        }
        value = wide as usize;
        index += 1;
    }
    assert(digits.take(length - start) =~= digits);
    Ok(value)
}

/// The value of a decimal numeral is the number that it was written for.
pub proof fn law_decimal_is_read_back(value: nat)
    ensures
        decimal(value).len() > 0,
        all_digits(decimal(value)),
        digits_value(decimal(value)) == value,
    decreases value,
{
    reveal_with_fuel(digits_value, 2);
    if value < 10 {
        assert(decimal(value).drop_last().len() == 0);
    } else {
        law_decimal_is_read_back(value / 10);
        let shorter = decimal(value / 10);
        let text = decimal(value);
        assert(text.drop_last() =~= shorter);
        assert forall|i: int| 0 <= i < text.len() implies '0' <= #[trigger] text[i] <= '9' by {
            if i < shorter.len() {
                assert(shorter[i] == text[i]);
            }
        }
    }
}

/// A text of digits is read as its value, and refused where that is past the limit.
pub proof fn law_digits_are_read_by_value(text: Seq<char>, limit: nat)
    requires
        all_digits(text),
    ensures
        digits_number(text, limit) == if digits_value(text) <= limit {
            Ok::<nat, NumberError>(digits_value(text))
        } else {
            Err(NumberError::TooLarge)
        },
    decreases text.len(),
{
    if text.len() > 0 {
        let shorter = text.drop_last();
        assert forall|i: int| 0 <= i < shorter.len() implies '0' <= #[trigger] shorter[i]
            <= '9' by {
            assert(text[i] == shorter[i]);
        }
        law_digits_are_read_by_value(shorter, limit);
        assert('0' <= text[text.len() - 1] <= '9');
    }
}

proof fn lemma_digits_only(text: Seq<char>, limit: nat)
    ensures
        digits_number(text, limit) is Ok ==> all_digits(text),
    decreases text.len(),
{
    if text.len() > 0 {
        let shorter = text.drop_last();
        lemma_digits_only(shorter, limit);
        if digits_number(text, limit) is Ok {
            assert forall|i: int| 0 <= i < text.len() implies '0' <= #[trigger] text[i] <= '9' by {
                if i < shorter.len() {
                    assert(shorter[i] == text[i]);
                }
            }
        }
    }
}

/// A text is a number where it is digits, behind one `+` or none, whose value is at most the limit;
/// the number is that value. An empty text is refused as empty, and no other is; digits are refused
/// only as too large.
pub proof fn law_numbers_are_digits(text: Seq<char>, limit: nat)
    ensures
        ({
            let digits = without_plus(text);
            let fits = digits.len() > 0 && all_digits(digits) && digits_value(digits) <= limit;
            &&& number(text, limit) is Ok <==> fits
            &&& fits ==> number(text, limit) == Ok::<nat, NumberError>(digits_value(digits))
            &&& number(text, limit) == Err::<nat, NumberError>(NumberError::Empty) <==> text.len()
                == 0
            &&& digits.len() > 0 && all_digits(digits) && !fits ==> number(text, limit) == Err::<
                nat,
                NumberError,
            >(NumberError::TooLarge)
        }),
{
    let digits = without_plus(text);
    if all_digits(digits) {
        law_digits_are_read_by_value(digits, limit);
    }
    lemma_digits_only(digits, limit);
    lemma_never_empty(digits, limit);
}

proof fn lemma_never_empty(text: Seq<char>, limit: nat)
    ensures
        digits_number(text, limit) != Err::<nat, NumberError>(NumberError::Empty),
    decreases text.len(),
{
    if text.len() > 0 {
        lemma_never_empty(text.drop_last(), limit);
    }
}

/// Reading a decimal numeral gives the number that it was written for.
pub proof fn law_numbers_are_read_back(value: nat, limit: nat)
    requires
        value <= limit,
    ensures
        number(decimal(value), limit) == Ok::<nat, NumberError>(value),
{
    law_decimal_is_read_back(value);
    law_digits_are_read_by_value(decimal(value), limit);
    assert('0' <= decimal(value)[0] <= '9');
}

/// Two numbers with one decimal numeral are the same number.
pub proof fn law_decimal_is_injective(left: nat, right: nat)
    requires
        decimal(left) == decimal(right),
    ensures
        left == right,
{
    law_decimal_is_read_back(left);
    law_decimal_is_read_back(right);
}

/// Whether a text holds no decimal digit.
pub open spec fn wordy(text: Seq<char>) -> bool {
    forall|i: int| 0 <= i < text.len() ==> !('0' <= #[trigger] text[i] <= '9')
}

/// Whether the first number in a text is the numeral of a value.
pub open spec fn tells_first(text: Seq<char>, value: nat) -> bool {
    exists|before: Seq<char>, after: Seq<char>| #[trigger]
        (before + decimal(value) + after) == text && wordy(before) && (after.len() > 0 ==> !('0'
            <= after[0] <= '9'))
}

/// Whether the numbers in a text are the numerals of two values, one behind the other.
pub open spec fn tells_both(text: Seq<char>, first: nat, second: nat) -> bool {
    exists|before: Seq<char>, between: Seq<char>, after: Seq<char>| #[trigger]
        (before + decimal(first) + between + decimal(second) + after) == text && wordy(before)
            && wordy(between) && between.len() > 0 && wordy(after)
}

/// A numeral is written by tens: one more digit behind a numeral makes ten times its number and the
/// digit.
pub proof fn law_numerals_are_written_by_tens(value: nat, digit: nat)
    requires
        digit < 10,
    ensures
        decimal(digit) == seq![(0x30 + digit) as char],
        value > 0 ==> decimal(value * 10 + digit) == decimal(value).push((0x30 + digit) as char),
{
    assert(digit_char(digit) == (0x30 + digit) as char);
    assert(decimal(digit) =~= seq![(0x30 + digit) as char]);
    if value > 0 {
        let next = value * 10 + digit;
        assert(next / 10 == value && next % 10 == digit);
        assert(decimal(next) =~= decimal(value).push((0x30 + digit) as char));
    }
}

/// One `+` may lead a number and changes nothing; nothing else may, and no second one.
pub proof fn law_one_plus_may_lead_a_number(text: Seq<char>, lead: char, limit: nat)
    requires
        text.len() > 0,
    ensures
        all_digits(text) ==> number(seq!['+'] + text, limit) == number(text, limit),
        all_digits(text) && lead != '+' && !('0' <= lead <= '9') ==> number(
            seq![lead] + text,
            limit,
        ) == Err::<nat, NumberError>(NumberError::InvalidDigit),
        number(seq!['+', '+'] + text, limit) == Err::<nat, NumberError>(NumberError::InvalidDigit),
        number(seq!['+'], limit) == Err::<nat, NumberError>(NumberError::InvalidDigit),
{
    let plus = seq!['+'] + text;
    assert(plus[0] == '+');
    assert(plus.skip(1) =~= text);
    if all_digits(text) {
        assert('0' <= text[0] <= '9');
    }
    let twice = seq!['+', '+'] + text;
    assert(twice[0] == '+');
    assert(twice.skip(1) =~= plus);
    lemma_leading(plus, limit);
    if lead != '+' && !('0' <= lead <= '9') {
        let led = seq![lead] + text;
        assert(led[0] == lead);
        lemma_leading(led, limit);
    }
    assert(seq!['+'].skip(1) =~= Seq::empty());
}

proof fn lemma_leading(text: Seq<char>, limit: nat)
    requires
        text.len() > 0,
        !('0' <= text[0] <= '9'),
    ensures
        digits_number(text, limit) == Err::<nat, NumberError>(NumberError::InvalidDigit),
    decreases text.len(),
{
    let shorter = text.drop_last();
    if shorter.len() > 0 {
        assert(shorter[0] == text[0]);
        lemma_leading(shorter, limit);
    } else {
        assert(digits_number(shorter, limit) == Ok::<nat, NumberError>(0));
    }
}

} // verus!
