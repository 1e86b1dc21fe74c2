//! Plain text: comparison, numbers in decimal, and how results read as text.
use vstd::prelude::*;
use vstd::string::*;

verus! {

/// Whether two texts hold the same characters.
pub fn same_text(left: &str, right: &str) -> (same: bool)
    ensures
        same == (left@ == right@),
{
    let left: String = left.to_owned();
    let right: String = right.to_owned();
    left == right
}

/// What an optional text holds.
pub open spec fn optional_text(value: Option<String>) -> Option<Seq<char>> {
    match value {
        Some(text) => Some(text@),
        None => None,
    }
}

/// Whether two optional texts are both absent, or both present with the same
/// characters.
pub fn same_optional_text(left: &Option<String>, right: &Option<String>) -> (same: bool)
    ensures
        same == (optional_text(*left) == optional_text(*right)),
        same <==> match (*left, *right) {
            (Some(left), Some(right)) => left@ == right@,
            (None, None) => true,
            _ => false,
        },
{
    match (left, right) {
        (Some(left), Some(right)) => *left == *right,
        (None, None) => true,
        _ => false,
    }
}

/// The characters of a text.
pub fn characters(text: &str) -> (characters: Vec<char>)
    ensures
        characters@ == text@,
{
    let mut characters: Vec<char> = Vec::new();
    for character in it: text.chars()
        invariant
            it.seq() == text@,
            characters@ == text@.take(it.index() as int),
    {
        proof {
            assert(text@.take(it.index() + 1) =~= text@.take(it.index() as int).push(character));
        }
        characters.push(character);
    }
    assert(text@.take(text@.len() as int) =~= text@);
    characters
}

/// Whether a text begins with another.
pub fn starts_with(text: &str, prefix: &str) -> (starts: bool)
    ensures
        starts == prefix@.is_prefix_of(text@),
{
    let letters: Vec<char> = characters(text);
    let wanted: Vec<char> = characters(prefix);
    if letters.len() < wanted.len() {
        return false;
    }
    let mut i: usize = 0;
    while i < wanted.len()
        invariant
            i <= wanted.len() <= letters.len(),
            letters@ == text@,
            wanted@ == prefix@,
            forall|j: int| 0 <= j < i ==> wanted@[j] == letters@[j],
        decreases wanted.len() - i,
    {
        if wanted[i] != letters[i] {
            assert(text@.subrange(0, prefix@.len() as int)[i as int] == text@[i as int]);
            return false;
        }
        i = i + 1;
    }
    true
}

/// The character of a decimal digit.
pub open spec fn digit_char(digit: nat) -> char {
    (('0' as nat) + digit) as char
}

/// A number in decimal, without leading zeros; zero is the one digit `0`.
pub open spec fn decimal_text(number: nat) -> Seq<char>
    decreases number,
{
    if number < 10 {
        seq![digit_char(number)]
    } else {
        decimal_text(number / 10).push(digit_char(number % 10))
    }
}

/// The decimal text of a number of one digit is that digit; that of ten times a number,
/// which is not zero, and a digit more is the text of the number and the digit behind it.
pub proof fn law_decimal_is_written_digit_by_digit(number: nat, last: nat)
    requires
        last < 10,
    ensures
        decimal_text(last) == seq![('0' as nat + last) as char],
        number > 0 ==> decimal_text(10 * number + last) == decimal_text(number).push(
            ('0' as nat + last) as char,
        ),
{
    assert((10 * number + last) / 10 == number);
    assert((10 * number + last) % 10 == last);
}

/// Different numbers have different decimal texts.
pub proof fn law_decimal_tells_numbers_apart(left: nat, right: nat)
    requires
        decimal_text(left) == decimal_text(right),
    ensures
        left == right,
    decreases left,
{
    let text = decimal_text(left);
    lemma_decimal_has_digits(left);
    lemma_decimal_has_digits(right);
    assert(text.last() == digit_char(left % 10));
    assert(text.last() == digit_char(right % 10));
    assert(digit_char(left % 10) as nat == '0' as nat + left % 10);
    assert(digit_char(right % 10) as nat == '0' as nat + right % 10);
    if left >= 10 {
        lemma_decimal_has_digits(left / 10);
        assert(right >= 10);
        assert(text.drop_last() =~= decimal_text(left / 10));
        assert(text.drop_last() =~= decimal_text(right / 10));
        law_decimal_tells_numbers_apart(left / 10, right / 10);
    } else if right >= 10 {
        lemma_decimal_has_digits(right / 10);
    }
}

proof fn lemma_decimal_has_digits(number: nat)
    ensures
        decimal_text(number).len() > 0,
        number >= 10 ==> decimal_text(number).len() > 1,
        decimal_text(number).last() == digit_char(number % 10),
    decreases number,
{
    if number >= 10 {
        lemma_decimal_has_digits(number / 10);
    }
}

fn digit(value: u64) -> (text: &'static str)
    requires
        value < 10,
    ensures
        text@ == seq![digit_char(value as nat)],
{
    proof {
        reveal_strlit("0");
        reveal_strlit("1");
        reveal_strlit("2");
        reveal_strlit("3");
        reveal_strlit("4");
        reveal_strlit("5");
        reveal_strlit("6");
        reveal_strlit("7");
        reveal_strlit("8");
        reveal_strlit("9");
    }
    let text: &'static str = match value {
        0 => "0",
        1 => "1",
        2 => "2",
        3 => "3",
        4 => "4",
        5 => "5",
        6 => "6",
        7 => "7",
        8 => "8",
        _ => "9",
    };
    assert(text@ =~= seq![digit_char(value as nat)]);
    text
}

/// Writes a number in decimal.
pub fn decimal(number: u64) -> (text: String)
    ensures
        text@ == decimal_text(number as nat),
    decreases number,
{
    if number < 10 {
        let mut text: String = String::new();
        text.append(digit(number));
        assert(text@ =~= decimal_text(number as nat));
        text
    } else {
        let mut text: String = decimal(number / 10);
        text.append(digit(number % 10));
        assert(text@ =~= decimal_text(number as nat));
        text
    }
}

/// The last three decimal digits of a number, with leading zeros.
pub open spec fn three_digits(number: nat) -> Seq<char> {
    seq![
        digit_char((number / 100) % 10),
        digit_char((number / 10) % 10),
        digit_char(number % 10),
    ]
}

/// A number below a thousand reads as three digits that stand for its hundreds, tens and
/// ones.
pub proof fn law_three_digits_stand_for_the_number(number: nat)
    requires
        number < 1000,
    ensures
        three_digits(number).len() == 3,
        forall|i: int| 0 <= i < 3 ==> '0' <= #[trigger] three_digits(number)[i] <= '9',
        number == 100 * (three_digits(number)[0] as nat - '0' as nat) + 10 * (three_digits(
            number,
        )[1] as nat - '0' as nat) + (three_digits(number)[2] as nat - '0' as nat),
{
    let hundreds = (number / 100) % 10;
    let tens = (number / 10) % 10;
    let ones = number % 10;
    assert(number == 100 * hundreds + 10 * tens + ones);
    assert(digit_char(hundreds) as nat == '0' as nat + hundreds);
    assert(digit_char(tens) as nat == '0' as nat + tens);
    assert(digit_char(ones) as nat == '0' as nat + ones);
}

/// Writes a number below a thousand with exactly three digits.
pub fn padded_decimal(number: u64) -> (text: String)
    requires
        number < 1000,
    ensures
        text@ == three_digits(number as nat),
{
    let mut text: String = String::new();
    text.append(digit((number / 100) % 10));
    text.append(digit((number / 10) % 10));
    text.append(digit(number % 10));
    assert(text@ =~= three_digits(number as nat));
    text
}

} // verus!
