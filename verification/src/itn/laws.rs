//! The English names of numbers read as the numbers, and what holds of signs,
//! of `and` and of the words around a number.

use vstd::prelude::*;

use crate::itn;
use crate::itn::{PhraseText, Reading, Tally, TokenText};
use crate::text;

verus! {

// ---------------------------------------------------------------------------
// The English names of numbers
// ---------------------------------------------------------------------------

/// The name of a digit.
pub open spec fn unit_name(d: nat) -> Seq<char> {
    if d == 0 {
        "zero"@
    } else if d == 1 {
        "one"@
    } else if d == 2 {
        "two"@
    } else if d == 3 {
        "three"@
    } else if d == 4 {
        "four"@
    } else if d == 5 {
        "five"@
    } else if d == 6 {
        "six"@
    } else if d == 7 {
        "seven"@
    } else if d == 8 {
        "eight"@
    } else {
        "nine"@
    }
}

/// The name of a number from ten to nineteen.
pub open spec fn teen_name(d: nat) -> Seq<char> {
    if d == 10 {
        "ten"@
    } else if d == 11 {
        "eleven"@
    } else if d == 12 {
        "twelve"@
    } else if d == 13 {
        "thirteen"@
    } else if d == 14 {
        "fourteen"@
    } else if d == 15 {
        "fifteen"@
    } else if d == 16 {
        "sixteen"@
    } else if d == 17 {
        "seventeen"@
    } else if d == 18 {
        "eighteen"@
    } else {
        "nineteen"@
    }
}

/// The name of so many tens, from two on.
pub open spec fn tens_name(d: nat) -> Seq<char> {
    if d == 2 {
        "twenty"@
    } else if d == 3 {
        "thirty"@
    } else if d == 4 {
        "forty"@
    } else if d == 5 {
        "fifty"@
    } else if d == 6 {
        "sixty"@
    } else if d == 7 {
        "seventy"@
    } else if d == 8 {
        "eighty"@
    } else {
        "ninety"@
    }
}

/// The name of a number below a hundred.
pub open spec fn name_below_hundred(n: nat) -> Seq<Seq<char>> {
    if n < 10 {
        seq![unit_name(n)]
    } else if n < 20 {
        seq![teen_name(n)]
    } else if n % 10 == 0 {
        seq![tens_name(n / 10)]
    } else {
        seq![tens_name(n / 10), unit_name(n % 10)]
    }
}

/// The name of a number below a thousand.
pub open spec fn name_below_thousand(n: nat) -> Seq<Seq<char>> {
    if n < 100 {
        name_below_hundred(n)
    } else {
        seq![unit_name(n / 100), "hundred"@] + (if n % 100 == 0 {
            seq![]
        } else {
            name_below_hundred(n % 100)
        })
    }
}

/// The name of so many thousands, millions or billions, if there are any.
pub open spec fn name_of_group(n: nat, magnitude: Seq<char>) -> Seq<Seq<char>> {
    if n == 0 {
        seq![]
    } else {
        name_below_thousand(n).push(magnitude)
    }
}

/// The name of a number below a million million.
pub open spec fn name_of(n: nat) -> Seq<Seq<char>> {
    if n < 1000 {
        name_below_thousand(n)
    } else {
        name_of_group(n / 1_000_000_000, "billion"@) + name_of_group(
            n / 1_000_000 % 1000,
            "million"@,
        ) + name_of_group(n / 1000 % 1000, "thousand"@) + (if n % 1000 == 0 {
            seq![]
        } else {
            name_below_thousand(n % 1000)
        })
    }
}

/// The names of digits in a row.
pub open spec fn names_of_digits(digits: Seq<nat>) -> Seq<Seq<char>> {
    Seq::new(digits.len(), |i: int| unit_name(digits[i]))
}

/// Digits in a row.
pub open spec fn written_digits(digits: Seq<nat>) -> Seq<char> {
    Seq::new(digits.len(), |i: int| (48 + digits[i]) as u8 as char)
}

/// Whether a text is made of small ASCII letters.
spec fn small_letters(w: Seq<char>) -> bool {
    w.len() > 0 && forall|i: int| 0 <= i < w.len() ==> 'a' <= #[trigger] w[i] <= 'z'
}

proof fn lemma_units(d: nat)
    requires
        d < 10,
    ensures
        itn::digit_word(unit_name(d)) == Some(d as u32),
        small_letters(unit_name(d)),
        unit_name(d) != "and"@ && unit_name(d) != "point"@ && unit_name(d) != "minus"@
            && unit_name(d) != "negative"@,
{
    reveal_strlit("zero");
    reveal_strlit("one");
    reveal_strlit("two");
    reveal_strlit("three");
    reveal_strlit("four");
    reveal_strlit("five");
    reveal_strlit("six");
    reveal_strlit("seven");
    reveal_strlit("eight");
    reveal_strlit("nine");
    reveal_strlit("oh");
    reveal_strlit("and");
    reveal_strlit("point");
    reveal_strlit("minus");
    reveal_strlit("negative");
    assert("zero"@.len() == 4 && "zero"@[0] == 'z' && "zero"@[1] == 'e' && "zero"@[2] == 'r' && "zero"@[3] == 'o');
    assert("one"@.len() == 3 && "one"@[0] == 'o' && "one"@[1] == 'n' && "one"@[2] == 'e');
    assert("two"@.len() == 3 && "two"@[0] == 't' && "two"@[1] == 'w' && "two"@[2] == 'o');
    assert("three"@.len() == 5 && "three"@[0] == 't' && "three"@[1] == 'h' && "three"@[2] == 'r' && "three"@[3] == 'e');
    assert("four"@.len() == 4 && "four"@[0] == 'f' && "four"@[1] == 'o' && "four"@[2] == 'u' && "four"@[3] == 'r');
    assert("five"@.len() == 4 && "five"@[0] == 'f' && "five"@[1] == 'i' && "five"@[2] == 'v' && "five"@[3] == 'e');
    assert("six"@.len() == 3 && "six"@[0] == 's' && "six"@[1] == 'i' && "six"@[2] == 'x');
    assert("seven"@.len() == 5 && "seven"@[0] == 's' && "seven"@[1] == 'e' && "seven"@[2] == 'v' && "seven"@[3] == 'e');
    assert("eight"@.len() == 5 && "eight"@[0] == 'e' && "eight"@[1] == 'i' && "eight"@[2] == 'g' && "eight"@[3] == 'h');
    assert("nine"@.len() == 4 && "nine"@[0] == 'n' && "nine"@[1] == 'i' && "nine"@[2] == 'n' && "nine"@[3] == 'e');
    assert("oh"@.len() == 2 && "oh"@[0] == 'o' && "oh"@[1] == 'h');
    assert("and"@.len() == 3 && "and"@[0] == 'a' && "and"@[1] == 'n' && "and"@[2] == 'd');
    assert("point"@.len() == 5 && "point"@[0] == 'p' && "point"@[1] == 'o' && "point"@[2] == 'i' && "point"@[3] == 'n');
    assert("minus"@.len() == 5 && "minus"@[0] == 'm' && "minus"@[1] == 'i' && "minus"@[2] == 'n' && "minus"@[3] == 'u');
    assert("negative"@.len() == 8 && "negative"@[0] == 'n' && "negative"@[1] == 'e' && "negative"@[2] == 'g' && "negative"@[3] == 'a');
}

proof fn lemma_teens(n: nat)
    requires
        10 <= n < 20,
    ensures
        itn::digit_word(teen_name(n)) is None,
        itn::teen_or_tens_word(teen_name(n)) == Some(n as u32),
        small_letters(teen_name(n)),
        teen_name(n) != "and"@ && teen_name(n) != "point"@ && teen_name(n) != "minus"@
            && teen_name(n) != "negative"@,
{
    reveal_strlit("zero");
    reveal_strlit("one");
    reveal_strlit("two");
    reveal_strlit("three");
    reveal_strlit("four");
    reveal_strlit("five");
    reveal_strlit("six");
    reveal_strlit("seven");
    reveal_strlit("eight");
    reveal_strlit("nine");
    reveal_strlit("oh");
    reveal_strlit("ten");
    reveal_strlit("eleven");
    reveal_strlit("twelve");
    reveal_strlit("thirteen");
    reveal_strlit("fourteen");
    reveal_strlit("fifteen");
    reveal_strlit("sixteen");
    reveal_strlit("seventeen");
    reveal_strlit("eighteen");
    reveal_strlit("nineteen");
    reveal_strlit("twenty");
    reveal_strlit("thirty");
    reveal_strlit("forty");
    reveal_strlit("fifty");
    reveal_strlit("sixty");
    reveal_strlit("seventy");
    reveal_strlit("eighty");
    reveal_strlit("ninety");
    reveal_strlit("and");
    reveal_strlit("point");
    reveal_strlit("minus");
    reveal_strlit("negative");
    assert("zero"@.len() == 4 && "zero"@[0] == 'z' && "zero"@[1] == 'e' && "zero"@[2] == 'r' && "zero"@[3] == 'o');
    assert("one"@.len() == 3 && "one"@[0] == 'o' && "one"@[1] == 'n' && "one"@[2] == 'e');
    assert("two"@.len() == 3 && "two"@[0] == 't' && "two"@[1] == 'w' && "two"@[2] == 'o');
    assert("three"@.len() == 5 && "three"@[0] == 't' && "three"@[1] == 'h' && "three"@[2] == 'r' && "three"@[3] == 'e');
    assert("four"@.len() == 4 && "four"@[0] == 'f' && "four"@[1] == 'o' && "four"@[2] == 'u' && "four"@[3] == 'r');
    assert("five"@.len() == 4 && "five"@[0] == 'f' && "five"@[1] == 'i' && "five"@[2] == 'v' && "five"@[3] == 'e');
    assert("six"@.len() == 3 && "six"@[0] == 's' && "six"@[1] == 'i' && "six"@[2] == 'x');
    assert("seven"@.len() == 5 && "seven"@[0] == 's' && "seven"@[1] == 'e' && "seven"@[2] == 'v' && "seven"@[3] == 'e');
    assert("eight"@.len() == 5 && "eight"@[0] == 'e' && "eight"@[1] == 'i' && "eight"@[2] == 'g' && "eight"@[3] == 'h');
    assert("nine"@.len() == 4 && "nine"@[0] == 'n' && "nine"@[1] == 'i' && "nine"@[2] == 'n' && "nine"@[3] == 'e');
    assert("oh"@.len() == 2 && "oh"@[0] == 'o' && "oh"@[1] == 'h');
    assert("ten"@.len() == 3 && "ten"@[0] == 't' && "ten"@[1] == 'e' && "ten"@[2] == 'n');
    assert("eleven"@.len() == 6 && "eleven"@[0] == 'e' && "eleven"@[1] == 'l' && "eleven"@[2] == 'e' && "eleven"@[3] == 'v');
    assert("twelve"@.len() == 6 && "twelve"@[0] == 't' && "twelve"@[1] == 'w' && "twelve"@[2] == 'e' && "twelve"@[3] == 'l');
    assert("thirteen"@.len() == 8 && "thirteen"@[0] == 't' && "thirteen"@[1] == 'h' && "thirteen"@[2] == 'i' && "thirteen"@[3] == 'r');
    assert("fourteen"@.len() == 8 && "fourteen"@[0] == 'f' && "fourteen"@[1] == 'o' && "fourteen"@[2] == 'u' && "fourteen"@[3] == 'r');
    assert("fifteen"@.len() == 7 && "fifteen"@[0] == 'f' && "fifteen"@[1] == 'i' && "fifteen"@[2] == 'f' && "fifteen"@[3] == 't');
    assert("sixteen"@.len() == 7 && "sixteen"@[0] == 's' && "sixteen"@[1] == 'i' && "sixteen"@[2] == 'x' && "sixteen"@[3] == 't');
    assert("seventeen"@.len() == 9 && "seventeen"@[0] == 's' && "seventeen"@[1] == 'e' && "seventeen"@[2] == 'v' && "seventeen"@[3] == 'e');
    assert("eighteen"@.len() == 8 && "eighteen"@[0] == 'e' && "eighteen"@[1] == 'i' && "eighteen"@[2] == 'g' && "eighteen"@[3] == 'h');
    assert("nineteen"@.len() == 8 && "nineteen"@[0] == 'n' && "nineteen"@[1] == 'i' && "nineteen"@[2] == 'n' && "nineteen"@[3] == 'e');
    assert("twenty"@.len() == 6 && "twenty"@[0] == 't' && "twenty"@[1] == 'w' && "twenty"@[2] == 'e' && "twenty"@[3] == 'n');
    assert("thirty"@.len() == 6 && "thirty"@[0] == 't' && "thirty"@[1] == 'h' && "thirty"@[2] == 'i' && "thirty"@[3] == 'r');
    assert("forty"@.len() == 5 && "forty"@[0] == 'f' && "forty"@[1] == 'o' && "forty"@[2] == 'r' && "forty"@[3] == 't');
    assert("fifty"@.len() == 5 && "fifty"@[0] == 'f' && "fifty"@[1] == 'i' && "fifty"@[2] == 'f' && "fifty"@[3] == 't');
    assert("sixty"@.len() == 5 && "sixty"@[0] == 's' && "sixty"@[1] == 'i' && "sixty"@[2] == 'x' && "sixty"@[3] == 't');
    assert("seventy"@.len() == 7 && "seventy"@[0] == 's' && "seventy"@[1] == 'e' && "seventy"@[2] == 'v' && "seventy"@[3] == 'e');
    assert("eighty"@.len() == 6 && "eighty"@[0] == 'e' && "eighty"@[1] == 'i' && "eighty"@[2] == 'g' && "eighty"@[3] == 'h');
    assert("ninety"@.len() == 6 && "ninety"@[0] == 'n' && "ninety"@[1] == 'i' && "ninety"@[2] == 'n' && "ninety"@[3] == 'e');
    assert("and"@.len() == 3 && "and"@[0] == 'a' && "and"@[1] == 'n' && "and"@[2] == 'd');
    assert("point"@.len() == 5 && "point"@[0] == 'p' && "point"@[1] == 'o' && "point"@[2] == 'i' && "point"@[3] == 'n');
    assert("minus"@.len() == 5 && "minus"@[0] == 'm' && "minus"@[1] == 'i' && "minus"@[2] == 'n' && "minus"@[3] == 'u');
    assert("negative"@.len() == 8 && "negative"@[0] == 'n' && "negative"@[1] == 'e' && "negative"@[2] == 'g' && "negative"@[3] == 'a');
}

proof fn lemma_tens(d: nat)
    requires
        2 <= d < 10,
    ensures
        itn::digit_word(tens_name(d)) is None,
        itn::teen_or_tens_word(tens_name(d)) == Some((d * 10) as u32),
        small_letters(tens_name(d)),
        tens_name(d) != "and"@ && tens_name(d) != "point"@ && tens_name(d) != "minus"@
            && tens_name(d) != "negative"@,
{
    reveal_strlit("zero");
    reveal_strlit("one");
    reveal_strlit("two");
    reveal_strlit("three");
    reveal_strlit("four");
    reveal_strlit("five");
    reveal_strlit("six");
    reveal_strlit("seven");
    reveal_strlit("eight");
    reveal_strlit("nine");
    reveal_strlit("oh");
    reveal_strlit("ten");
    reveal_strlit("eleven");
    reveal_strlit("twelve");
    reveal_strlit("thirteen");
    reveal_strlit("fourteen");
    reveal_strlit("fifteen");
    reveal_strlit("sixteen");
    reveal_strlit("seventeen");
    reveal_strlit("eighteen");
    reveal_strlit("nineteen");
    reveal_strlit("twenty");
    reveal_strlit("thirty");
    reveal_strlit("forty");
    reveal_strlit("fifty");
    reveal_strlit("sixty");
    reveal_strlit("seventy");
    reveal_strlit("eighty");
    reveal_strlit("ninety");
    reveal_strlit("and");
    reveal_strlit("point");
    reveal_strlit("minus");
    reveal_strlit("negative");
    assert("zero"@.len() == 4 && "zero"@[0] == 'z' && "zero"@[1] == 'e' && "zero"@[2] == 'r' && "zero"@[3] == 'o');
    assert("one"@.len() == 3 && "one"@[0] == 'o' && "one"@[1] == 'n' && "one"@[2] == 'e');
    assert("two"@.len() == 3 && "two"@[0] == 't' && "two"@[1] == 'w' && "two"@[2] == 'o');
    assert("three"@.len() == 5 && "three"@[0] == 't' && "three"@[1] == 'h' && "three"@[2] == 'r' && "three"@[3] == 'e');
    assert("four"@.len() == 4 && "four"@[0] == 'f' && "four"@[1] == 'o' && "four"@[2] == 'u' && "four"@[3] == 'r');
    assert("five"@.len() == 4 && "five"@[0] == 'f' && "five"@[1] == 'i' && "five"@[2] == 'v' && "five"@[3] == 'e');
    assert("six"@.len() == 3 && "six"@[0] == 's' && "six"@[1] == 'i' && "six"@[2] == 'x');
    assert("seven"@.len() == 5 && "seven"@[0] == 's' && "seven"@[1] == 'e' && "seven"@[2] == 'v' && "seven"@[3] == 'e');
    assert("eight"@.len() == 5 && "eight"@[0] == 'e' && "eight"@[1] == 'i' && "eight"@[2] == 'g' && "eight"@[3] == 'h');
    assert("nine"@.len() == 4 && "nine"@[0] == 'n' && "nine"@[1] == 'i' && "nine"@[2] == 'n' && "nine"@[3] == 'e');
    assert("oh"@.len() == 2 && "oh"@[0] == 'o' && "oh"@[1] == 'h');
    assert("ten"@.len() == 3 && "ten"@[0] == 't' && "ten"@[1] == 'e' && "ten"@[2] == 'n');
    assert("eleven"@.len() == 6 && "eleven"@[0] == 'e' && "eleven"@[1] == 'l' && "eleven"@[2] == 'e' && "eleven"@[3] == 'v');
    assert("twelve"@.len() == 6 && "twelve"@[0] == 't' && "twelve"@[1] == 'w' && "twelve"@[2] == 'e' && "twelve"@[3] == 'l');
    assert("thirteen"@.len() == 8 && "thirteen"@[0] == 't' && "thirteen"@[1] == 'h' && "thirteen"@[2] == 'i' && "thirteen"@[3] == 'r');
    assert("fourteen"@.len() == 8 && "fourteen"@[0] == 'f' && "fourteen"@[1] == 'o' && "fourteen"@[2] == 'u' && "fourteen"@[3] == 'r');
    assert("fifteen"@.len() == 7 && "fifteen"@[0] == 'f' && "fifteen"@[1] == 'i' && "fifteen"@[2] == 'f' && "fifteen"@[3] == 't');
    assert("sixteen"@.len() == 7 && "sixteen"@[0] == 's' && "sixteen"@[1] == 'i' && "sixteen"@[2] == 'x' && "sixteen"@[3] == 't');
    assert("seventeen"@.len() == 9 && "seventeen"@[0] == 's' && "seventeen"@[1] == 'e' && "seventeen"@[2] == 'v' && "seventeen"@[3] == 'e');
    assert("eighteen"@.len() == 8 && "eighteen"@[0] == 'e' && "eighteen"@[1] == 'i' && "eighteen"@[2] == 'g' && "eighteen"@[3] == 'h');
    assert("nineteen"@.len() == 8 && "nineteen"@[0] == 'n' && "nineteen"@[1] == 'i' && "nineteen"@[2] == 'n' && "nineteen"@[3] == 'e');
    assert("twenty"@.len() == 6 && "twenty"@[0] == 't' && "twenty"@[1] == 'w' && "twenty"@[2] == 'e' && "twenty"@[3] == 'n');
    assert("thirty"@.len() == 6 && "thirty"@[0] == 't' && "thirty"@[1] == 'h' && "thirty"@[2] == 'i' && "thirty"@[3] == 'r');
    assert("forty"@.len() == 5 && "forty"@[0] == 'f' && "forty"@[1] == 'o' && "forty"@[2] == 'r' && "forty"@[3] == 't');
    assert("fifty"@.len() == 5 && "fifty"@[0] == 'f' && "fifty"@[1] == 'i' && "fifty"@[2] == 'f' && "fifty"@[3] == 't');
    assert("sixty"@.len() == 5 && "sixty"@[0] == 's' && "sixty"@[1] == 'i' && "sixty"@[2] == 'x' && "sixty"@[3] == 't');
    assert("seventy"@.len() == 7 && "seventy"@[0] == 's' && "seventy"@[1] == 'e' && "seventy"@[2] == 'v' && "seventy"@[3] == 'e');
    assert("eighty"@.len() == 6 && "eighty"@[0] == 'e' && "eighty"@[1] == 'i' && "eighty"@[2] == 'g' && "eighty"@[3] == 'h');
    assert("ninety"@.len() == 6 && "ninety"@[0] == 'n' && "ninety"@[1] == 'i' && "ninety"@[2] == 'n' && "ninety"@[3] == 'e');
    assert("and"@.len() == 3 && "and"@[0] == 'a' && "and"@[1] == 'n' && "and"@[2] == 'd');
    assert("point"@.len() == 5 && "point"@[0] == 'p' && "point"@[1] == 'o' && "point"@[2] == 'i' && "point"@[3] == 'n');
    assert("minus"@.len() == 5 && "minus"@[0] == 'm' && "minus"@[1] == 'i' && "minus"@[2] == 'n' && "minus"@[3] == 'u');
    assert("negative"@.len() == 8 && "negative"@[0] == 'n' && "negative"@[1] == 'e' && "negative"@[2] == 'g' && "negative"@[3] == 'a');
}

proof fn lemma_multipliers(w: Seq<char>)
    requires
        w == "hundred"@ || w == "thousand"@ || w == "million"@ || w == "billion"@,
    ensures
        itn::digit_word(w) is None,
        itn::teen_or_tens_word(w) is None,
        w != "hundred"@ ==> itn::magnitude_word(w) == Some(
            if w == "thousand"@ {
                1_000i64
            } else if w == "million"@ {
                1_000_000i64
            } else {
                1_000_000_000i64
            },
        ),
        w == "billion"@ ==> w != "thousand"@ && w != "million"@ && w != "hundred"@,
        w == "million"@ ==> w != "thousand"@ && w != "hundred"@,
        w == "thousand"@ ==> w != "hundred"@,
        small_letters(w),
        w != "and"@ && w != "point"@ && w != "minus"@ && w != "negative"@,
{
    reveal_strlit("zero");
    reveal_strlit("one");
    reveal_strlit("two");
    reveal_strlit("three");
    reveal_strlit("four");
    reveal_strlit("five");
    reveal_strlit("six");
    reveal_strlit("seven");
    reveal_strlit("eight");
    reveal_strlit("nine");
    reveal_strlit("oh");
    reveal_strlit("ten");
    reveal_strlit("eleven");
    reveal_strlit("twelve");
    reveal_strlit("thirteen");
    reveal_strlit("fourteen");
    reveal_strlit("fifteen");
    reveal_strlit("sixteen");
    reveal_strlit("seventeen");
    reveal_strlit("eighteen");
    reveal_strlit("nineteen");
    reveal_strlit("twenty");
    reveal_strlit("thirty");
    reveal_strlit("forty");
    reveal_strlit("fifty");
    reveal_strlit("sixty");
    reveal_strlit("seventy");
    reveal_strlit("eighty");
    reveal_strlit("ninety");
    reveal_strlit("thousand");
    reveal_strlit("million");
    reveal_strlit("billion");
    reveal_strlit("hundred");
    reveal_strlit("and");
    reveal_strlit("point");
    reveal_strlit("minus");
    reveal_strlit("negative");
    assert("zero"@.len() == 4 && "zero"@[0] == 'z' && "zero"@[1] == 'e' && "zero"@[2] == 'r' && "zero"@[3] == 'o');
    assert("one"@.len() == 3 && "one"@[0] == 'o' && "one"@[1] == 'n' && "one"@[2] == 'e');
    assert("two"@.len() == 3 && "two"@[0] == 't' && "two"@[1] == 'w' && "two"@[2] == 'o');
    assert("three"@.len() == 5 && "three"@[0] == 't' && "three"@[1] == 'h' && "three"@[2] == 'r' && "three"@[3] == 'e');
    assert("four"@.len() == 4 && "four"@[0] == 'f' && "four"@[1] == 'o' && "four"@[2] == 'u' && "four"@[3] == 'r');
    assert("five"@.len() == 4 && "five"@[0] == 'f' && "five"@[1] == 'i' && "five"@[2] == 'v' && "five"@[3] == 'e');
    assert("six"@.len() == 3 && "six"@[0] == 's' && "six"@[1] == 'i' && "six"@[2] == 'x');
    assert("seven"@.len() == 5 && "seven"@[0] == 's' && "seven"@[1] == 'e' && "seven"@[2] == 'v' && "seven"@[3] == 'e');
    assert("eight"@.len() == 5 && "eight"@[0] == 'e' && "eight"@[1] == 'i' && "eight"@[2] == 'g' && "eight"@[3] == 'h');
    assert("nine"@.len() == 4 && "nine"@[0] == 'n' && "nine"@[1] == 'i' && "nine"@[2] == 'n' && "nine"@[3] == 'e');
    assert("oh"@.len() == 2 && "oh"@[0] == 'o' && "oh"@[1] == 'h');
    assert("ten"@.len() == 3 && "ten"@[0] == 't' && "ten"@[1] == 'e' && "ten"@[2] == 'n');
    assert("eleven"@.len() == 6 && "eleven"@[0] == 'e' && "eleven"@[1] == 'l' && "eleven"@[2] == 'e' && "eleven"@[3] == 'v');
    assert("twelve"@.len() == 6 && "twelve"@[0] == 't' && "twelve"@[1] == 'w' && "twelve"@[2] == 'e' && "twelve"@[3] == 'l');
    assert("thirteen"@.len() == 8 && "thirteen"@[0] == 't' && "thirteen"@[1] == 'h' && "thirteen"@[2] == 'i' && "thirteen"@[3] == 'r');
    assert("fourteen"@.len() == 8 && "fourteen"@[0] == 'f' && "fourteen"@[1] == 'o' && "fourteen"@[2] == 'u' && "fourteen"@[3] == 'r');
    assert("fifteen"@.len() == 7 && "fifteen"@[0] == 'f' && "fifteen"@[1] == 'i' && "fifteen"@[2] == 'f' && "fifteen"@[3] == 't');
    assert("sixteen"@.len() == 7 && "sixteen"@[0] == 's' && "sixteen"@[1] == 'i' && "sixteen"@[2] == 'x' && "sixteen"@[3] == 't');
    assert("seventeen"@.len() == 9 && "seventeen"@[0] == 's' && "seventeen"@[1] == 'e' && "seventeen"@[2] == 'v' && "seventeen"@[3] == 'e');
    assert("eighteen"@.len() == 8 && "eighteen"@[0] == 'e' && "eighteen"@[1] == 'i' && "eighteen"@[2] == 'g' && "eighteen"@[3] == 'h');
    assert("nineteen"@.len() == 8 && "nineteen"@[0] == 'n' && "nineteen"@[1] == 'i' && "nineteen"@[2] == 'n' && "nineteen"@[3] == 'e');
    assert("twenty"@.len() == 6 && "twenty"@[0] == 't' && "twenty"@[1] == 'w' && "twenty"@[2] == 'e' && "twenty"@[3] == 'n');
    assert("thirty"@.len() == 6 && "thirty"@[0] == 't' && "thirty"@[1] == 'h' && "thirty"@[2] == 'i' && "thirty"@[3] == 'r');
    assert("forty"@.len() == 5 && "forty"@[0] == 'f' && "forty"@[1] == 'o' && "forty"@[2] == 'r' && "forty"@[3] == 't');
    assert("fifty"@.len() == 5 && "fifty"@[0] == 'f' && "fifty"@[1] == 'i' && "fifty"@[2] == 'f' && "fifty"@[3] == 't');
    assert("sixty"@.len() == 5 && "sixty"@[0] == 's' && "sixty"@[1] == 'i' && "sixty"@[2] == 'x' && "sixty"@[3] == 't');
    assert("seventy"@.len() == 7 && "seventy"@[0] == 's' && "seventy"@[1] == 'e' && "seventy"@[2] == 'v' && "seventy"@[3] == 'e');
    assert("eighty"@.len() == 6 && "eighty"@[0] == 'e' && "eighty"@[1] == 'i' && "eighty"@[2] == 'g' && "eighty"@[3] == 'h');
    assert("ninety"@.len() == 6 && "ninety"@[0] == 'n' && "ninety"@[1] == 'i' && "ninety"@[2] == 'n' && "ninety"@[3] == 'e');
    assert("thousand"@.len() == 8 && "thousand"@[0] == 't' && "thousand"@[1] == 'h' && "thousand"@[2] == 'o' && "thousand"@[3] == 'u');
    assert("million"@.len() == 7 && "million"@[0] == 'm' && "million"@[1] == 'i' && "million"@[2] == 'l' && "million"@[3] == 'l');
    assert("billion"@.len() == 7 && "billion"@[0] == 'b' && "billion"@[1] == 'i' && "billion"@[2] == 'l' && "billion"@[3] == 'l');
    assert("hundred"@.len() == 7 && "hundred"@[0] == 'h' && "hundred"@[1] == 'u' && "hundred"@[2] == 'n' && "hundred"@[3] == 'd');
    assert("and"@.len() == 3 && "and"@[0] == 'a' && "and"@[1] == 'n' && "and"@[2] == 'd');
    assert("point"@.len() == 5 && "point"@[0] == 'p' && "point"@[1] == 'o' && "point"@[2] == 'i' && "point"@[3] == 'n');
    assert("minus"@.len() == 5 && "minus"@[0] == 'm' && "minus"@[1] == 'i' && "minus"@[2] == 'n' && "minus"@[3] == 'u');
    assert("negative"@.len() == 8 && "negative"@[0] == 'n' && "negative"@[1] == 'e' && "negative"@[2] == 'g' && "negative"@[3] == 'a');
}

proof fn lemma_little_words(w: Seq<char>)
    requires
        w == "point"@ || w == "minus"@ || w == "negative"@ || w == "and"@,
    ensures
        small_letters(w),
        !itn::number_word(w),
        w == "minus"@ || w == "negative"@ ==> w != "point"@ && w != "and"@,
        w == "point"@ ==> w != "and"@,
{
    reveal_strlit("zero");
    reveal_strlit("one");
    reveal_strlit("two");
    reveal_strlit("three");
    reveal_strlit("four");
    reveal_strlit("five");
    reveal_strlit("six");
    reveal_strlit("seven");
    reveal_strlit("eight");
    reveal_strlit("nine");
    reveal_strlit("oh");
    reveal_strlit("ten");
    reveal_strlit("eleven");
    reveal_strlit("twelve");
    reveal_strlit("thirteen");
    reveal_strlit("fourteen");
    reveal_strlit("fifteen");
    reveal_strlit("sixteen");
    reveal_strlit("seventeen");
    reveal_strlit("eighteen");
    reveal_strlit("nineteen");
    reveal_strlit("twenty");
    reveal_strlit("thirty");
    reveal_strlit("forty");
    reveal_strlit("fifty");
    reveal_strlit("sixty");
    reveal_strlit("seventy");
    reveal_strlit("eighty");
    reveal_strlit("ninety");
    reveal_strlit("thousand");
    reveal_strlit("million");
    reveal_strlit("billion");
    reveal_strlit("hundred");
    reveal_strlit("and");
    reveal_strlit("point");
    reveal_strlit("minus");
    reveal_strlit("negative");
    assert("zero"@.len() == 4 && "zero"@[0] == 'z' && "zero"@[1] == 'e' && "zero"@[2] == 'r' && "zero"@[3] == 'o');
    assert("one"@.len() == 3 && "one"@[0] == 'o' && "one"@[1] == 'n' && "one"@[2] == 'e');
    assert("two"@.len() == 3 && "two"@[0] == 't' && "two"@[1] == 'w' && "two"@[2] == 'o');
    assert("three"@.len() == 5 && "three"@[0] == 't' && "three"@[1] == 'h' && "three"@[2] == 'r' && "three"@[3] == 'e');
    assert("four"@.len() == 4 && "four"@[0] == 'f' && "four"@[1] == 'o' && "four"@[2] == 'u' && "four"@[3] == 'r');
    assert("five"@.len() == 4 && "five"@[0] == 'f' && "five"@[1] == 'i' && "five"@[2] == 'v' && "five"@[3] == 'e');
    assert("six"@.len() == 3 && "six"@[0] == 's' && "six"@[1] == 'i' && "six"@[2] == 'x');
    assert("seven"@.len() == 5 && "seven"@[0] == 's' && "seven"@[1] == 'e' && "seven"@[2] == 'v' && "seven"@[3] == 'e');
    assert("eight"@.len() == 5 && "eight"@[0] == 'e' && "eight"@[1] == 'i' && "eight"@[2] == 'g' && "eight"@[3] == 'h');
    assert("nine"@.len() == 4 && "nine"@[0] == 'n' && "nine"@[1] == 'i' && "nine"@[2] == 'n' && "nine"@[3] == 'e');
    assert("oh"@.len() == 2 && "oh"@[0] == 'o' && "oh"@[1] == 'h');
    assert("ten"@.len() == 3 && "ten"@[0] == 't' && "ten"@[1] == 'e' && "ten"@[2] == 'n');
    assert("eleven"@.len() == 6 && "eleven"@[0] == 'e' && "eleven"@[1] == 'l' && "eleven"@[2] == 'e' && "eleven"@[3] == 'v');
    assert("twelve"@.len() == 6 && "twelve"@[0] == 't' && "twelve"@[1] == 'w' && "twelve"@[2] == 'e' && "twelve"@[3] == 'l');
    assert("thirteen"@.len() == 8 && "thirteen"@[0] == 't' && "thirteen"@[1] == 'h' && "thirteen"@[2] == 'i' && "thirteen"@[3] == 'r');
    assert("fourteen"@.len() == 8 && "fourteen"@[0] == 'f' && "fourteen"@[1] == 'o' && "fourteen"@[2] == 'u' && "fourteen"@[3] == 'r');
    assert("fifteen"@.len() == 7 && "fifteen"@[0] == 'f' && "fifteen"@[1] == 'i' && "fifteen"@[2] == 'f' && "fifteen"@[3] == 't');
    assert("sixteen"@.len() == 7 && "sixteen"@[0] == 's' && "sixteen"@[1] == 'i' && "sixteen"@[2] == 'x' && "sixteen"@[3] == 't');
    assert("seventeen"@.len() == 9 && "seventeen"@[0] == 's' && "seventeen"@[1] == 'e' && "seventeen"@[2] == 'v' && "seventeen"@[3] == 'e');
    assert("eighteen"@.len() == 8 && "eighteen"@[0] == 'e' && "eighteen"@[1] == 'i' && "eighteen"@[2] == 'g' && "eighteen"@[3] == 'h');
    assert("nineteen"@.len() == 8 && "nineteen"@[0] == 'n' && "nineteen"@[1] == 'i' && "nineteen"@[2] == 'n' && "nineteen"@[3] == 'e');
    assert("twenty"@.len() == 6 && "twenty"@[0] == 't' && "twenty"@[1] == 'w' && "twenty"@[2] == 'e' && "twenty"@[3] == 'n');
    assert("thirty"@.len() == 6 && "thirty"@[0] == 't' && "thirty"@[1] == 'h' && "thirty"@[2] == 'i' && "thirty"@[3] == 'r');
    assert("forty"@.len() == 5 && "forty"@[0] == 'f' && "forty"@[1] == 'o' && "forty"@[2] == 'r' && "forty"@[3] == 't');
    assert("fifty"@.len() == 5 && "fifty"@[0] == 'f' && "fifty"@[1] == 'i' && "fifty"@[2] == 'f' && "fifty"@[3] == 't');
    assert("sixty"@.len() == 5 && "sixty"@[0] == 's' && "sixty"@[1] == 'i' && "sixty"@[2] == 'x' && "sixty"@[3] == 't');
    assert("seventy"@.len() == 7 && "seventy"@[0] == 's' && "seventy"@[1] == 'e' && "seventy"@[2] == 'v' && "seventy"@[3] == 'e');
    assert("eighty"@.len() == 6 && "eighty"@[0] == 'e' && "eighty"@[1] == 'i' && "eighty"@[2] == 'g' && "eighty"@[3] == 'h');
    assert("ninety"@.len() == 6 && "ninety"@[0] == 'n' && "ninety"@[1] == 'i' && "ninety"@[2] == 'n' && "ninety"@[3] == 'e');
    assert("thousand"@.len() == 8 && "thousand"@[0] == 't' && "thousand"@[1] == 'h' && "thousand"@[2] == 'o' && "thousand"@[3] == 'u');
    assert("million"@.len() == 7 && "million"@[0] == 'm' && "million"@[1] == 'i' && "million"@[2] == 'l' && "million"@[3] == 'l');
    assert("billion"@.len() == 7 && "billion"@[0] == 'b' && "billion"@[1] == 'i' && "billion"@[2] == 'l' && "billion"@[3] == 'l');
    assert("hundred"@.len() == 7 && "hundred"@[0] == 'h' && "hundred"@[1] == 'u' && "hundred"@[2] == 'n' && "hundred"@[3] == 'd');
    assert("and"@.len() == 3 && "and"@[0] == 'a' && "and"@[1] == 'n' && "and"@[2] == 'd');
    assert("point"@.len() == 5 && "point"@[0] == 'p' && "point"@[1] == 'o' && "point"@[2] == 'i' && "point"@[3] == 'n');
    assert("minus"@.len() == 5 && "minus"@[0] == 'm' && "minus"@[1] == 'i' && "minus"@[2] == 'n' && "minus"@[3] == 'u');
    assert("negative"@.len() == 8 && "negative"@[0] == 'n' && "negative"@[1] == 'e' && "negative"@[2] == 'g' && "negative"@[3] == 'a');
}

// ---------------------------------------------------------------------------
// Reading them
// ---------------------------------------------------------------------------

/// Words are read one after the other.
proof fn lemma_read_on(t: Tally, a: Seq<Seq<char>>, b: Seq<Seq<char>>)
    requires
        itn::read_words(t, a) is Advanced,
    ensures
        itn::read_words(t, a + b) == itn::read_words(itn::read_words(t, a)->Advanced_0, b),
    decreases b.len(),
{
    if b.len() == 0 {
        assert(a + b =~= a);
    } else {
        lemma_read_on(t, a, b.drop_last());
        assert((a + b).drop_last() =~= a + b.drop_last());
    }
}

proof fn lemma_read_one(t: Tally, w: Seq<char>)
    ensures
        itn::read_words(t, seq![w]) == itn::read_word(t, w),
{
    let one = seq![w];
    assert(one.drop_last() =~= Seq::<Seq<char>>::empty());
    assert(itn::read_words(t, one.drop_last()) == Reading::Advanced(t));
}

/// Whether words can stand in the name of a number.
spec fn name_words(ws: Seq<Seq<char>>) -> bool {
    forall|i: int|
        0 <= i < ws.len() ==> small_letters(#[trigger] ws[i]) && ws[i] != "and"@ && ws[i]
            != "point"@ && ws[i] != "minus"@ && ws[i] != "negative"@
}

/// Whether reading words after some tally adds to the group.
spec fn adds(t: Tally, ws: Seq<Seq<char>>, n: nat) -> bool {
    itn::read_words(t, ws) matches Reading::Advanced(u) && u.total == t.total && u.group == t.group
        + n && u.numeric && u.count >= t.count + 1 && (t.complex ==> u.complex) && (n >= 10
        ==> u.complex)
}

proof fn lemma_below_hundred(t: Tally, n: nat)
    requires
        n < 100,
        0 <= t.group <= 900,
    ensures
        adds(t, name_below_hundred(n), n),
        name_words(name_below_hundred(n)),
        name_below_hundred(n).len() > 0,
{
    if n < 10 {
        lemma_units(n);
        lemma_read_one(t, unit_name(n));
    } else if n < 20 {
        lemma_teens(n);
        lemma_read_one(t, teen_name(n));
    } else {
        lemma_tens(n / 10);
        lemma_read_one(t, tens_name(n / 10));
        if n % 10 != 0 {
            lemma_units(n % 10);
            let first = seq![tens_name(n / 10)];
            let u = itn::read_words(t, first)->Advanced_0;
            lemma_read_one(u, unit_name(n % 10));
            lemma_read_on(t, first, seq![unit_name(n % 10)]);
            assert(first + seq![unit_name(n % 10)] =~= name_below_hundred(n));
        }
    }
}

proof fn lemma_below_thousand(t: Tally, n: nat)
    requires
        n < 1000,
        t.group == 0,
    ensures
        adds(t, name_below_thousand(n), n),
        name_words(name_below_thousand(n)),
        name_below_thousand(n).len() > 0,
{
    if n < 100 {
        lemma_below_hundred(t, n);
    } else {
        lemma_units(n / 100);
        lemma_multipliers("hundred"@);
        let unit = seq![unit_name(n / 100)];
        lemma_read_one(t, unit_name(n / 100));
        let u = itn::read_words(t, unit)->Advanced_0;
        lemma_read_one(u, "hundred"@);
        lemma_read_on(t, unit, seq!["hundred"@]);
        let hundreds = seq![unit_name(n / 100), "hundred"@];
        assert(unit + seq!["hundred"@] =~= hundreds);
        let v = itn::read_words(t, hundreds)->Advanced_0;
        assert(v.group == (n / 100) * 100);
        if n % 100 == 0 {
            assert(name_below_thousand(n) =~= hundreds);
        } else {
            lemma_below_hundred(v, n % 100);
            lemma_read_on(t, hundreds, name_below_hundred(n % 100));
        }
    }
}

proof fn lemma_group(t: Tally, n: nat, magnitude: Seq<char>, factor: nat)
    requires
        n < 1000,
        t.group == 0,
        0 <= t.total <= 999_999_999_999,
        magnitude == "thousand"@ && factor == 1000 || magnitude == "million"@ && factor
            == 1_000_000 || magnitude == "billion"@ && factor == 1_000_000_000,
    ensures
        itn::read_words(t, name_of_group(n, magnitude)) matches Reading::Advanced(u) && u.total
            == t.total + n * factor && u.group == 0 && (n > 0 || t.numeric ==> u.numeric) && (n > 0
            || t.complex ==> u.complex),
        name_words(name_of_group(n, magnitude)),
        n > 0 ==> name_of_group(n, magnitude).len() > 0,
{
    lemma_multipliers(magnitude);
    lemma_multipliers("thousand"@);
    lemma_multipliers("million"@);
    lemma_multipliers("billion"@);
    if n > 0 {
        lemma_below_thousand(t, n);
        let name = name_below_thousand(n);
        let u = itn::read_words(t, name)->Advanced_0;
        lemma_read_one(u, magnitude);
        lemma_read_on(t, name, seq![magnitude]);
        assert(name + seq![magnitude] =~= name_of_group(n, magnitude));
        assert(0 <= n * factor <= 999_999_999_999) by (nonlinear_arith)
            requires
                n <= 999,
                factor <= 1_000_000_000,
        ;
    }
}

/// The name of a number reads as the number.
proof fn lemma_name_reads(n: nat)
    requires
        n < 1_000_000_000_000,
    ensures
        itn::read_words(itn::nothing_read(), name_of(n)) matches Reading::Advanced(u) && u.total
            + u.group == n && u.total >= 0 && u.group >= 0 && u.numeric && (n >= 10 ==> u.complex),
        name_words(name_of(n)),
        name_of(n).len() > 0,
{
    let none = itn::nothing_read();
    if n < 1000 {
        lemma_below_thousand(none, n);
    } else {
        let b = n / 1_000_000_000;
        let m = n / 1_000_000 % 1000;
        let k = n / 1000 % 1000;
        let billions = name_of_group(b, "billion"@);
        let millions = name_of_group(m, "million"@);
        let thousands = name_of_group(k, "thousand"@);
        assert(b < 1000);
        assert(n == b * 1_000_000_000 + m * 1_000_000 + k * 1000 + n % 1000);
        lemma_group(none, b, "billion"@, 1_000_000_000);
        let t1 = itn::read_words(none, billions)->Advanced_0;
        lemma_group(t1, m, "million"@, 1_000_000);
        lemma_read_on(none, billions, millions);
        let t2 = itn::read_words(t1, millions)->Advanced_0;
        lemma_group(t2, k, "thousand"@, 1000);
        lemma_read_on(none, billions + millions, thousands);
        let t3 = itn::read_words(t2, thousands)->Advanced_0;
        let front = billions + millions + thousands;
        assert(t3.complex && t3.numeric);
        assert(name_words(front));
        assert(front.len() > 0);
        if n % 1000 == 0 {
            assert(name_of(n) =~= front);
        } else {
            lemma_below_thousand(t3, n % 1000);
            lemma_read_on(none, front, name_below_thousand(n % 1000));
            assert(name_of(n) =~= front + name_below_thousand(n % 1000));
            assert(name_words(name_of(n)));
        }
    }
}

/// A word of small letters is a token with one word.
proof fn lemma_plain_token(w: Seq<char>)
    requires
        small_letters(w),
    ensures
        itn::token_of(w).leading == Seq::<char>::empty(),
        itn::token_of(w).core == w,
        itn::token_of(w).trailing == Seq::<char>::empty(),
        itn::token_words(itn::token_of(w)) == seq![w],
        itn::sole_word(itn::token_of(w)) == Some(w),
        itn::separable(w),
        text::solid(w),
{
    let n = w.len() as int;
    assert('a' <= w[0] <= 'z');
    assert('a' <= w[n - 1] <= 'z');
    assert(text::alphanumeric(w[0]) && text::alphanumeric(w[n - 1]));
    assert(itn::lead_len(w) == 0);
    assert(itn::core_end(w) == w.len());
    let t = itn::token_of(w);
    assert(t.leading =~= Seq::<char>::empty());
    assert(t.core =~= w);
    assert(t.trailing =~= Seq::<char>::empty());
    assert forall|i: int| 0 <= i < w.len() implies #[trigger] w[i] != '-' && !text::white_space(
        w[i],
    ) by {
        assert('a' <= w[i] <= 'z');
    }
    text::lemma_split_none(w, '-');
    text::lemma_trimmed_fixed(w);
    assert(text::ascii_lower(w) =~= w) by {
        assert forall|i: int| 0 <= i < w.len() implies text::ascii_lower(w)[i] == w[i] by {
            assert('a' <= w[i] <= 'z');
        }
    }
    let one = seq![w];
    assert(one.drop_last() =~= Seq::<Seq<char>>::empty());
    assert(itn::lowered_pieces(one.drop_last()) == Seq::<Seq<char>>::empty());
    assert(itn::token_words(t) =~= seq![w]);
}

proof fn lemma_phrase_reads(
    ws: Seq<Seq<char>>,
    name: Seq<Seq<char>>,
    idx: int,
    k: int,
    t: Tally,
    negative: bool,
)
    requires
        0 <= idx,
        0 <= k <= name.len(),
        idx + name.len() <= ws.len(),
        ws.subrange(idx, idx + name.len()) == name,
        name_words(name),
        itn::read_words(t, name) is Advanced,
    ensures
        itn::phrase_from(itn::tokens_of(ws), idx as nat, idx as nat, t, negative)
            == itn::phrase_from(
            itn::tokens_of(ws),
            (idx + k) as nat,
            (idx + k) as nat,
            itn::read_words(t, name.take(k))->Advanced_0,
            negative,
        ),
        itn::read_words(t, name.take(k)) is Advanced,
    decreases k,
{
    if k == 0 {
        assert(name.take(0) =~= Seq::<Seq<char>>::empty());
    } else {
        lemma_phrase_reads(ws, name, idx, k - 1, t, negative);
        let at = idx + k - 1;
        let w = name[k - 1];
        assert(ws[at] == ws.subrange(idx, idx + name.len())[k - 1]);
        assert(small_letters(w));
        lemma_plain_token(w);
        assert(itn::tokens_of(ws)[at] == itn::token_of(w));
        let u = itn::read_words(t, name.take(k - 1))->Advanced_0;
        lemma_read_one(u, w);
        assert(name.take(k).drop_last() =~= name.take(k - 1));
        assert(name.take(k).last() == w);
        lemma_prefix_advances(t, name, k);
        assert(seq![w][0] == w);
    }
}

proof fn lemma_prefix_advances(t: Tally, ws: Seq<Seq<char>>, k: int)
    requires
        0 <= k <= ws.len(),
        itn::read_words(t, ws) is Advanced,
    ensures
        itn::read_words(t, ws.take(k)) is Advanced,
    decreases ws.len() - k,
{
    if k == ws.len() {
        assert(ws.take(k) =~= ws);
    } else {
        lemma_prefix_advances(t, ws, k + 1);
        assert(ws.take(k + 1).drop_last() =~= ws.take(k));
    }
}

proof fn lemma_decimals_read(ws: Seq<Seq<char>>, digits: Seq<nat>)
    requires
        ws == names_of_digits(digits),
        forall|i: int| 0 <= i < digits.len() ==> #[trigger] digits[i] < 10,
    ensures
        itn::decimal_run(itn::tokens_of(ws)) == written_digits(digits),
    decreases digits.len(),
{
    if digits.len() == 0 {
        assert(itn::decimal_run(itn::tokens_of(ws)) =~= written_digits(digits));
    } else {
        let rest = digits.drop_first();
        assert forall|i: int| 0 <= i < rest.len() implies #[trigger] rest[i] < 10 by {
            assert(rest[i] == digits[i + 1]);
        }
        assert(ws.drop_first() =~= names_of_digits(rest));
        lemma_decimals_read(ws.drop_first(), rest);
        lemma_units(digits[0]);
        lemma_plain_token(unit_name(digits[0]));
        assert(itn::tokens_of(ws)[0] == itn::token_of(unit_name(digits[0])));
        assert(itn::tokens_of(ws).drop_first() =~= itn::tokens_of(ws.drop_first()));
        assert(itn::decimal_run(itn::tokens_of(ws)) =~= written_digits(digits));
    }
}

/// The words that a number is said with.
pub open spec fn said(sign: Option<Seq<char>>, n: nat, digits: Seq<nat>) -> Seq<Seq<char>> {
    (match sign {
        Some(word) => seq![word],
        None => seq![],
    }) + name_of(n) + (if digits.len() > 0 {
        seq!["point"@] + names_of_digits(digits)
    } else {
        seq![]
    })
}

proof fn lemma_said_words(sign: Option<Seq<char>>, n: nat, digits: Seq<nat>)
    requires
        n < 1_000_000_000_000,
        forall|i: int| 0 <= i < digits.len() ==> #[trigger] digits[i] < 10,
        sign is Some ==> sign->0 == "minus"@ || sign->0 == "negative"@,
    ensures
        forall|i: int|
            0 <= i < said(sign, n, digits).len() ==> small_letters(
                #[trigger] said(sign, n, digits)[i],
            ),
{
    let ws = said(sign, n, digits);
    let idx: int = if sign is Some {
        1
    } else {
        0
    };
    let name = name_of(n);
    lemma_name_reads(n);
    lemma_little_words("point"@);
    assert forall|i: int| 0 <= i < ws.len() implies small_letters(#[trigger] ws[i]) by {
        if i < idx {
            lemma_little_words(ws[i]);
        } else if i < idx + name.len() {
            assert(ws[i] == name[i - idx]);
        } else if i == idx + name.len() {
            assert(ws[i] == "point"@);
        } else {
            let d = digits[i - idx - name.len() - 1];
            assert(ws[i] == unit_name(d));
            lemma_units(d);
        }
    }
}

/// How a number is written.
spec fn written(negative: bool, n: nat, digits: Seq<nat>) -> Seq<char> {
    (if negative {
        seq!['-']
    } else {
        seq![]
    }) + text::decimal(n) + (if digits.len() > 0 {
        seq!['.'] + written_digits(digits)
    } else {
        seq![]
    })
}

/// What a name reads as, after a sign or not, up to what follows it.
proof fn lemma_name_in_phrase(
    ws: Seq<Seq<char>>,
    name: Seq<Seq<char>>,
    sign: Option<Seq<char>>,
    tail: Seq<Seq<char>>,
)
    requires
        name.len() > 0,
        name_words(name),
        itn::read_words(itn::nothing_read(), name) is Advanced,
        sign is Some ==> sign->0 == "minus"@ || sign->0 == "negative"@,
        ws == (match sign {
            Some(word) => seq![word],
            None => seq![],
        }) + name + tail,
    ensures
        itn::phrase(itn::tokens_of(ws)) == itn::phrase_from(
            itn::tokens_of(ws),
            (ws.len() - tail.len()) as nat,
            (ws.len() - tail.len()) as nat,
            itn::read_words(itn::nothing_read(), name)->Advanced_0,
            sign is Some,
        ),
{
    let tokens = itn::tokens_of(ws);
    let none = itn::nothing_read();
    let negative = sign is Some;
    let idx: int = if negative {
        1
    } else {
        0
    };
    assert(ws.subrange(idx, idx + name.len()) =~= name);
    lemma_phrase_reads(ws, name, idx, name.len() as int, none, negative);
    assert(name.take(name.len() as int) =~= name);
    if negative {
        assert(ws[0] == sign->0);
        lemma_little_words(ws[0]);
        lemma_plain_token(ws[0]);
    } else {
        assert(ws[0] == name[0]);
        assert(small_letters(name[0]) && name[0] != "minus"@ && name[0] != "negative"@);
        lemma_plain_token(ws[0]);
    }
    assert(tokens[0] == itn::token_of(ws[0]));
}

/// What a phrase comes to at its end, or at its decimals.
proof fn lemma_phrase_end(
    ws: Seq<Seq<char>>,
    at: nat,
    u: Tally,
    negative: bool,
    n: nat,
    digits: Seq<nat>,
)
    requires
        u.total + u.group == n,
        n < 1_000_000_000_000,
        u.numeric,
        n >= 10 ==> u.complex,
        n >= 10 || negative || digits.len() > 0,
        forall|i: int| 0 <= i < digits.len() ==> #[trigger] digits[i] < 10,
        at <= ws.len(),
        ws.skip(at as int) == (if digits.len() > 0 {
            seq!["point"@] + names_of_digits(digits)
        } else {
            seq![]
        }),
    ensures
        itn::phrase_from(itn::tokens_of(ws), at, at, u, negative) == PhraseText::Number(
            ws.len(),
            written(negative, n, digits),
        ),
{
    let tokens = itn::tokens_of(ws);
    let number = written(negative, n, digits);
    if digits.len() > 0 {
        lemma_little_words("point"@);
        lemma_plain_token("point"@);
        assert(ws.skip(at as int)[0] == "point"@);
        assert(ws[at as int] == "point"@);
        assert(tokens[at as int] == itn::token_of("point"@));
        let rest = ws.skip(at as int + 1);
        assert(rest =~= ws.skip(at as int).skip(1));
        assert(rest =~= names_of_digits(digits));
        lemma_decimals_read(rest, digits);
        assert(tokens.skip(at as int + 1) =~= itn::tokens_of(rest));
        assert(seq!["point"@][0] == "point"@);
        assert(itn::sign(negative) + text::signed_decimal(n as int) + seq!['.'] + written_digits(
            digits,
        ) =~= number);
        assert(at + 1 + digits.len() == ws.len()) by {
            assert(ws.skip(at as int).len() == 1 + digits.len());
        }
    } else {
        assert(ws.skip(at as int).len() == 0);
        assert(at == ws.len());
        assert(itn::sign(negative) + text::signed_decimal(n as int) =~= number);
    }
}

proof fn lemma_said_phrase(sign: Option<Seq<char>>, n: nat, digits: Seq<nat>)
    requires
        n < 1_000_000_000_000,
        forall|i: int| 0 <= i < digits.len() ==> #[trigger] digits[i] < 10,
        sign is Some ==> sign->0 == "minus"@ || sign->0 == "negative"@,
        n >= 10 || sign is Some || digits.len() > 0,
    ensures
        itn::phrase(itn::tokens_of(said(sign, n, digits))) == PhraseText::Number(
            said(sign, n, digits).len(),
            written(sign is Some, n, digits),
        ),
{
    let ws = said(sign, n, digits);
    let name = name_of(n);
    let tail = if digits.len() > 0 {
        seq!["point"@] + names_of_digits(digits)
    } else {
        seq![]
    };
    lemma_name_reads(n);
    lemma_name_in_phrase(ws, name, sign, tail);
    let at = (ws.len() - tail.len()) as nat;
    assert(ws.skip(at as int) =~= tail);
    let u = itn::read_words(itn::nothing_read(), name)->Advanced_0;
    lemma_phrase_end(ws, at, u, sign is Some, n, digits);
}

proof fn lemma_whole_text(ws: Seq<Seq<char>>, number: Seq<char>)
    requires
        ws.len() > 0,
        forall|i: int| 0 <= i < ws.len() ==> small_letters(#[trigger] ws[i]),
        itn::phrase(itn::tokens_of(ws)) == PhraseText::Number(ws.len(), number),
    ensures
        itn::convertible(text::joined(ws, seq![' '])),
        itn::normalised(text::joined(ws, seq![' '])) == number,
{
    let tokens = itn::tokens_of(ws);
    assert forall|i: int| 0 <= i < ws.len() implies text::solid(#[trigger] ws[i])
        && itn::separable(ws[i]) by {
        lemma_plain_token(ws[i]);
    }
    text::lemma_words_of_joined(ws);
    assert(small_letters(ws[0]) && small_letters(ws[ws.len() - 1]));
    lemma_plain_token(ws[0]);
    lemma_plain_token(ws[ws.len() - 1]);
    let rest = tokens.skip(ws.len() as int);
    assert(rest =~= Seq::<TokenText>::empty());
    assert(itn::rewritten(rest) == Some(Seq::<Seq<char>>::empty()));
    assert(tokens[0].leading + number + tokens[ws.len() - 1].trailing =~= number);
    assert(itn::rewritten(tokens)->0 =~= seq![number]);
    assert(text::joined(seq![number], seq![' ']) =~= number);
}

/// A number that is said by its English name is written as it is in digits:
/// with a minus sign where it begins with `minus` or `negative` and without one
/// where it does not, and with the digits after `point` as its decimals. A
/// single digit word on its own is no such number: it stays a word.
pub proof fn law_said_numbers_are_written(sign: Option<Seq<char>>, n: nat, digits: Seq<nat>)
    requires
        n < 1_000_000_000_000,
        forall|i: int| 0 <= i < digits.len() ==> #[trigger] digits[i] < 10,
        sign is Some ==> sign->0 == "minus"@ || sign->0 == "negative"@,
        n >= 10 || sign is Some || digits.len() > 0,
    ensures
        itn::convertible(text::joined(said(sign, n, digits), seq![' '])),
        itn::normalised(text::joined(said(sign, n, digits), seq![' '])) == (if sign is Some {
            seq!['-']
        } else {
            seq![]
        }) + text::decimal(n) + (if digits.len() > 0 {
            seq!['.'] + written_digits(digits)
        } else {
            seq![]
        }),
{
    lemma_name_reads(n);
    lemma_said_words(sign, n, digits);
    lemma_said_phrase(sign, n, digits);
    lemma_whole_text(said(sign, n, digits), written(sign is Some, n, digits));
}

// ---------------------------------------------------------------------------
// Signs, and words around numbers
// ---------------------------------------------------------------------------

proof fn lemma_signed(tokens: Seq<TokenText>, rest: Seq<TokenText>, idx: nat, consumed: nat, t: Tally)
    requires
        tokens.len() > 0,
        rest == tokens.drop_first(),
        idx <= rest.len(),
    ensures
        match (
            itn::phrase_from(rest, idx, consumed, t, false),
            itn::phrase_from(tokens, idx + 1, consumed + 1, t, true),
        ) {
            (PhraseText::Number(c, n), r) => r == PhraseText::Number(c + 1, seq!['-'] + n),
            (PhraseText::OutOfRange, r) => r == PhraseText::OutOfRange,
            (PhraseText::Plain, PhraseText::Number(c, n)) => n.len() > 0 && n[0] == '-',
            (PhraseText::Plain, _) => true,
        },
    decreases rest.len() - idx,
{
    if idx < rest.len() {
        assert(rest[idx as int] == tokens[idx as int + 1]);
        let ws = itn::token_words(rest[idx as int]);
        if ws.len() == 0 {
            lemma_concluded_signed(t, consumed);
        } else if ws.len() == 1 && ws[0] == "and"@ && t.numeric {
            lemma_signed(tokens, rest, idx + 1, idx + 1, t);
        } else if ws.len() == 1 && ws[0] == "point"@ && t.numeric {
            assert(rest.skip((idx + 1) as int) =~= tokens.skip((idx + 2) as int));
            let decimals = itn::decimal_run(rest.skip((idx + 1) as int));
            if decimals.len() == 0 {
                lemma_concluded_signed(t, consumed);
            } else {
                assert(itn::sign(true) + text::signed_decimal(t.total + t.group) + seq!['.']
                    + decimals =~= seq!['-'] + (itn::sign(false) + text::signed_decimal(
                    t.total + t.group,
                ) + seq!['.'] + decimals));
            }
        } else {
            match itn::read_words(t, ws) {
                Reading::OutOfRange => {},
                Reading::Stopped(u) => {
                    lemma_concluded_signed(u, consumed);
                },
                Reading::Advanced(u) => {
                    lemma_signed(tokens, rest, idx + 1, idx + 1, u);
                },
            }
        }
    } else {
        lemma_concluded_signed(t, consumed);
    }
}

proof fn lemma_concluded_signed(t: Tally, consumed: nat)
    ensures
        match (itn::concluded(t, consumed, false), itn::concluded(t, consumed + 1, true)) {
            (PhraseText::Number(c, n), r) => r == PhraseText::Number(c + 1, seq!['-'] + n),
            (PhraseText::OutOfRange, r) => r == PhraseText::OutOfRange,
            (PhraseText::Plain, PhraseText::Number(c, n)) => n.len() > 0 && n[0] == '-',
            (PhraseText::Plain, _) => true,
        },
{
    assert(itn::sign(true) + text::signed_decimal(t.total + t.group) =~= seq!['-'] + (itn::sign(
        false,
    ) + text::signed_decimal(t.total + t.group)));
}

/// Whether a token is the word `minus` or the word `negative`.
pub open spec fn is_minus(token: TokenText) -> bool {
    itn::sole_word(token) == Some("minus"@) || itn::sole_word(token) == Some("negative"@)
}

/// A phrase after `minus` or `negative` is written with a minus sign in front
/// of what it reads as without that word, decimals or not, and takes up one
/// token more. Whatever such a phrase is written as begins with a minus sign.
pub proof fn law_negative_phrases(tokens: Seq<TokenText>)
    requires
        tokens.len() > 1,
        is_minus(tokens[0]),
    ensures
        !is_minus(tokens[1]) ==> match itn::phrase(tokens.drop_first()) {
            PhraseText::Number(c, n) => itn::phrase(tokens) == PhraseText::Number(
                c + 1,
                seq!['-'] + n,
            ),
            PhraseText::OutOfRange => itn::phrase(tokens) == PhraseText::OutOfRange,
            PhraseText::Plain => true,
        },
        itn::phrase(tokens) matches PhraseText::Number(c, n) ==> n.len() > 0 && n[0] == '-',
{
    let rest = tokens.drop_first();
    assert(rest[0] == tokens[1]);
    lemma_signed(tokens, rest, 0, 0, itn::nothing_read());
}

/// A phrase that does not begin with `minus` or `negative` is written without a
/// minus sign.
pub proof fn law_other_phrases_are_not_negative(tokens: Seq<TokenText>)
    requires
        tokens.len() > 0,
        !is_minus(tokens[0]),
    ensures
        itn::phrase(tokens) matches PhraseText::Number(c, n) ==> n.len() > 0 && '0' <= n[0] <= '9',
{
    lemma_unsigned(tokens, 0, 0, itn::nothing_read());
}

proof fn lemma_unsigned(tokens: Seq<TokenText>, idx: nat, consumed: nat, t: Tally)
    requires
        t.total >= 0,
        t.group >= 0,
    ensures
        itn::phrase_from(tokens, idx, consumed, t, false) matches PhraseText::Number(c, n)
            ==> n.len() > 0 && '0' <= n[0] <= '9',
    decreases tokens.len() - idx,
{
    let d = text::signed_decimal(t.total + t.group);
    text::laws::law_decimal_notation((t.total + t.group) as nat);
    assert('0' <= text::decimal((t.total + t.group) as nat)[0] <= '9');
    if idx < tokens.len() {
        let ws = itn::token_words(tokens[idx as int]);
        if ws.len() == 0 {
        } else if ws.len() == 1 && ws[0] == "and"@ && t.numeric {
            lemma_unsigned(tokens, idx + 1, idx + 1, t);
        } else if ws.len() == 1 && ws[0] == "point"@ && t.numeric {
        } else {
            lemma_read_keeps_sums(t, ws);
            match itn::read_words(t, ws) {
                Reading::OutOfRange => {},
                Reading::Stopped(u) => {
                    text::laws::law_decimal_notation((u.total + u.group) as nat);
                    assert('0' <= text::decimal((u.total + u.group) as nat)[0] <= '9');
                },
                Reading::Advanced(u) => {
                    lemma_unsigned(tokens, idx + 1, idx + 1, u);
                },
            }
        }
    }
}

proof fn lemma_read_keeps_sums(t: Tally, ws: Seq<Seq<char>>)
    requires
        t.total >= 0,
        t.group >= 0,
    ensures
        match itn::read_words(t, ws) {
            Reading::OutOfRange => true,
            Reading::Stopped(u) => u.total >= 0 && u.group >= 0,
            Reading::Advanced(u) => u.total >= 0 && u.group >= 0,
        },
    decreases ws.len(),
{
    if ws.len() > 0 {
        lemma_read_keeps_sums(t, ws.drop_last());
        if itn::read_words(t, ws.drop_last()) is Advanced {
            let u = itn::read_words(t, ws.drop_last())->Advanced_0;
            let g = itn::multiplied_group(u.group);
            if itn::magnitude_word(ws.last()) is Some {
                let m = itn::magnitude_word(ws.last())->0 as int;
                assert(g * m >= 0) by (nonlinear_arith)
                    requires
                        g >= 0,
                        m >= 0,
                ;
            }
        }
    }
}

proof fn lemma_shifted(
    x: Seq<TokenText>,
    y: Seq<TokenText>,
    idx: nat,
    consumed: nat,
    more: nat,
    t: Tally,
    negative: bool,
)
    requires
        idx <= x.len(),
        idx + more <= y.len(),
        x.skip(idx as int) == y.skip((idx + more) as int),
    ensures
        itn::phrase_from(y, idx + more, consumed + more, t, negative) == (match itn::phrase_from(
            x,
            idx,
            consumed,
            t,
            negative,
        ) {
            PhraseText::Number(c, n) => PhraseText::Number(c + more, n),
            other => other,
        }),
    decreases x.len() - idx,
{
    assert(x.skip(idx as int).len() == x.len() - idx);
    assert(y.skip((idx + more) as int).len() == y.len() - (idx + more));
    if idx < x.len() {
        assert(idx + more < y.len());
        assert(x.skip(idx as int)[0] == x[idx as int]);
        assert(y.skip((idx + more) as int)[0] == y[(idx + more) as int]);
        assert(x.skip(idx as int).skip(1) =~= x.skip((idx + 1) as int));
        assert(y.skip((idx + more) as int).skip(1) =~= y.skip((idx + more + 1) as int));
        let ws = itn::token_words(x[idx as int]);
        if ws.len() == 0 {
        } else if ws.len() == 1 && ws[0] == "and"@ && t.numeric {
            lemma_shifted(x, y, idx + 1, idx + 1, more, t, negative);
        } else if ws.len() == 1 && ws[0] == "point"@ && t.numeric {
        } else {
            match itn::read_words(t, ws) {
                Reading::Advanced(u) => {
                    lemma_shifted(x, y, idx + 1, idx + 1, more, u, negative);
                },
                _ => {},
            }
        }
    }
}

/// An `and` within a number changes nothing: the phrase is written as it is
/// without it, and takes up one token more.
pub proof fn law_and_changes_nothing(n: nat, tail: Seq<Seq<char>>)
    requires
        n < 1_000_000_000_000,
    ensures
        itn::phrase(itn::tokens_of(name_of(n) + seq!["and"@] + tail)) == (match itn::phrase(
            itn::tokens_of(name_of(n) + tail),
        ) {
            PhraseText::Number(c, m) => PhraseText::Number(c + 1, m),
            other => other,
        }),
{
    let name = name_of(n);
    let k = name.len();
    let none = itn::nothing_read();
    let x = name + tail;
    let y = name + seq!["and"@] + tail;
    lemma_name_reads(n);
    assert(x.subrange(0, k as int) =~= name);
    assert(y.subrange(0, k as int) =~= name);
    lemma_phrase_reads(x, name, 0, k as int, none, false);
    lemma_phrase_reads(y, name, 0, k as int, none, false);
    assert(name.take(k as int) =~= name);
    let u = itn::read_words(none, name)->Advanced_0;
    assert(small_letters(name[0]) && name[0] != "minus"@ && name[0] != "negative"@);
    lemma_plain_token(name[0]);
    assert(x[0] == name[0] && y[0] == name[0]);
    lemma_little_words("and"@);
    lemma_plain_token("and"@);
    assert(y[k as int] == "and"@);
    assert(itn::token_words(itn::tokens_of(y)[k as int]) == seq!["and"@]);
    assert(seq!["and"@][0] == "and"@);
    assert(itn::tokens_of(x).skip(k as int) =~= itn::tokens_of(y).skip(k as int + 1));
    lemma_shifted(itn::tokens_of(x), itn::tokens_of(y), k, k, 1, u, false);
}

/// The words around a number stay: a text is rewritten word by word, a word
/// that begins no number as it is, and a number as its digits between what
/// stands before its first word and after its last.
pub proof fn law_rewriting_goes_on(ws: Seq<Seq<char>>)
    requires
        ws.len() > 0,
        itn::rewritten(itn::tokens_of(ws)) is Some,
    ensures
        ({
            let all = itn::rewritten(itn::tokens_of(ws))->0;
            match itn::phrase(itn::tokens_of(ws)) {
                PhraseText::Number(c, n) if 0 < c <= ws.len() => {
                    &&& itn::rewritten(itn::tokens_of(ws.skip(c as int))) is Some
                    &&& all == seq![
                        itn::token_of(ws[0]).leading + n + itn::token_of(ws[c - 1]).trailing,
                    ] + itn::rewritten(itn::tokens_of(ws.skip(c as int)))->0
                },
                _ => {
                    &&& itn::rewritten(itn::tokens_of(ws.skip(1))) is Some
                    &&& all == seq![ws[0]] + itn::rewritten(itn::tokens_of(ws.skip(1)))->0
                },
            }
        }),
{
    let tokens = itn::tokens_of(ws);
    itn::law_token_recomposes(ws[0]);
    assert(tokens.drop_first() =~= itn::tokens_of(ws.skip(1)));
    match itn::phrase(tokens) {
        PhraseText::Number(c, n) if 0 < c <= ws.len() => {
            assert(tokens.skip(c as int) =~= itn::tokens_of(ws.skip(c as int)));
        },
        _ => {},
    }
}

/// A word is cut at its first and after its last letter or digit: what stands
/// before and after holds none, and the core begins and ends with one.
pub proof fn law_cores_are_cut_at_letters(raw: Seq<char>)
    ensures
        ({
            let t = itn::token_of(raw);
            &&& t.leading + t.core + t.trailing == raw
            &&& forall|i: int|
                0 <= i < t.leading.len() ==> !text::alphanumeric(#[trigger] t.leading[i])
            &&& forall|i: int|
                0 <= i < t.trailing.len() ==> !text::alphanumeric(#[trigger] t.trailing[i])
            &&& t.core.len() > 0 ==> text::alphanumeric(t.core[0]) && text::alphanumeric(
                t.core.last(),
            )
        }),
{
    itn::law_token_recomposes(raw);
    lemma_cut(raw);
    let t = itn::token_of(raw);
    if itn::core_end(raw) == 0 {
        assert forall|i: int| 0 <= i < t.leading.len() implies !text::alphanumeric(
            #[trigger] t.leading[i],
        ) by {
            assert(raw[i] == t.leading[i]);
        }
    } else {
        itn::lemma_lead_before_end(raw);
        itn::lemma_core_end_bound(raw);
        assert forall|i: int| 0 <= i < t.leading.len() implies !text::alphanumeric(
            #[trigger] t.leading[i],
        ) by {
            assert(raw[i] == t.leading[i]);
        }
        assert forall|i: int| 0 <= i < t.trailing.len() implies !text::alphanumeric(
            #[trigger] t.trailing[i],
        ) by {
            assert(raw[itn::core_end(raw) + i] == t.trailing[i]);
        }
        assert(t.core[0] == raw[itn::lead_len(raw) as int]);
        assert(t.core.last() == raw[itn::core_end(raw) - 1]);
    }
}

proof fn lemma_cut(s: Seq<char>)
    ensures
        itn::lead_len(s) <= s.len(),
        forall|i: int| 0 <= i < itn::lead_len(s) ==> !text::alphanumeric(#[trigger] s[i]),
        itn::lead_len(s) < s.len() ==> text::alphanumeric(s[itn::lead_len(s) as int]),
        forall|i: int| itn::core_end(s) <= i < s.len() ==> !text::alphanumeric(#[trigger] s[i]),
{
    lemma_lead(s);
    lemma_end(s);
}

proof fn lemma_lead(s: Seq<char>)
    ensures
        itn::lead_len(s) <= s.len(),
        forall|i: int| 0 <= i < itn::lead_len(s) ==> !text::alphanumeric(#[trigger] s[i]),
        itn::lead_len(s) < s.len() ==> text::alphanumeric(s[itn::lead_len(s) as int]),
    decreases s.len(),
{
    if s.len() > 0 && !text::alphanumeric(s[0]) {
        let tail = s.drop_first();
        lemma_lead(tail);
        assert forall|i: int| 0 <= i < itn::lead_len(s) implies !text::alphanumeric(
            #[trigger] s[i],
        ) by {
            if i > 0 {
                assert(tail[i - 1] == s[i]);
            }
        }
    }
}

proof fn lemma_end(s: Seq<char>)
    ensures
        forall|i: int| itn::core_end(s) <= i < s.len() ==> !text::alphanumeric(#[trigger] s[i]),
    decreases s.len(),
{
    if s.len() > 0 && !text::alphanumeric(s.last()) {
        lemma_end(s.drop_last());
        assert forall|i: int| itn::core_end(s) <= i < s.len() implies !text::alphanumeric(
            #[trigger] s[i],
        ) by {
            if i < s.len() - 1 {
                assert(s.drop_last()[i] == s[i]);
            }
        }
    }
}

/// Hyphens separate the words of a core: what stands before one and what stands
/// after it give their words, in order. A core without a hyphen is one word, in
/// ASCII lower case, unless it is blank.
pub proof fn law_hyphens_separate_words(a: TokenText, b: TokenText, both: TokenText)
    requires
        both.core == a.core.push('-') + b.core,
    ensures
        itn::token_words(both) == itn::token_words(a) + itn::token_words(b),
        !a.core.contains('-') && text::trimmed(a.core).len() > 0 ==> itn::token_words(a) == seq![
            text::ascii_lower(text::trimmed(a.core)),
        ],
{
    text::lemma_split_concat(a.core, b.core, '-');
    lemma_lowered_concat(text::split_on(a.core, '-'), text::split_on(b.core, '-'));
    if !a.core.contains('-') && text::trimmed(a.core).len() > 0 {
        assert forall|i: int| 0 <= i < a.core.len() implies #[trigger] a.core[i] != '-' by {
            assert(a.core.contains(a.core[i]));
        }
        text::lemma_split_none(a.core, '-');
        let one = seq![a.core];
        assert(one.drop_last() =~= Seq::<Seq<char>>::empty());
        assert(itn::lowered_pieces(one.drop_last()) == Seq::<Seq<char>>::empty());
        assert(itn::token_words(a) =~= seq![text::ascii_lower(text::trimmed(a.core))]);
    }
}

proof fn lemma_lowered_concat(a: Seq<Seq<char>>, b: Seq<Seq<char>>)
    ensures
        itn::lowered_pieces(a + b) == itn::lowered_pieces(a) + itn::lowered_pieces(b),
    decreases b.len(),
{
    if b.len() == 0 {
        assert(a + b =~= a);
        assert(itn::lowered_pieces(a) + itn::lowered_pieces(b) =~= itn::lowered_pieces(a));
    } else {
        assert((a + b).drop_last() =~= a + b.drop_last());
        lemma_lowered_concat(a, b.drop_last());
        assert(itn::lowered_pieces(a + b) =~= itn::lowered_pieces(a) + itn::lowered_pieces(b));
    }
}

/// The number words are the English names of digits, of the numbers from ten to
/// nineteen, of tens, and `hundred`, `thousand`, `million` and `billion`; `oh` is
/// zero too. No other word is one.
pub proof fn law_number_words(w: Seq<char>)
    ensures
        itn::digit_word(w) matches Some(d) ==> d < 10 && (w == unit_name(d as nat) || (d == 0 && w
            == "oh"@)),
        itn::teen_or_tens_word(w) matches Some(v) ==> (10 <= v < 20 && w == teen_name(v as nat)) || (
        v % 10 == 0 && 20 <= v < 100 && w == tens_name(v as nat / 10)),
        itn::magnitude_word(w) matches Some(m) ==> (m == 1_000 && w == "thousand"@) || (m
            == 1_000_000 && w == "million"@) || (m == 1_000_000_000 && w == "billion"@),
        itn::number_word(w) <==> itn::digit_word(w) is Some || itn::teen_or_tens_word(w) is Some
            || w == "hundred"@ || itn::magnitude_word(w) is Some,
        itn::digit_word("oh"@) == Some(0u32),
{
}

/// A number ends before a word that is no number word: what stands before it is
/// written, and that word begins what is read next.
pub proof fn law_numbers_end_at_other_words(n: nat, w: Seq<char>, tail: Seq<Seq<char>>)
    requires
        10 <= n < 1_000_000_000_000,
        itn::sole_word(itn::token_of(w)) is Some,
        !itn::number_word(itn::sole_word(itn::token_of(w))->0),
        itn::sole_word(itn::token_of(w)) != Some("and"@),
        itn::sole_word(itn::token_of(w)) != Some("point"@),
    ensures
        itn::phrase(itn::tokens_of(name_of(n) + seq![w] + tail)) == PhraseText::Number(
            name_of(n).len(),
            text::decimal(n),
        ),
{
    let name = name_of(n);
    let k = name.len();
    let none = itn::nothing_read();
    let ws = name + seq![w] + tail;
    lemma_name_reads(n);
    assert(ws.subrange(0, k as int) =~= name);
    lemma_phrase_reads(ws, name, 0, k as int, none, false);
    assert(name.take(k as int) =~= name);
    let u = itn::read_words(none, name)->Advanced_0;
    assert(small_letters(name[0]) && name[0] != "minus"@ && name[0] != "negative"@);
    lemma_plain_token(name[0]);
    assert(ws[0] == name[0]);
    assert(ws[k as int] == w);
    let words = itn::token_words(itn::token_of(w));
    assert(words =~= seq![words[0]]);
    lemma_read_one(u, words[0]);
    assert(itn::sign(false) + text::signed_decimal(n as int) =~= text::decimal(n));
}

/// What tokens and phrases hold is what their fields hold.
pub proof fn law_tokens_hold_their_fields(t: itn::TokenPart, c: usize, digits: String)
    ensures
        t@.leading == t.leading@ && t@.core == t.core@ && t@.trailing == t.trailing@,
        itn::NumberPhrase::Number(c, digits)@ == PhraseText::Number(c as nat, digits@),
        itn::NumberPhrase::Plain@ == PhraseText::Plain,
        itn::NumberPhrase::OutOfRange@ == PhraseText::OutOfRange,
{
}

/// A word that multiplies, where nothing stands before it to be multiplied, counts
/// as after `one`.
pub proof fn law_bare_multipliers(t: Tally, w: Seq<char>)
    requires
        t.group == 0,
        w == "hundred"@ || w == "thousand"@ || w == "million"@ || w == "billion"@,
    ensures
        match (itn::read_words(t, seq![w]), itn::read_words(t, seq!["one"@, w])) {
            (Reading::Advanced(a), Reading::Advanced(b)) => a.total == b.total && a.group == b.group
                && a.complex && b.complex,
            (Reading::OutOfRange, Reading::OutOfRange) => true,
            _ => false,
        },
        t.total == 0 ==> (itn::read_words(t, seq![w]) matches Reading::Advanced(a) && a.total
            + a.group == (if w == "hundred"@ {
            100int
        } else if w == "thousand"@ {
            1_000
        } else if w == "million"@ {
            1_000_000
        } else {
            1_000_000_000
        })),
{
    lemma_multipliers(w);
    lemma_units(1);
    assert(unit_name(1) == "one"@);
    lemma_read_one(t, w);
    lemma_read_one(t, "one"@);
    let u = itn::read_words(t, seq!["one"@])->Advanced_0;
    lemma_read_one(u, w);
    lemma_read_on(t, seq!["one"@], seq![w]);
    assert(seq!["one"@] + seq![w] =~= seq!["one"@, w]);
}

/// Two digit words in a row are a number: their sum.
pub proof fn law_digit_words_in_a_row(a: nat, b: nat)
    requires
        a < 10,
        b < 10,
    ensures
        itn::normalised(text::joined(seq![unit_name(a), unit_name(b)], seq![' '])) == text::decimal(
            a + b,
        ),
        itn::convertible(text::joined(seq![unit_name(a), unit_name(b)], seq![' '])),
{
    let ws = seq![unit_name(a), unit_name(b)];
    let none = itn::nothing_read();
    lemma_units(a);
    lemma_units(b);
    lemma_read_one(none, unit_name(a));
    let u = itn::read_words(none, seq![unit_name(a)])->Advanced_0;
    lemma_read_one(u, unit_name(b));
    lemma_read_on(none, seq![unit_name(a)], seq![unit_name(b)]);
    assert(seq![unit_name(a)] + seq![unit_name(b)] =~= ws);
    assert(name_words(ws));
    lemma_name_in_phrase(ws, ws, None, seq![]);
    assert(ws =~= Seq::<Seq<char>>::empty() + ws + Seq::<Seq<char>>::empty());
    let number = text::decimal(a + b);
    assert(itn::sign(false) + text::signed_decimal((a + b) as int) =~= number);
    assert(itn::phrase(itn::tokens_of(ws)) == PhraseText::Number(ws.len(), number));
    lemma_whole_text(ws, number);
}

/// A `point` that no digit word follows is no part of a number.
pub proof fn law_points_need_digits(n: nat, tail: Seq<Seq<char>>)
    requires
        10 <= n < 1_000_000_000_000,
        tail.len() == 0 || itn::sole_word(itn::token_of(tail[0])) is None || itn::digit_word(
            itn::sole_word(itn::token_of(tail[0]))->0,
        ) is None,
    ensures
        itn::phrase(itn::tokens_of(name_of(n) + seq!["point"@] + tail)) == PhraseText::Number(
            name_of(n).len(),
            text::decimal(n),
        ),
{
    let name = name_of(n);
    let k = name.len();
    let rest = seq!["point"@] + tail;
    let ws = name + seq!["point"@] + tail;
    lemma_name_reads(n);
    assert(ws =~= Seq::<Seq<char>>::empty() + name + rest);
    lemma_name_in_phrase(ws, name, None, rest);
    let tokens = itn::tokens_of(ws);
    lemma_little_words("point"@);
    lemma_plain_token("point"@);
    assert(ws[k as int] == "point"@);
    assert(tokens[k as int] == itn::token_of("point"@));
    assert(seq!["point"@][0] == "point"@);
    let after = tokens.skip(k as int + 1);
    if tail.len() > 0 {
        assert(after[0] == itn::token_of(tail[0]));
    }
    assert(itn::decimal_run(after).len() == 0);
    assert(itn::sign(false) + text::signed_decimal(n as int) =~= text::decimal(n));
}

} // verus!
