//! Amounts of money as text.
//!
//! An amount is a whole number of minor units. As text it is the decimal
//! digits of the units, and after a point the hundredths: `12.34`, `7`,
//! `0.5`. No sign, no exponent, no more than two places.

use vstd::prelude::*;

verus! {

/// One of the ten decimal digits.
pub open spec fn is_digit(c: char) -> bool {
    '0' <= c <= '9'
}

/// The number that a digit stands for.
pub open spec fn digit_value(c: char) -> int {
    c as u32 as int - 48
}

/// The digit that stands for a number below ten.
pub open spec fn digit_char(d: int) -> char {
    if d == 0 {
        '0'
    } else if d == 1 {
        '1'
    } else if d == 2 {
        '2'
    } else if d == 3 {
        '3'
    } else if d == 4 {
        '4'
    } else if d == 5 {
        '5'
    } else if d == 6 {
        '6'
    } else if d == 7 {
        '7'
    } else if d == 8 {
        '8'
    } else {
        '9'
    }
}

/// Every character is a digit.
pub open spec fn all_digits(text: Seq<char>) -> bool {
    forall|i: int| 0 <= i < text.len() ==> is_digit(#[trigger] text[i])
}

/// The number that a run of digits stands for.
pub open spec fn decimal_value(digits: Seq<char>) -> int
    decreases digits.len(),
{
    if digits.len() == 0 {
        0
    } else {
        decimal_value(digits.drop_last()) * 10 + digit_value(digits.last())
    }
}

/// The decimal digits of a number, without leading zeros.
pub open spec fn digits_of(n: int) -> Seq<char>
    decreases n,
{
    if n < 10 {
        seq![digit_char(n)]
    } else {
        digits_of(n / 10).push(digit_char(n % 10))
    }
}

/// The text is an amount whose whole part is its first `whole` characters:
/// one or more digits, and then either nothing, or a point and one or two
/// digits.
pub open spec fn reads_as(text: Seq<char>, whole: int) -> bool {
    &&& 1 <= whole <= text.len()
    &&& all_digits(text.subrange(0, whole))
    &&& whole < text.len() ==> {
        &&& text[whole] == '.'
        &&& 1 <= text.len() - whole - 1 <= 2
        &&& all_digits(text.subrange(whole + 1, text.len() as int))
    }
}

/// The minor units of an amount whose whole part is its first `whole`
/// characters. A single digit after the point counts tenths.
pub open spec fn minor_units(text: Seq<char>, whole: int) -> int {
    decimal_value(text.subrange(0, whole)) * 100 + (if whole >= text.len() {
        0
    } else if text.len() - whole - 1 == 1 {
        digit_value(text[whole + 1]) * 10
    } else {
        digit_value(text[whole + 1]) * 10 + digit_value(text[whole + 2])
    })
}

/// The amount that a text stands for, in minor units: `None` where the text
/// is no amount, or the amount is more than a `u64` holds.
pub open spec fn amount_of(text: Seq<char>) -> Option<u64> {
    if exists|whole: int| reads_as(text, whole) {
        let whole = choose|whole: int| reads_as(text, whole);
        if minor_units(text, whole) <= u64::MAX {
            Some(minor_units(text, whole) as u64)
        } else {
            None
        }
    } else {
        None
    }
}

/// The text of an amount: the units, a point, and two digits of hundredths.
pub open spec fn amount_text(amount: u64) -> Seq<char> {
    digits_of(amount as int / 100) + seq![
        '.',
        digit_char((amount as int % 100) / 10),
        digit_char((amount as int % 100) % 10),
    ]
}

/// The whole part of an amount ends at its first character that is no
/// digit.
proof fn lemma_split_point(text: Seq<char>, i: int, whole: int)
    requires
        0 <= i <= text.len(),
        all_digits(text.subrange(0, i)),
        i < text.len() ==> !is_digit(text[i]),
        reads_as(text, whole),
    ensures
        whole == i,
{
    if whole < i {
        assert(text.subrange(0, i)[whole] == text[whole]);
    } else if i < whole {
        assert(text.subrange(0, whole)[i] == text[i]);
    }
}

/// A run of digits stands for no negative number.
proof fn lemma_decimal_value_nonnegative(digits: Seq<char>)
    requires
        all_digits(digits),
    ensures
        0 <= decimal_value(digits),
    decreases digits.len(),
{
    if digits.len() > 0 {
        assert(is_digit(digits.last()));
        assert forall|i: int| 0 <= i < digits.drop_last().len() implies is_digit(
            #[trigger] digits.drop_last()[i],
        ) by {
            assert(digits.drop_last()[i] == digits[i]);
        }
        lemma_decimal_value_nonnegative(digits.drop_last());
    }
}

/// The digits of a number are digits, at least one, and stand for it.
pub proof fn lemma_digits_of(n: int)
    requires
        0 <= n,
    ensures
        digits_of(n).len() >= 1,
        all_digits(digits_of(n)),
        decimal_value(digits_of(n)) == n,
    decreases n,
{
    if n < 10 {
        assert(digits_of(n).drop_last() =~= Seq::<char>::empty());
        assert(decimal_value(digits_of(n).drop_last()) == 0);
    } else {
        lemma_digits_of(n / 10);
        let shorter = digits_of(n / 10);
        let d = digit_char(n % 10);
        assert(digits_of(n).drop_last() =~= shorter);
        assert(digits_of(n).last() == d);
        assert(is_digit(d));
        assert forall|i: int| 0 <= i < digits_of(n).len() implies is_digit(
            #[trigger] digits_of(n)[i],
        ) by {
            if i < shorter.len() {
                assert(digits_of(n)[i] == shorter[i]);
            }
        }
    }
}

/// An amount written out reads back as itself.
pub proof fn lemma_amount_round_trip(amount: u64)
    ensures
        amount_of(amount_text(amount)) == Some(amount),
{
    let units = amount as int / 100;
    let cents = amount as int % 100;
    let text = amount_text(amount);
    let whole = digits_of(units).len() as int;
    lemma_digits_of(units);
    assert(text.subrange(0, whole) =~= digits_of(units));
    assert(text[whole] == '.');
    assert(text[whole + 1] == digit_char(cents / 10));
    assert(text[whole + 2] == digit_char(cents % 10));
    assert(text.subrange(whole + 1, text.len() as int) =~= seq![
        digit_char(cents / 10),
        digit_char(cents % 10),
    ]);
    assert(reads_as(text, whole));
    let chosen = choose|w: int| reads_as(text, w);
    lemma_split_point(text, whole, chosen);
    assert(minor_units(text, whole) == units * 100 + (cents / 10) * 10 + cents % 10);
}

/// The text of one digit.
fn digit_text(d: u64) -> (text: &'static str)
    requires
        d < 10,
    ensures
        text@ == seq![digit_char(d as int)],
{
    proof {
        reveal_strlit("0");
        reveal_strlit("1");
        reveal_strlit("2");
        reveal_strlit("3");
        reveal_strlit("4");
        reveal_strlit("5");
        reveal_strlit("6");
        reveal_strlit("7");
        reveal_strlit("8");
        reveal_strlit("9");
    }
    let text = if d == 0 {
        "0"
    } else if d == 1 {
        "1"
    } else if d == 2 {
        "2"
    } else if d == 3 {
        "3"
    } else if d == 4 {
        "4"
    } else if d == 5 {
        "5"
    } else if d == 6 {
        "6"
    } else if d == 7 {
        "7"
    } else if d == 8 {
        "8"
    } else {
        "9"
    };
    assert(text@ =~= seq![digit_char(d as int)]);
    text
}

/// Writes an amount out: `1234` becomes `12.34`.
pub fn format_amount(amount: u64) -> (text: String)
    ensures
        text@ == amount_text(amount),
{
    let units = amount / 100;
    let cents = amount % 100;
    let mut low: Vec<u64> = Vec::new();
    let mut rest = units;
    while rest >= 10
        invariant
            forall|k: int| 0 <= k < low.len() ==> (#[trigger] low[k]) < 10,
            digits_of(units as int) == digits_of(rest as int) + Seq::new(
                low.len() as nat,
                |k: int| digit_char(low[low.len() - 1 - k] as int),
            ),
        decreases rest,
    {
        let ghost tail = Seq::new(
            low.len() as nat,
            |k: int| digit_char(low[low.len() - 1 - k] as int),
        );
        low.push(rest % 10);
        proof {
            let grown = Seq::new(
                low.len() as nat,
                |k: int| digit_char(low[low.len() - 1 - k] as int),
            );
            assert(grown =~= seq![digit_char((rest % 10) as int)] + tail);
            assert(digits_of(rest as int) =~= digits_of(rest as int / 10) + seq![
                digit_char((rest % 10) as int),
            ]);
            assert(digits_of(units as int) =~= digits_of(rest as int / 10) + grown);
        }
        rest = rest / 10;
    }
    let mut text = String::new();
    text.append(digit_text(rest));
    let mut j = low.len();
    while j > 0
        invariant
            j <= low.len(),
            forall|k: int| 0 <= k < low.len() ==> (#[trigger] low[k]) < 10,
            text@ == digits_of(rest as int) + Seq::new(
                (low.len() - j) as nat,
                |k: int| digit_char(low[low.len() - 1 - k] as int),
            ),
        decreases j,
    {
        j -= 1;
        text.append(digit_text(low[j]));
        assert(text@ =~= digits_of(rest as int) + Seq::new(
            (low.len() - j) as nat,
            |k: int| digit_char(low[low.len() - 1 - k] as int),
        ));
    }
    proof {
        reveal_strlit(".");
        assert("."@ =~= seq!['.']);
    }
    text.append(".");
    text.append(digit_text(cents / 10));
    text.append(digit_text(cents % 10));
    assert(text@ =~= amount_text(amount));
    text
}

/// Reads an amount: `12.34` becomes `1234`, `7` becomes `700`, `0.5`
/// becomes `50`. Anything that is not such a text, or stands for more than
/// a `u64` holds, is refused.
pub fn parse_amount(text: &str) -> (amount: Option<u64>)
    ensures
        amount == amount_of(text@),
{
    if !text.is_ascii() {
        proof {
            if exists|whole: int| reads_as(text@, whole) {
                let whole = choose|whole: int| reads_as(text@, whole);
                let bad = choose|i: int|
                    0 <= i < text@.len() && !('\0' <= #[trigger] text@[i] <= '\u{7f}');
                if bad < whole {
                    assert(text@.subrange(0, whole)[bad] == text@[bad]);
                } else if bad > whole {
                    assert(text@.subrange(whole + 1, text@.len() as int)[bad - whole - 1]
                        == text@[bad]);
                }
            }
        }
        return None;
    }
    let n = text.unicode_len();
    let mut i: usize = 0;
    let mut units: u64 = 0;
    let mut overflow = false;
    while i < n
        invariant
            text.is_ascii(),
            n == text@.len(),
            i <= n,
            all_digits(text@.subrange(0, i as int)),
            !overflow ==> units == decimal_value(text@.subrange(0, i as int)),
            overflow ==> decimal_value(text@.subrange(0, i as int)) > u64::MAX,
        ensures
            i < n ==> !is_digit(text@[i as int]),
        decreases n - i,
    {
        let b = text.get_ascii(i);
        if b < 48 || b > 57 {
            assert(!is_digit(text@[i as int]));
            break;
        }
        proof {
            let longer = text@.subrange(0, i + 1);
            assert(longer.drop_last() =~= text@.subrange(0, i as int));
            assert(longer.last() == text@[i as int]);
            assert(is_digit(text@[i as int]));
            assert forall|k: int| 0 <= k < longer.len() implies is_digit(#[trigger] longer[k]) by {
                if k < i {
                    assert(text@.subrange(0, i as int)[k] == longer[k]);
                }
            }
            assert(digit_value(text@[i as int]) == b - 48);
        }
        if !overflow {
            match units.checked_mul(10) {
                Some(tens) => match tens.checked_add((b - 48) as u64) {
                    Some(sum) => {
                        units = sum;
                    },
                    None => {
                        overflow = true;
                    },
                },
                None => {
                    overflow = true;
                },
            }
        }
        i += 1;
    }
    proof {
        if exists|whole: int| reads_as(text@, whole) {
            let whole = choose|whole: int| reads_as(text@, whole);
            lemma_split_point(text@, i as int, whole);
        }
    }
    if i == 0 {
        return None;
    }
    let mut cents: u64 = 0;
    if i < n {
        if text.get_ascii(i) != 46 {
            return None;
        }
        let places = n - i - 1;
        if places == 0 || places > 2 {
            return None;
        }
        let first = text.get_ascii(i + 1);
        if first < 48 || first > 57 {
            proof {
                if reads_as(text@, i as int) {
                    assert(text@.subrange(i + 1, n as int)[0] == text@[i + 1]);
                }
            }
            return None;
        }
        cents = ((first - 48) as u64) * 10;
        if places == 2 {
            let second = text.get_ascii(i + 2);
            if second < 48 || second > 57 {
                proof {
                    if reads_as(text@, i as int) {
                        assert(text@.subrange(i + 1, n as int)[1] == text@[i + 2]);
                    }
                }
                return None;
            }
            cents = cents + (second - 48) as u64;
        }
        proof {
            assert forall|k: int| 0 <= k < n - i - 1 implies is_digit(
                #[trigger] text@.subrange(i + 1, n as int)[k],
            ) by {
                assert(text@.subrange(i + 1, n as int)[k] == text@[i + 1 + k]);
            }
        }
    }
    proof {
        assert(reads_as(text@, i as int));
        assert(minor_units(text@, i as int) == decimal_value(text@.subrange(0, i as int)) * 100
            + cents);
        lemma_decimal_value_nonnegative(text@.subrange(0, i as int));
    }
    if overflow {
        return None;
    }
    match units.checked_mul(100) {
        Some(hundreds) => hundreds.checked_add(cents),
        None => None,
    }
}

} // verus!
