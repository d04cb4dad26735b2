//! Natural numbers as decimal text.

use vstd::prelude::*;
use vstd::string::*;

verus! {

/// The character that stands for a digit.
pub open spec fn digit(d: nat) -> char
    recommends
        d < 10,
{
    if d == 0 {
        '0'
    } else if d == 1 {
        '1'
    } else if d == 2 {
        '2'
    } else if d == 3 {
        '3'
    } else if d == 4 {
        '4'
    } else if d == 5 {
        '5'
    } else if d == 6 {
        '6'
    } else if d == 7 {
        '7'
    } else if d == 8 {
        '8'
    } else {
        '9'
    }
}

/// The decimal numeral of `n`: no sign, and no leading zero but for 0
/// itself.
pub open spec fn decimal(n: nat) -> Seq<char>
    decreases n,
{
    if n < 10 {
        seq![digit(n)]
    } else {
        decimal(n / 10).push(digit(n % 10))
    }
}

/// Appends one digit to `out`.
pub fn append_digit(out: &mut String, d: usize)
    requires
        d < 10,
    ensures
        final(out)@ == old(out)@.push(digit(d as nat)),
{
    proof {
        reveal_strlit("0");
        reveal_strlit("1");
        reveal_strlit("2");
        reveal_strlit("3");
        reveal_strlit("4");
        reveal_strlit("5");
        reveal_strlit("6");
        reveal_strlit("7");
        reveal_strlit("8");
        reveal_strlit("9");
    }
    let text = if d == 0 {
        "0"
    } else if d == 1 {
        "1"
    } else if d == 2 {
        "2"
    } else if d == 3 {
        "3"
    } else if d == 4 {
        "4"
    } else if d == 5 {
        "5"
    } else if d == 6 {
        "6"
    } else if d == 7 {
        "7"
    } else if d == 8 {
        "8"
    } else {
        "9"
    };
    assert(text@ =~= seq![digit(d as nat)]);
    out.append(text);
    assert(out@ =~= old(out)@.push(digit(d as nat)));
}

/// Appends the decimal numeral of `n` to `out`.
pub fn append_decimal(out: &mut String, n: usize)
    ensures
        final(out)@ == old(out)@ + decimal(n as nat),
    decreases n,
{
    if n >= 10 {
        append_decimal(out, n / 10);
    }
    append_digit(out, n % 10);
    assert(out@ =~= old(out)@ + decimal(n as nat));
}

/// The digit that a character stands for, if it stands for one.
pub open spec fn digit_value(c: char) -> Option<nat> {
    if c == '0' {
        Some(0)
    } else if c == '1' {
        Some(1)
    } else if c == '2' {
        Some(2)
    } else if c == '3' {
        Some(3)
    } else if c == '4' {
        Some(4)
    } else if c == '5' {
        Some(5)
    } else if c == '6' {
        Some(6)
    } else if c == '7' {
        Some(7)
    } else if c == '8' {
        Some(8)
    } else if c == '9' {
        Some(9)
    } else {
        None
    }
}

/// The number that a sequence of digits stands for, read as a decimal
/// numeral.
pub open spec fn decimal_value(digits: Seq<char>) -> nat
    decreases digits.len(),
{
    if digits.len() == 0 {
        0
    } else {
        decimal_value(digits.drop_last()) * 10 + digit_value(digits.last()).unwrap_or(0)
    }
}

/// Whether the text is a decimal numeral as `decimal` writes them: one digit
/// or more, and no leading zero but for 0 itself.
pub open spec fn is_numeral(text: Seq<char>) -> bool {
    &&& text.len() > 0
    &&& forall|i: int| 0 <= i < text.len() ==> digit_value(#[trigger] text[i]) is Some
    &&& text.len() == 1 || text[0] != '0'
}

/// Where the digits that start at place `from` of the text end: the place
/// of the first character from there on that is no digit, or the length of
/// the text.
pub open spec fn digits_end(text: Seq<char>, from: int) -> int
    decreases text.len() - from,
{
    if 0 <= from < text.len() && digit_value(text[from]) is Some {
        digits_end(text, from + 1)
    } else {
        from
    }
}

/// `decimal` writes numerals, and a numeral stands for the number it was
/// written for.
pub proof fn lemma_decimal_is_numeral(n: nat)
    ensures
        is_numeral(decimal(n)),
        decimal_value(decimal(n)) == n,
        n > 0 ==> decimal(n)[0] != '0',
    decreases n,
{
    if n < 10 {
        assert(decimal(n) =~= seq![digit(n)]);
        assert(decimal(n).drop_last() =~= Seq::<char>::empty());
        assert(decimal_value(decimal(n).drop_last()) == 0);
    } else {
        lemma_decimal_is_numeral(n / 10);
        let shorter = decimal(n / 10);
        assert(decimal(n).drop_last() =~= shorter);
        assert(decimal(n).last() == digit(n % 10));
        assert(decimal(n)[0] == shorter[0]);
        assert forall|i: int| 0 <= i < decimal(n).len() implies digit_value(
            #[trigger] decimal(n)[i],
        ) is Some by {
            if i < shorter.len() {
                assert(decimal(n)[i] == shorter[i]);
            }
        }
    }
}

/// Digits whose first is not 0 stand for a number that is not 0.
proof fn lemma_value_positive(digits: Seq<char>)
    requires
        digits.len() > 0,
        forall|i: int| 0 <= i < digits.len() ==> digit_value(#[trigger] digits[i]) is Some,
        digits[0] != '0',
    ensures
        decimal_value(digits) > 0,
    decreases digits.len(),
{
    if digits.len() > 1 {
        let shorter = digits.drop_last();
        assert(shorter[0] == digits[0]);
        assert forall|i: int| 0 <= i < shorter.len() implies digit_value(#[trigger] shorter[i])
            is Some by {
            assert(shorter[i] == digits[i]);
        }
        lemma_value_positive(shorter);
    } else {
        assert(digits.drop_last() =~= Seq::<char>::empty());
        assert(decimal_value(digits.drop_last()) == 0);
        assert(digits.last() == digits[0]);
    }
}

/// A numeral is what `decimal` writes for the number it stands for.
pub proof fn lemma_numeral_is_decimal(numeral: Seq<char>)
    requires
        is_numeral(numeral),
    ensures
        decimal(decimal_value(numeral)) == numeral,
    decreases numeral.len(),
{
    let shorter = numeral.drop_last();
    let last = numeral.last();
    assert(digit_value(last) is Some);
    assert(digit(digit_value(last).unwrap()) == last);
    if numeral.len() == 1 {
        assert(shorter =~= Seq::<char>::empty());
        assert(decimal_value(shorter) == 0);
        assert(decimal(decimal_value(numeral)) =~= numeral);
    } else {
        assert(shorter[0] == numeral[0]);
        assert forall|i: int| 0 <= i < shorter.len() implies digit_value(#[trigger] shorter[i])
            is Some by {
            assert(shorter[i] == numeral[i]);
        }
        lemma_value_positive(shorter);
        lemma_numeral_is_decimal(shorter);
        let value = decimal_value(numeral);
        assert(value / 10 == decimal_value(shorter));
        assert(value % 10 == digit_value(last).unwrap());
        assert(decimal(value) =~= numeral);
    }
}

/// The digits of a numeral that stands between two texts end where the
/// numeral ends, if what follows it starts with no digit.
pub proof fn lemma_digits_end(before: Seq<char>, numeral: Seq<char>, after: Seq<char>, from: int)
    requires
        forall|i: int| 0 <= i < numeral.len() ==> digit_value(#[trigger] numeral[i]) is Some,
        after.len() == 0 || digit_value(after[0]) is None,
        before.len() <= from <= before.len() + numeral.len(),
    ensures
        digits_end(before + numeral + after, from) == before.len() + numeral.len(),
    decreases before.len() + numeral.len() - from,
{
    let text = before + numeral + after;
    if from < before.len() + numeral.len() {
        assert(text[from] == numeral[from - before.len()]);
        lemma_digits_end(before, numeral, after, from + 1);
    } else if after.len() > 0 {
        assert(text[from] == after[0]);
    }
}

/// The character that stands for a digit.
fn value_of_digit(c: char) -> (value: Option<usize>)
    ensures
        match value {
            Some(d) => digit_value(c) == Some(d as nat) && d < 10,
            None => digit_value(c) is None,
        },
{
    if c == '0' {
        Some(0)
    } else if c == '1' {
        Some(1)
    } else if c == '2' {
        Some(2)
    } else if c == '3' {
        Some(3)
    } else if c == '4' {
        Some(4)
    } else if c == '5' {
        Some(5)
    } else if c == '6' {
        Some(6)
    } else if c == '7' {
        Some(7)
    } else if c == '8' {
        Some(8)
    } else if c == '9' {
        Some(9)
    } else {
        None
    }
}

/// Reads the digits that start at place `from` of the text. Hands back the
/// place where they end, and the number that they stand for where they are
/// a numeral of a number that a `usize` holds.
pub fn scan_numeral(text: &str, from: usize) -> (found: (Option<usize>, usize))
    requires
        from <= text@.len(),
    ensures
        found.1 == digits_end(text@, from as int),
        from <= found.1 <= text@.len(),
        found.0 is Some <==> is_numeral(text@.subrange(from as int, found.1 as int))
            && decimal_value(text@.subrange(from as int, found.1 as int)) <= usize::MAX,
        found.0 matches Some(value) ==> value == decimal_value(
            text@.subrange(from as int, found.1 as int),
        ),
{
    let len = text.unicode_len();
    let mut at: usize = from;
    let mut value: usize = 0;
    let mut fits = true;
    while at < len
        invariant
            from <= at <= len,
            len == text@.len(),
            digits_end(text@, from as int) == digits_end(text@, at as int),
            forall|i: int| from <= i < at ==> digit_value(#[trigger] text@[i]) is Some,
            fits ==> value == decimal_value(text@.subrange(from as int, at as int)),
            !fits ==> decimal_value(text@.subrange(from as int, at as int)) > usize::MAX,
        ensures
            digits_end(text@, at as int) == at,
        decreases len - at,
    {
        let digit = match value_of_digit(text.get_char(at)) {
            Some(digit) => digit,
            None => {
                break ;
            },
        };
        proof {
            let longer = text@.subrange(from as int, at + 1);
            assert(longer.drop_last() =~= text@.subrange(from as int, at as int));
            assert(longer.last() == text@[at as int]);
        }
        if fits {
            match value.checked_mul(10) {
                Some(tens) => match tens.checked_add(digit) {
                    Some(sum) => {
                        value = sum;
                    },
                    None => {
                        fits = false;
                    },
                },
                None => {
                    fits = false;
                },
            }
        }
        at += 1;
    }
    let ghost digits = text@.subrange(from as int, at as int);
    proof {
        assert forall|i: int| 0 <= i < digits.len() implies digit_value(#[trigger] digits[i])
            is Some by {
            assert(digits[i] == text@[from + i]);
        }
    }
    if at == from {
        return (None, at);
    }
    if at - from > 1 {
        proof {
            assert(digits[0] == text@[from as int]);
        }
        if text.get_char(from) == '0' {
            return (None, at);
        }
    }
    if fits {
        (Some(value), at)
    } else {
        (None, at)
    }
}

/// Whether `c` is one of the characters that the diagrams are drawn with.
pub open spec fn is_glyph(c: char) -> bool {
    c == ' ' || c == '|' || c == '/' || c == '\\' || c == '─' || c == '\n'
}

/// Appends one character of a diagram to `out`.
pub fn append_glyph(out: &mut String, c: char)
    requires
        is_glyph(c),
    ensures
        final(out)@ == old(out)@.push(c),
{
    proof {
        reveal_strlit(" ");
        reveal_strlit("|");
        reveal_strlit("/");
        reveal_strlit("\\");
        reveal_strlit("─");
        reveal_strlit("\n");
    }
    let text = if c == ' ' {
        " "
    } else if c == '|' {
        "|"
    } else if c == '/' {
        "/"
    } else if c == '\\' {
        "\\"
    } else if c == '─' {
        "─"
    } else {
        "\n"
    };
    assert(text@ =~= seq![c]);
    out.append(text);
    assert(out@ =~= old(out)@.push(c));
}

} // verus!
