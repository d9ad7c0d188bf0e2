//! Numbers as decimal text.

use vstd::prelude::*;
use vstd::string::StringExecFns;

verus! {

/// The ten decimal digits, in order of value.
pub open spec fn decimal_digits() -> Seq<char> {
    seq!['0', '1', '2', '3', '4', '5', '6', '7', '8', '9']
}

/// The decimal text of a natural number: its digits, most significant first,
/// without leading zeros; `0` for zero.
pub open spec fn decimal_text(n: nat) -> Seq<char>
    decreases n,
{
    if n < 10 {
        seq![decimal_digits()[n as int]]
    } else {
        decimal_text(n / 10).push(decimal_digits()[(n % 10) as int])
    }
}

/// The decimal text of an integer: a minus sign before the text of the
/// magnitude where the integer is negative.
pub open spec fn signed_decimal_text(n: int) -> Seq<char> {
    if n < 0 {
        seq!['-'] + decimal_text((-n) as nat)
    } else {
        decimal_text(n as nat)
    }
}

/// Distinct values below ten have distinct digits, and no digit is a hyphen.
pub proof fn lemma_decimal_digits(a: int, b: int)
    requires
        0 <= a < 10,
        0 <= b < 10,
    ensures
        decimal_digits()[a] == decimal_digits()[b] ==> a == b,
        decimal_digits()[a] != '-',
{
    let d = decimal_digits();
    assert(d[0] == '0' && d[1] == '1' && d[2] == '2' && d[3] == '3' && d[4] == '4');
    assert(d[5] == '5' && d[6] == '6' && d[7] == '7' && d[8] == '8' && d[9] == '9');
}

/// The decimal text of a number has at least one digit, has more than one
/// exactly where the number is ten or more, and holds no hyphen.
pub proof fn lemma_decimal_text_shape(n: nat)
    ensures
        decimal_text(n).len() >= 1,
        decimal_text(n).len() == 1 <==> n < 10,
        forall|i: int| 0 <= i < decimal_text(n).len() ==> decimal_text(n)[i] != '-',
    decreases n,
{
    if n < 10 {
        lemma_decimal_digits(n as int, 0);
    } else {
        lemma_decimal_text_shape(n / 10);
        lemma_decimal_digits((n % 10) as int, 0);
    }
}

/// Decimal text determines the number: two numbers with the same text are the
/// same number.
pub proof fn lemma_decimal_text_injective(a: nat, b: nat)
    requires
        decimal_text(a) == decimal_text(b),
    ensures
        a == b,
    decreases a,
{
    lemma_decimal_text_shape(a);
    lemma_decimal_text_shape(b);
    if a < 10 {
        assert(b < 10);
        assert(decimal_text(a)[0] == decimal_digits()[a as int]);
        assert(decimal_text(b)[0] == decimal_digits()[b as int]);
        lemma_decimal_digits(a as int, b as int);
    } else {
        assert(b >= 10);
        let high_a = decimal_text(a / 10);
        let high_b = decimal_text(b / 10);
        assert(decimal_text(a) == high_a.push(decimal_digits()[(a % 10) as int]));
        assert(decimal_text(b) == high_b.push(decimal_digits()[(b % 10) as int]));
        assert(decimal_text(a).drop_last() =~= high_a);
        assert(decimal_text(b).drop_last() =~= high_b);
        lemma_decimal_text_injective(a / 10, b / 10);
        assert(decimal_text(a).last() == decimal_digits()[(a % 10) as int]);
        assert(decimal_text(b).last() == decimal_digits()[(b % 10) as int]);
        lemma_decimal_digits((a % 10) as int, (b % 10) as int);
        assert(a == 10 * (a / 10) + a % 10);
        assert(b == 10 * (b / 10) + b % 10);
    }
}

/// The text of one decimal digit.
fn digit_text(digit: u64) -> (text: &'static str)
    requires
        digit < 10,
    ensures
        text@ == seq![decimal_digits()[digit as int]],
{
    proof {
        reveal_strlit("0");
        reveal_strlit("1");
        reveal_strlit("2");
        reveal_strlit("3");
        reveal_strlit("4");
        reveal_strlit("5");
        reveal_strlit("6");
        reveal_strlit("7");
        reveal_strlit("8");
        reveal_strlit("9");
    }
    let text = if digit == 0 {
        "0"
    } else if digit == 1 {
        "1"
    } else if digit == 2 {
        "2"
    } else if digit == 3 {
        "3"
    } else if digit == 4 {
        "4"
    } else if digit == 5 {
        "5"
    } else if digit == 6 {
        "6"
    } else if digit == 7 {
        "7"
    } else if digit == 8 {
        "8"
    } else {
        "9"
    };
    assert(text@ =~= seq![decimal_digits()[digit as int]]);
    text
}

/// Appends the decimal text of `n` to `text`.
pub fn push_decimal(text: &mut String, n: u64)
    ensures
        final(text)@ == old(text)@ + decimal_text(n as nat),
    decreases n,
{
    if n >= 10 {
        push_decimal(text, n / 10);
    }
    let digit = digit_text(n % 10);
    text.append(digit);
    assert(text@ =~= old(text)@ + decimal_text(n as nat));
}

/// The decimal text of `n`.
pub fn unsigned_text(n: u64) -> (text: String)
    ensures
        text@ == decimal_text(n as nat),
{
    let mut text = String::new();
    push_decimal(&mut text, n);
    assert(text@ =~= decimal_text(n as nat));
    text
}

/// The decimal text of `n`, with a minus sign where `n` is negative.
pub fn signed_text(n: i64) -> (text: String)
    ensures
        text@ == signed_decimal_text(n as int),
{
    let mut text = String::new();
    if n < 0 {
        proof {
            reveal_strlit("-");
        }
        text.append("-");
        let magnitude: u64 = ((-(n + 1)) as u64) + 1;
        push_decimal(&mut text, magnitude);
        assert(text@ =~= signed_decimal_text(n as int));
    } else {
        push_decimal(&mut text, n as u64);
        assert(text@ =~= signed_decimal_text(n as int));
    }
    text
}

/// Whether a character is a decimal digit.
pub open spec fn is_decimal_digit(c: char) -> bool {
    '0' <= c <= '9'
}

/// Whether a text is the decimal text of a natural number: one digit or more,
/// all of them decimal, and no zero in front of another digit.
pub open spec fn is_magnitude_text(text: Seq<char>) -> bool {
    &&& text.len() >= 1
    &&& forall|i: int| 0 <= i < text.len() ==> is_decimal_digit(#[trigger] text[i])
    &&& text.len() > 1 ==> text[0] != '0'
}

/// Whether a text is the decimal text of an integer: the text of its
/// magnitude, with a minus sign in front where the integer is negative. Zero
/// has no sign.
pub open spec fn is_number_text(text: Seq<char>) -> bool {
    ||| is_magnitude_text(text)
    ||| (text.len() >= 2 && text[0] == '-' && text[1] != '0' && is_magnitude_text(text.skip(1)))
}

/// The decimal text of a natural number is the text of a magnitude, and it
/// begins with a zero only where the number is zero.
pub proof fn lemma_decimal_text_is_magnitude(n: nat)
    ensures
        is_magnitude_text(decimal_text(n)),
        n >= 1 ==> decimal_text(n)[0] != '0',
    decreases n,
{
    let d = decimal_digits();
    assert(d[0] == '0' && d[1] == '1' && d[2] == '2' && d[3] == '3' && d[4] == '4');
    assert(d[5] == '5' && d[6] == '6' && d[7] == '7' && d[8] == '8' && d[9] == '9');
    if n >= 10 {
        lemma_decimal_text_is_magnitude(n / 10);
        let high = decimal_text(n / 10);
        let all = decimal_text(n);
        assert(all == high.push(d[(n % 10) as int]));
        assert(all[0] == high[0]);
        assert forall|i: int| 0 <= i < all.len() implies is_decimal_digit(#[trigger] all[i]) by {
            if i < high.len() {
                assert(all[i] == high[i]);
            }
        }
    }
}

/// The decimal text of an integer is the text of a number.
pub proof fn lemma_signed_decimal_text_is_number(n: int)
    ensures
        is_number_text(signed_decimal_text(n)),
{
    if n < 0 {
        lemma_decimal_text_is_magnitude((-n) as nat);
        let text = signed_decimal_text(n);
        assert(text.skip(1) =~= decimal_text((-n) as nat));
        assert(text[1] == decimal_text((-n) as nat)[0]);
    } else {
        lemma_decimal_text_is_magnitude(n as nat);
    }
}

/// Whether `text` is the decimal text of an integer.
pub fn is_number(text: &str) -> (yes: bool)
    ensures
        yes == is_number_text(text@),
{
    broadcast use vstd::string::is_ascii_spec_bytes;

    if !text.is_ascii() {
        proof {
            let odd = choose|i: int| 0 <= i < text@.len() && !('\0' <= #[trigger] text@[i] <= '\u{7f}');
            assert(!is_decimal_digit(text@[odd]));
            assert(text@[odd] != '-');
            if odd >= 1 {
                assert(text@.skip(1)[odd - 1] == text@[odd]);
            }
        }
        return false;
    }
    let bytes = text.as_bytes();
    let length = bytes.len();
    assert(bytes@.len() == text@.len());
    assert(forall|i: int| 0 <= i < text@.len() ==> bytes@[i] == (#[trigger] text@[i]) as u8);
    if length == 0 {
        return false;
    }
    let start: usize = if bytes[0] == 45u8 {
        1
    } else {
        0
    };
    assert(bytes[0] == 45u8 <==> text@[0] == '-');
    if length == start {
        return false;
    }
    if bytes[start] == 48u8 && length > start + 1 {
        assert(text@[start as int] == '0');
        assert(text@.skip(1).len() == text@.len() - 1);
        return false;
    }
    if bytes[start] == 48u8 && start == 1 {
        assert(text@[1] == '0');
        return false;
    }
    let mut i: usize = start;
    while i < length
        invariant
            start <= i <= length,
            length == text@.len(),
            start == 1 <==> text@[0] == '-',
            start == 0 || start == 1,
            bytes@.len() == text@.len(),
            forall|k: int| 0 <= k < text@.len() ==> bytes@[k] == (#[trigger] text@[k]) as u8,
            forall|k: int| 0 <= k < text@.len() ==> '\0' <= #[trigger] text@[k] <= '\u{7f}',
            forall|k: int| start <= k < i ==> is_decimal_digit(#[trigger] text@[k]),
        decreases length - i,
    {
        let byte = bytes[i];
        if byte < 48u8 || byte > 57u8 {
            proof {
                assert(!is_decimal_digit(text@[i as int]));
                if start == 1 {
                    assert(text@.skip(1)[i - 1] == text@[i as int]);
                } else {
                    assert(text@[0] != '-');
                }
            }
            return false;
        }
        assert(is_decimal_digit(text@[i as int]));
        i += 1;
    }
    proof {
        if start == 1 {
            let rest = text@.skip(1);
            assert forall|k: int| 0 <= k < rest.len() implies is_decimal_digit(#[trigger] rest[k]) by {
                assert(rest[k] == text@[k + 1]);
            }
            assert(rest[0] == text@[1]);
            assert(is_magnitude_text(rest));
        } else {
            assert(is_magnitude_text(text@));
        }
    }
    true
}

/// The decimal text of an integer of any size. A value of this type always
/// holds such a text: an optional minus sign, then decimal digits without a
/// zero in front, and `0` alone for zero.
#[derive(Debug, PartialEq, Eq)]
pub struct NumberText {
    digits: String,
}

impl View for NumberText {
    type V = Seq<char>;

    closed spec fn view(&self) -> Seq<char> {
        self.digits@
    }
}

impl NumberText {
    #[verifier::type_invariant]
    spec fn holds_a_number(self) -> bool {
        is_number_text(self.digits@)
    }

    /// The number that `text` writes, where it writes one; `None` for every
    /// other text.
    pub fn parse(text: String) -> (parsed: Option<NumberText>)
        ensures
            match parsed {
                Some(number) => number@ == text@ && is_number_text(text@),
                None => !is_number_text(text@),
            },
    {
        if is_number(text.as_str()) {
            Some(NumberText { digits: text })
        } else {
            None
        }
    }

    /// The text of `n`.
    pub fn of_unsigned(n: u64) -> (number: NumberText)
        ensures
            number@ == decimal_text(n as nat),
            is_number_text(number@),
    {
        proof {
            lemma_decimal_text_is_magnitude(n as nat);
        }
        NumberText { digits: unsigned_text(n) }
    }

    /// The text of `n`.
    pub fn of_signed(n: i64) -> (number: NumberText)
        ensures
            number@ == signed_decimal_text(n as int),
            is_number_text(number@),
    {
        proof {
            lemma_signed_decimal_text_is_number(n as int);
        }
        NumberText { digits: signed_text(n) }
    }

    /// The text itself, which is that of a number.
    pub fn as_text(&self) -> (text: &String)
        ensures
            text@ == self@,
            is_number_text(self@),
    {
        proof {
            use_type_invariant(self);
        }
        &self.digits
    }

    /// A copy of the number.
    pub fn duplicate(&self) -> (copy: NumberText)
        ensures
            copy@ == self@,
            is_number_text(copy@),
    {
        proof {
            use_type_invariant(self);
        }
        NumberText { digits: self.digits.clone() }
    }
}

} // verus!
