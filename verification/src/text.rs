//! Small text helpers with exact contracts: decimal rendering, joining and comparison.

use vstd::prelude::*;

verus! {

/// Whether two string slices hold the same characters.
pub fn same_text(left: &str, right: &str) -> (same: bool)
    ensures
        same == (left@ == right@),
{
    left.to_string() == right.to_string()
}

/// The character of one decimal digit.
pub open spec fn digit_char(digit: nat) -> char
    recommends
        digit < 10,
{
    (('0' as nat) + digit) as char
}

/// The decimal digits of a natural number, most significant first.
pub open spec fn decimal_digits(n: nat) -> Seq<char>
    decreases n,
{
    if n < 10 {
        seq![digit_char(n)]
    } else {
        decimal_digits(n / 10).push(digit_char(n % 10))
    }
}

/// The decimal text of an integer, with a leading minus sign below zero.
pub open spec fn decimal_text(n: int) -> Seq<char> {
    if n < 0 {
        seq!['-'] + decimal_digits((-n) as nat)
    } else {
        decimal_digits(n as nat)
    }
}

fn digit_str(digit: u64) -> (text: &'static str)
    requires
        digit < 10,
    ensures
        text@ == seq![digit_char(digit as nat)],
{
    proof {
        reveal_strlit("0");
        reveal_strlit("1");
        reveal_strlit("2");
        reveal_strlit("3");
        reveal_strlit("4");
        reveal_strlit("5");
        reveal_strlit("6");
        reveal_strlit("7");
        reveal_strlit("8");
        reveal_strlit("9");
    }
    let text = if digit == 0 {
        "0"
    } else if digit == 1 {
        "1"
    } else if digit == 2 {
        "2"
    } else if digit == 3 {
        "3"
    } else if digit == 4 {
        "4"
    } else if digit == 5 {
        "5"
    } else if digit == 6 {
        "6"
    } else if digit == 7 {
        "7"
    } else if digit == 8 {
        "8"
    } else {
        "9"
    };
    assert(text@ =~= seq![digit_char(digit as nat)]);
    text
}

/// Renders an unsigned integer in decimal.
pub fn unsigned_text(n: u64) -> (text: String)
    ensures
        text@ == decimal_text(n as int),
    decreases n,
{
    if n < 10 {
        digit_str(n).to_string()
    } else {
        let mut text = unsigned_text(n / 10);
        text.append(digit_str(n % 10));
        assert(text@ =~= decimal_digits((n / 10) as nat).push(digit_char((n % 10) as nat)));
        text
    }
}

/// Renders a wide unsigned integer in decimal.
fn wide_text(n: u128) -> (text: String)
    ensures
        text@ == decimal_digits(n as nat),
    decreases n,
{
    let digit: u64 = (n % 10) as u64;
    if n < 10 {
        digit_str(digit).to_string()
    } else {
        let mut text = wide_text(n / 10);
        text.append(digit_str(digit));
        assert(text@ =~= decimal_digits((n / 10) as nat).push(digit_char((n % 10) as nat)));
        text
    }
}

/// `n` zeros.
pub open spec fn zeros(n: nat) -> Seq<char> {
    Seq::new(n, |i: int| '0')
}

/// The digits with so many of them behind the point; zeros fill up what is missing in front.
pub open spec fn pointed(digits: Seq<char>, scale: nat) -> Seq<char> {
    if scale == 0 {
        digits
    } else if digits.len() > scale {
        digits.take(digits.len() - scale) + seq!['.'] + digits.skip(digits.len() - scale)
    } else {
        seq!['0', '.'] + zeros((scale - digits.len()) as nat) + digits
    }
}

/// The text of a decimal number: the digits, with so many of them behind the point, and a leading
/// minus sign below zero.
pub open spec fn point_text(digits: int, scale: nat) -> Seq<char> {
    if digits < 0 {
        seq!['-'] + pointed(decimal_digits((-digits) as nat), scale)
    } else {
        pointed(decimal_digits(digits as nat), scale)
    }
}

/// Puts the point before the last digits.
fn set_point(digits: String, scale: usize) -> (text: String)
    ensures
        text@ == pointed(digits@, scale as nat),
{
    proof {
        reveal_strlit(".");
        reveal_strlit("0.");
        reveal_strlit("0");
    }
    if scale == 0 {
        return digits;
    }
    let len: usize = digits.as_str().unicode_len();
    if len > scale {
        let mut text = digits.as_str().substring_char(0, len - scale).to_string();
        text.append(".");
        text.append(digits.as_str().substring_char(len - scale, len));
        assert(text@ =~= pointed(digits@, scale as nat));
        return text;
    }
    let mut text = "0.".to_string();
    let mut i: usize = 0;
    while i < scale - len
        invariant
            len <= scale,
            i <= scale - len,
            text@ == seq!['0', '.'] + zeros(i as nat),
            "0"@ == seq!['0'],
        decreases scale - len - i,
    {
        text.append("0");
        i += 1;
        assert(text@ =~= seq!['0', '.'] + zeros(i as nat));
    }
    text.append(digits.as_str());
    text
}

/// Renders a decimal number with its point.
pub fn decimal_point_text(digits: i128, scale: u32) -> (text: String)
    ensures
        text@ == point_text(digits as int, scale as nat),
{
    if digits >= 0 {
        set_point(wide_text(digits as u128), scale as usize)
    } else {
        let magnitude: u128 = if digits == i128::MIN {
            0x8000_0000_0000_0000_0000_0000_0000_0000u128
        } else {
            (-digits) as u128
        };
        let mut text = "-".to_string();
        text.append(set_point(wide_text(magnitude), scale as usize).as_str());
        proof {
            reveal_strlit("-");
        }
        text
    }
}

/// Renders a signed integer in decimal.
pub fn signed_text(n: i64) -> (text: String)
    ensures
        text@ == decimal_text(n as int),
{
    if n >= 0 {
        unsigned_text(n as u64)
    } else {
        let magnitude: u64 = if n == i64::MIN {
            0x8000_0000_0000_0000u64
        } else {
            (-n) as u64
        };
        let mut text = "-".to_string();
        text.append(unsigned_text(magnitude).as_str());
        proof {
            reveal_strlit("-");
        }
        assert(text@ =~= seq!['-'] + decimal_digits((-n) as nat));
        text
    }
}

/// The texts in order, with the separator between neighbours.
pub open spec fn joined(texts: Seq<Seq<char>>, separator: Seq<char>) -> Seq<char>
    decreases texts.len(),
{
    if texts.len() == 0 {
        Seq::empty()
    } else if texts.len() == 1 {
        texts[0]
    } else {
        joined(texts.drop_last(), separator) + separator + texts.last()
    }
}

/// `n` blanks.
pub open spec fn blanks(n: nat) -> Seq<char> {
    Seq::new(n, |i: int| ' ')
}

/// Renders `n` blanks.
pub fn blank_text(n: usize) -> (text: String)
    ensures
        text@ == blanks(n as nat),
{
    let mut text = String::new();
    let mut i: usize = 0;
    proof {
        reveal_strlit(" ");
    }
    while i < n
        invariant
            i <= n,
            text@ == blanks(i as nat),
            " "@ == seq![' '],
        decreases n - i,
    {
        text.append(" ");
        i += 1;
        assert(text@ =~= blanks(i as nat));
    }
    text
}

} // verus!
