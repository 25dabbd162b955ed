//! Text rendering and number parsing.
//!
//! Denial reasons and trace lines are built from plain string pieces and
//! numbers. The spec functions here say which characters a rendered number
//! consists of, and the executable functions beside them produce exactly those
//! characters.

use vstd::prelude::*;

verus! {

/// The character that stands for a digit of value `d`, up to base sixteen.
pub open spec fn digit(d: nat) -> char {
    if d < 10 {
        (48 + d) as char
    } else {
        (87 + d) as char
    }
}

/// The decimal numeral of `n`, without leading zeros.
pub open spec fn decimal(n: nat) -> Seq<char>
    decreases n,
{
    if n < 10 {
        seq![digit(n)]
    } else {
        decimal(n / 10).push(digit(n % 10))
    }
}

/// A byte in hexadecimal: the prefix `0x` and exactly two digits.
pub open spec fn hex_byte(b: u8) -> Seq<char> {
    seq!['0', 'x', digit((b / 16) as nat), digit((b % 16) as nat)]
}

/// `text` padded on the left with spaces to at least `width` characters.
pub open spec fn pad_left(text: Seq<char>, width: nat) -> Seq<char> {
    if text.len() < width {
        Seq::new((width - text.len()) as nat, |i: int| ' ') + text
    } else {
        text
    }
}

/// `text` padded on the right with spaces to at least `width` characters.
pub open spec fn pad_right(text: Seq<char>, width: nat) -> Seq<char> {
    if text.len() < width {
        text + Seq::new((width - text.len()) as nat, |i: int| ' ')
    } else {
        text
    }
}

/// The parts in order, with `sep` between any two neighbours.
pub open spec fn joined(parts: Seq<Seq<char>>, sep: Seq<char>) -> Seq<char>
    decreases parts.len(),
{
    if parts.len() == 0 {
        Seq::empty()
    } else if parts.len() == 1 {
        parts[0]
    } else {
        joined(parts.drop_last(), sep) + sep + parts.last()
    }
}

/// Whether `c` is a decimal digit.
pub open spec fn is_digit(c: char) -> bool {
    '0' <= c <= '9'
}

/// The value of a sequence of decimal digits, most significant first.
pub open spec fn value_of(digits: Seq<char>) -> nat
    decreases digits.len(),
{
    if digits.len() == 0 {
        0
    } else {
        value_of(digits.drop_last()) * 10 + (digits.last() as nat - 48) as nat
    }
}

/// The numeral in `text`, which may open with a plus sign.
pub open spec fn numeral(text: Seq<char>) -> Seq<char> {
    if text.len() > 0 && text[0] == '+' {
        text.drop_first()
    } else {
        text
    }
}

/// The number that `text` spells, if it is a numeral of at least one digit
/// whose value does not exceed `max`.
pub open spec fn number(text: Seq<char>, max: u64) -> Option<u64> {
    let digits = numeral(text);
    if digits.len() > 0 && (forall|i: int| 0 <= i < digits.len() ==> is_digit(#[trigger] digits[i]))
        && value_of(digits) <= max {
        Some(value_of(digits) as u64)
    } else {
        None
    }
}

/// Anything that can serve as the name of a task or a thread.
pub trait IntoName: Sized {
    /// The characters of the name.
    spec fn name_text(self) -> Seq<char>;

    /// Convert into an owned name.
    fn into_name(self) -> (name: String)
        ensures
            name@ == self.name_text(),
    ;
}

impl IntoName for String {
    open spec fn name_text(self) -> Seq<char> {
        self@
    }

    fn into_name(self) -> (name: String) {
        self
    }
}

impl<'a> IntoName for &'a str {
    open spec fn name_text(self) -> Seq<char> {
        self@
    }

    fn into_name(self) -> (name: String) {
        self.to_owned()
    }
}

/// Whether two strings hold the same characters.
pub fn same_text(a: &str, b: &str) -> (same: bool)
    ensures
        same == (a@ == b@),
{
    a.to_owned() == b.to_owned()
}

/// The text of one digit, up to base sixteen.
fn digit_text(d: u8) -> (text: &'static str)
    requires
        d < 16,
    ensures
        text@ == seq![digit(d as nat)],
{
    proof {
        reveal_strlit("0");
        reveal_strlit("1");
        reveal_strlit("2");
        reveal_strlit("3");
        reveal_strlit("4");
        reveal_strlit("5");
        reveal_strlit("6");
        reveal_strlit("7");
        reveal_strlit("8");
        reveal_strlit("9");
        reveal_strlit("a");
        reveal_strlit("b");
        reveal_strlit("c");
        reveal_strlit("d");
        reveal_strlit("e");
        reveal_strlit("f");
    }
    match d {
        0 => "0",
        1 => "1",
        2 => "2",
        3 => "3",
        4 => "4",
        5 => "5",
        6 => "6",
        7 => "7",
        8 => "8",
        9 => "9",
        10 => "a",
        11 => "b",
        12 => "c",
        13 => "d",
        14 => "e",
        _ => "f",
    }
}

/// Render a number in decimal.
pub fn decimal_text(n: u64) -> (text: String)
    ensures
        text@ == decimal(n as nat),
    decreases n,
{
    if n < 10 {
        digit_text(n as u8).to_owned()
    } else {
        let mut text = decimal_text(n / 10);
        text.append(digit_text((n % 10) as u8));
        text
    }
}

/// Render a byte in hexadecimal with its prefix, as in `0x0f`.
pub fn hex_byte_text(b: u8) -> (text: String)
    ensures
        text@ == hex_byte(b),
{
    proof {
        reveal_strlit("0x");
    }
    let mut text = "0x".to_owned();
    text.append(digit_text(b / 16));
    text.append(digit_text(b % 16));
    proof {
        assert(text@ =~= hex_byte(b));
    }
    text
}

/// Spaces, `count` of them.
fn spaces(count: usize) -> (text: String)
    ensures
        text@ == Seq::new(count as nat, |i: int| ' '),
{
    let mut text = String::new();
    let mut made: usize = 0;
    while made < count
        invariant
            made <= count,
            text@ == Seq::new(made as nat, |i: int| ' '),
        decreases count - made,
    {
        proof {
            reveal_strlit(" ");
        }
        text.append(" ");
        made = made + 1;
        proof {
            assert(text@ =~= Seq::new(made as nat, |i: int| ' '));
        }
    }
    text
}

/// Right align `text` in a field of `width` characters.
pub fn pad_left_text(text: String, width: usize) -> (padded: String)
    ensures
        padded@ == pad_left(text@, width as nat),
{
    let len: usize = text.as_str().unicode_len();
    if len < width {
        let mut padded = spaces(width - len);
        padded.append(text.as_str());
        padded
    } else {
        text
    }
}

/// Left align `text` in a field of `width` characters.
pub fn pad_right_text(text: String, width: usize) -> (padded: String)
    ensures
        padded@ == pad_right(text@, width as nat),
{
    let len: usize = text.as_str().unicode_len();
    if len < width {
        let mut padded = text;
        padded.append(spaces(width - len).as_str());
        padded
    } else {
        text
    }
}

/// The characters of each part.
pub open spec fn texts(parts: Seq<&'static str>) -> Seq<Seq<char>> {
    parts.map_values(|p: &'static str| p@)
}

/// Join the parts with a separator.
pub fn join_text(parts: &Vec<&'static str>, sep: &str) -> (text: String)
    ensures
        text@ == joined(texts(parts@), sep@),
{
    let mut text = String::new();
    let mut done: usize = 0;
    while done < parts.len()
        invariant
            done <= parts.len(),
            text@ == joined(texts(parts@).take(done as int), sep@),
        decreases parts.len() - done,
    {
        let ghost before = texts(parts@).take(done as int);
        let ghost after = texts(parts@).take(done + 1);
        proof {
            assert(after.drop_last() =~= before);
            assert(after.last() == parts@[done as int]@);
        }
        if done > 0 {
            text.append(sep);
        }
        text.append(parts[done]);
        proof {
            if done == 0 {
                assert(text@ =~= parts@[0]@);
            }
        }
        done = done + 1;
    }
    proof {
        assert(texts(parts@).take(done as int) =~= texts(parts@));
    }
    text
}

/// Appending a digit multiplies the value by ten and adds the digit.
proof fn lemma_value_of_push(digits: Seq<char>, i: int)
    requires
        0 <= i < digits.len(),
    ensures
        value_of(digits.take(i + 1)) == value_of(digits.take(i)) * 10 + (digits[i] as nat
            - 48) as nat,
{
    assert(digits.take(i + 1).drop_last() =~= digits.take(i));
}

/// A longer prefix of digits is worth at least as much as a shorter one.
proof fn lemma_value_of_monotone(digits: Seq<char>, i: int, j: int)
    requires
        0 <= i <= j <= digits.len(),
    ensures
        value_of(digits.take(i)) <= value_of(digits.take(j)),
    decreases j - i,
{
    if i < j {
        lemma_value_of_monotone(digits, i, j - 1);
        lemma_value_of_push(digits, j - 1);
    }
}

/// Parse a number written in decimal, with an optional leading plus sign.
/// Anything else, and a value above `max`, is no number.
pub fn parse_number(text: &str, max: u64) -> (parsed: Option<u64>)
    ensures
        parsed == number(text@, max),
{
    let len: usize = text.unicode_len();
    let start: usize = if len > 0 && text.get_char(0) == '+' {
        1
    } else {
        0
    };
    let ghost digits = numeral(text@);
    if start == len {
        return None;
    }
    let mut value: u64 = 0;
    let mut at: usize = start;
    while at < len
        invariant
            start <= at <= len,
            len == text@.len(),
            start <= 1,
            digits == numeral(text@),
            digits.len() == len - start,
            forall|i: int| 0 <= i < digits.len() ==> digits[i] == text@[i + start],
            forall|i: int| 0 <= i < at - start ==> is_digit(#[trigger] digits[i]),
            value == value_of(digits.take(at - start)),
            value <= max,
        decreases len - at,
    {
        let c: char = text.get_char(at);
        proof {
            assert(c == digits[at - start]);
            lemma_value_of_push(digits, at - start);
            lemma_value_of_monotone(digits, at - start + 1, digits.len() as int);
            assert(digits.take(digits.len() as int) =~= digits);
        }
        if c < '0' || c > '9' {
            return None;
        }
        let d: u64 = c as u64 - 48;
        if value > max / 10 || d > max - value * 10 {
            return None;
        }
        value = value * 10 + d;
        at = at + 1;
    }
    proof {
        assert(digits.take(digits.len() as int) =~= digits);
    }
    Some(value)
}

// -- the laws of numbers in texts ----------------------------------------------

/// The decimal digits in order.
pub open spec fn decimal_digits() -> Seq<char> {
    seq!['0', '1', '2', '3', '4', '5', '6', '7', '8', '9']
}

/// The hexadecimal digits in order.
pub open spec fn hex_digits() -> Seq<char> {
    decimal_digits() + seq!['a', 'b', 'c', 'd', 'e', 'f']
}

/// A digit is the character at its place in the row of digits.
proof fn lemma_digit(d: nat)
    requires
        d < 16,
    ensures
        digit(d) == hex_digits()[d as int],
        d < 10 ==> digit(d) == decimal_digits()[d as int] && is_digit(digit(d)) && digit(d) as nat
            - 48 == d,
{
}

/// A character is a decimal digit if and only if it stands in the row.
proof fn lemma_is_digit(c: char)
    ensures
        is_digit(c) <==> decimal_digits().contains(c),
        is_digit(c) ==> 0 <= c as nat - 48 < 10 && decimal_digits()[c as nat - 48] == c,
{
    if is_digit(c) {
        let d = (c as nat - 48) as nat;
        lemma_digit(d);
        assert(digit(d) == c);
        assert(decimal_digits()[d as int] == c);
    }
    if decimal_digits().contains(c) {
        let i = choose|i: int| 0 <= i < 10 && decimal_digits()[i] == c;
        assert(is_digit(decimal_digits()[i]));
    }
}

/// What a numeral is made of.
proof fn lemma_decimal(n: nat)
    ensures
        decimal(n).len() > 0,
        forall|i: int| 0 <= i < decimal(n).len() ==> is_digit(#[trigger] decimal(n)[i]),
        value_of(decimal(n)) == n,
    decreases n,
{
    if n < 10 {
        lemma_digit(n);
        assert(decimal(n).drop_last() =~= Seq::empty());
        reveal_with_fuel(value_of, 2);
    } else {
        lemma_decimal(n / 10);
        lemma_digit(n % 10);
        assert(decimal(n).drop_last() =~= decimal(n / 10));
    }
}

/// A number that is written down is read back, with or without a plus sign in
/// front, unless it is too large.
pub proof fn law_a_numeral_is_read_back(n: nat, max: u64)
    ensures
        n <= max ==> number(decimal(n), max) == Some(n as u64),
        n > max ==> number(decimal(n), max) is None,
        number(seq!['+'] + decimal(n), max) == number(decimal(n), max),
{
    lemma_decimal(n);
    assert(is_digit(decimal(n)[0]));
    assert((seq!['+'] + decimal(n)).drop_first() =~= decimal(n));
}

/// A numeral is written with decimal digits only, each of them the one that
/// counts, and without leading zeros.
pub proof fn law_a_numeral_is_canonical(n: nat, i: int)
    ensures
        n < 10 ==> decimal(n) == seq![decimal_digits()[n as int]],
        n >= 10 ==> decimal(n) == decimal(n / 10).push(decimal_digits()[(n % 10) as int]),
        n > 0 ==> decimal(n)[0] != '0',
        0 <= i < decimal(n).len() ==> decimal_digits().contains(decimal(n)[i]),
    decreases n,
{
    lemma_decimal(n);
    if n < 10 {
        lemma_digit(n);
    } else {
        lemma_digit(n % 10);
        law_a_numeral_is_canonical(n / 10, 0);
        lemma_decimal(n / 10);
    }
    if 0 <= i < decimal(n).len() {
        lemma_is_digit(decimal(n)[i]);
    }
}

/// Different numbers have different numerals.
pub proof fn law_different_numbers_have_different_numerals(a: nat, b: nat)
    requires
        a != b,
    ensures
        decimal(a) != decimal(b),
{
    lemma_decimal(a);
    lemma_decimal(b);
}

/// Reading on: one more digit makes a number ten times as large and adds the
/// digit, as long as it is not too large, and any other character spoils it.
pub proof fn law_reading_on(text: Seq<char>, c: char, max: u64, v: u64)
    requires
        number(text, u64::MAX) == Some(v),
    ensures
        forall|d: int|
            0 <= d < 10 && #[trigger] decimal_digits()[d] == c ==> number(text.push(c), max)
                == if 10 * v + d <= max {
                Some((10 * v + d) as u64)
            } else {
                None
            },
        !decimal_digits().contains(c) ==> number(text.push(c), max) is None,
{
    let digits = numeral(text);
    let more = numeral(text.push(c));
    assert(more =~= digits.push(c));
    assert(more.drop_last() =~= digits);
    lemma_is_digit(c);
    if is_digit(c) {
        assert forall|i: int| 0 <= i < more.len() implies is_digit(#[trigger] more[i]) by {
            if i < digits.len() {
                assert(more[i] == digits[i]);
            }
        }
        assert forall|d: int| 0 <= d < 10 && #[trigger] decimal_digits()[d] == c implies d == c as nat
            - 48 by {
            lemma_digit(d as nat);
        }
    } else {
        assert(!is_digit(more[more.len() - 1]));
    }
}

/// Where reading begins: one character is a number if and only if it is a digit,
/// and its place among the digits is its value. Nothing at all is no number.
pub proof fn law_where_reading_begins(c: char, max: u64)
    ensures
        forall|d: int|
            0 <= d < 10 && d <= max && #[trigger] decimal_digits()[d] == c ==> number(
                seq![c],
                max,
            ) == Some(d as u64),
        !decimal_digits().contains(c) ==> number(seq![c], max) is None,
        number(Seq::empty(), max) is None,
{
    let one = seq![c];
    lemma_is_digit(c);
    if c == '+' {
        assert(one.drop_first() =~= Seq::empty());
        assert forall|d: int| 0 <= d < 10 && #[trigger] decimal_digits()[d] == c implies false by {
            lemma_digit(d as nat);
        }
    } else {
        assert(numeral(one) == one);
        assert(one.drop_last() =~= Seq::empty());
        reveal_with_fuel(value_of, 2);
        if is_digit(c) {
            assert forall|d: int| 0 <= d < 10 && #[trigger] decimal_digits()[d] == c implies d
                == c as nat - 48 by {
                lemma_digit(d as nat);
            }
        } else {
            assert(!is_digit(one[0]));
        }
    }
}

/// A text with a character in it that is no digit is no number, unless that
/// character is a plus sign in front; and one plus sign is enough.
pub proof fn law_other_characters_spoil_a_number(text: Seq<char>, i: int, max: u64)
    requires
        0 <= i < text.len(),
        !decimal_digits().contains(text[i]),
        i > 0 || text[i] != '+',
    ensures
        number(text, max) is None,
{
    let digits = numeral(text);
    lemma_is_digit(text[i]);
    if text[0] == '+' {
        assert(digits[i - 1] == text[i]);
    } else {
        assert(digits[i] == text[i]);
    }
}

/// A bound only cuts off: what is read under a bound is at most the bound, and is
/// what is read under any other bound that it does not exceed.
pub proof fn law_a_bound_only_cuts_off(text: Seq<char>, max: u64, other: u64)
    ensures
        number(text, max) matches Some(v) ==> v <= max && number(text, other) == if v <= other {
            Some(v)
        } else {
            None
        },
{
}

/// A byte is written as `0x` and two hexadecimal digits, high half first.
pub proof fn law_a_byte_is_two_digits(b: u8, high: int, low: int)
    requires
        0 <= high < 16,
        0 <= low < 16,
        b == 16 * high + low,
    ensures
        hex_byte(b) == seq!['0', 'x', hex_digits()[high], hex_digits()[low]],
{
    assert(b / 16 == high && b % 16 == low);
    lemma_digit(high as nat);
    lemma_digit(low as nat);
}

/// Different bytes are written differently.
pub proof fn law_different_bytes_are_written_differently(a: u8, b: u8)
    requires
        a != b,
    ensures
        hex_byte(a) != hex_byte(b),
{
    law_a_byte_is_two_digits(a, a as int / 16, a as int % 16);
    law_a_byte_is_two_digits(b, b as int / 16, b as int % 16);
    if hex_byte(a) == hex_byte(b) {
        assert(hex_byte(a)[2] == hex_byte(b)[2] && hex_byte(a)[3] == hex_byte(b)[3]);
        lemma_hex_digits(a as int / 16, b as int / 16);
        lemma_hex_digits(a as int % 16, b as int % 16);
    }
}

/// No two places in the row hold the same digit.
proof fn lemma_hex_digits(i: int, j: int)
    requires
        0 <= i < 16,
        0 <= j < 16,
        hex_digits()[i] == hex_digits()[j],
    ensures
        i == j,
{
}

/// Padding fills up with spaces on one side, to the width and no further, and
/// keeps the text.
pub proof fn law_padding_fills_up(text: Seq<char>, width: nat, i: int)
    ensures
        ({
            let (left, right) = (pad_left(text, width), pad_right(text, width));
            let wide = if text.len() < width {
                width
            } else {
                text.len()
            };
            &&& left.len() == wide
            &&& right.len() == wide
            &&& left.skip(wide - text.len()) == text
            &&& right.take(text.len() as int) == text
            &&& 0 <= i < wide - text.len() ==> left[i] == ' '
            &&& text.len() <= i < wide ==> right[i] == ' '
        }),
{
    let (left, right) = (pad_left(text, width), pad_right(text, width));
    assert(left.skip(left.len() - text.len()) =~= text);
    assert(right.take(text.len() as int) =~= text);
}

} // verus!
