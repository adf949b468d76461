//! Numbers in decimal notation, to and from text.
use vstd::prelude::*;

verus! {

/// The character for a digit.
pub open spec fn digit_char(d: int) -> char {
    (48 + d) as u8 as char
}

/// A number in decimal notation, without leading zeros.
pub open spec fn decimal(n: nat) -> Seq<char>
    decreases n,
{
    if n < 10 {
        seq![digit_char(n as int)]
    } else {
        decimal(n / 10).push(digit_char((n % 10) as int))
    }
}

fn digit_text(d: u64) -> (t: &'static str)
    requires
        d < 10,
    ensures
        t@ == seq![digit_char(d as int)],
{
    proof {
        reveal_strlit("0");
        reveal_strlit("1");
        reveal_strlit("2");
        reveal_strlit("3");
        reveal_strlit("4");
        reveal_strlit("5");
        reveal_strlit("6");
        reveal_strlit("7");
        reveal_strlit("8");
        reveal_strlit("9");
    }
    match d {
        0 => "0",
        1 => "1",
        2 => "2",
        3 => "3",
        4 => "4",
        5 => "5",
        6 => "6",
        7 => "7",
        8 => "8",
        _ => "9",
    }
}

/// A number in decimal notation.
pub fn to_decimal(n: u64) -> (t: String)
    ensures
        t@ == decimal(n as nat),
    decreases n,
{
    if n < 10 {
        digit_text(n).to_string()
    } else {
        let front = to_decimal(n / 10);
        let last = digit_text(n % 10);
        let t = front.concat(last);
        assert(t@ =~= decimal((n / 10) as nat).push(digit_char((n % 10) as int)));
        t
    }
}

/// A character that is a decimal digit.
pub open spec fn is_digit(c: char) -> bool {
    '0' <= c && c <= '9'
}

pub open spec fn digit_value(c: char) -> int {
    c as int - 48
}

/// Why a text is no port number.
#[derive(Clone, Copy, PartialEq, Eq, Debug)]
pub enum PortError {
    Empty,
    InvalidDigit,
    TooLarge,
}

impl PortError {
    pub open spec fn text(self) -> Seq<char> {
        match self {
            PortError::Empty => "cannot parse integer from empty string"@,
            PortError::InvalidDigit => "invalid digit found in string"@,
            PortError::TooLarge => "number too large to fit in target type"@,
        }
    }

    /// The error in words.
    pub fn message(&self) -> (m: String)
        ensures
            m@ == self.text(),
    {
        match self {
            PortError::Empty => "cannot parse integer from empty string".to_string(),
            PortError::InvalidDigit => "invalid digit found in string".to_string(),
            PortError::TooLarge => "number too large to fit in target type".to_string(),
        }
    }
}

/// The digits read from the left onto `sum`: the first character that is no
/// digit, or that makes the number too large, decides.
pub open spec fn port_from(digits: Seq<char>, sum: int) -> Result<int, PortError>
    decreases digits.len(),
{
    if digits.len() == 0 {
        Ok(sum)
    } else if !is_digit(digits[0]) {
        Err(PortError::InvalidDigit)
    } else if sum * 10 + digit_value(digits[0]) > 0xffff {
        Err(PortError::TooLarge)
    } else {
        port_from(digits.skip(1), sum * 10 + digit_value(digits[0]))
    }
}

/// The port number that a text stands for: digits, with a plus sign before
/// them or not.
pub open spec fn port_of(text: Seq<char>) -> Result<int, PortError> {
    if text.len() == 0 {
        Err(PortError::Empty)
    } else if text[0] == '+' && text.len() > 1 {
        port_from(text.skip(1), 0)
    } else {
        port_from(text, 0)
    }
}

/// A port number read back from its notation is the number.
pub proof fn law_port_notation_reads_back(n: nat)
    requires
        n <= 0xffff,
    ensures
        port_of(decimal(n)) == Ok::<int, PortError>(n as int),
{
    lemma_decimal_shape(n);
    lemma_reads_on(n, Seq::empty());
    assert(decimal(n) + Seq::<char>::empty() =~= decimal(n));
}

proof fn lemma_decimal_shape(n: nat)
    ensures
        decimal(n).len() > 0,
        is_digit(decimal(n)[0]),
    decreases n,
{
    if n >= 10 {
        lemma_decimal_shape(n / 10);
    }
}

proof fn lemma_reads_on(n: nat, rest: Seq<char>)
    requires
        n <= 0xffff,
    ensures
        port_from(decimal(n) + rest, 0) == port_from(rest, n as int),
    decreases n,
{
    if n < 10 {
        let s = decimal(n) + rest;
        assert(s[0] == digit_char(n as int));
        assert(s.skip(1) =~= rest);
    } else {
        let d = digit_char((n % 10) as int);
        assert(decimal(n) + rest =~= decimal(n / 10) + (seq![d] + rest));
        lemma_reads_on(n / 10, seq![d] + rest);
        assert((seq![d] + rest).skip(1) =~= rest);
        assert((seq![d] + rest)[0] == d);
    }
}

/// Reads a port number.
pub fn parse_port(text: &str) -> (r: Result<u16, PortError>)
    ensures
        match port_of(text@) {
            Ok(n) => r matches Ok(p) && p == n,
            Err(e) => r == Err::<u16, PortError>(e),
        },
{
    let len: usize = text.unicode_len();
    if len == 0 {
        return Err(PortError::Empty);
    }
    let mut i: usize = if text.get_char(0) == '+' && len > 1 {
        1
    } else {
        0
    };
    let mut sum: u32 = 0;
    assert(text@.skip(0) =~= text@);
    while i < len
        invariant
            len == text@.len(),
            i <= len,
            sum <= 0xffff,
            port_of(text@) == port_from(text@.skip(i as int), sum as int),
        decreases len - i,
    {
        let c = text.get_char(i);
        assert(text@.skip(i as int)[0] == c);
        assert(text@.skip(i as int).skip(1) =~= text@.skip(i + 1));
        if !('0' <= c && c <= '9') {
            return Err(PortError::InvalidDigit);
        }
        sum = sum * 10 + (c as u32 - 48);
        if sum > 0xffff {
            return Err(PortError::TooLarge);
        }
        i = i + 1;
    }
    assert(text@.skip(len as int) =~= Seq::<char>::empty());
    Ok(sum as u16)
}

/// `text` begins with `prefix`.
pub fn starts_with(text: &str, prefix: &str) -> (b: bool)
    ensures
        b == prefix@.is_prefix_of(text@),
{
    let n: usize = prefix.unicode_len();
    if text.unicode_len() < n {
        return false;
    }
    let mut i: usize = 0;
    while i < n
        invariant
            i <= n,
            n == prefix@.len(),
            n <= text@.len(),
            prefix@.take(i as int) =~= text@.take(i as int),
        decreases n - i,
    {
        if text.get_char(i) != prefix.get_char(i) {
            assert(prefix@[i as int] != text@.take(n as int)[i as int]);
            return false;
        }
        assert(prefix@.take(i + 1) =~= prefix@.take(i as int).push(prefix@[i as int]));
        assert(text@.take(i + 1) =~= text@.take(i as int).push(text@[i as int]));
        i = i + 1;
    }
    assert(prefix@.take(n as int) =~= prefix@);
    assert(text@.take(n as int) =~= text@.subrange(0, n as int));
    true
}

/// A number below ten is written as its digit, and a larger one as what it
/// holds in tens followed by its last digit.
pub proof fn law_decimal_notation(n: nat, d: nat)
    requires
        d < 10,
    ensures
        decimal(d).len() == 1,
        decimal(d)[0] as int == 48 + d,
        n > 0 ==> decimal(n * 10 + d).drop_last() == decimal(n) && decimal(n * 10 + d).last() as int
            == 48 + d,
        n > 0 ==> decimal(n).len() > 0 && decimal(n)[0] != '0',
    decreases n,
{
    let m = n * 10 + d;
    assert(m / 10 == n && m % 10 == d);
    assert(decimal(n).push(digit_char(d as int)).drop_last() =~= decimal(n));
    if n >= 10 {
        law_decimal_notation(n / 10, n % 10);
        lemma_decimal_shape(n / 10);
    }
}

/// Different numbers are written differently.
pub proof fn law_decimal_notation_tells_apart(m: nat, n: nat)
    requires
        decimal(m) == decimal(n),
    ensures
        m == n,
    decreases m,
{
    lemma_decimal_shape(m / 10);
    lemma_decimal_shape(n / 10);
    law_decimal_notation(m / 10, m % 10);
    law_decimal_notation(n / 10, n % 10);
    if m < 10 && n < 10 {
        assert(decimal(m)[0] == decimal(n)[0]);
    } else if m >= 10 && n >= 10 {
        assert(decimal(m).drop_last() =~= decimal(m / 10));
        assert(decimal(n).drop_last() =~= decimal(n / 10));
        law_decimal_notation_tells_apart(m / 10, n / 10);
        assert(decimal(m).last() as int == decimal(n).last() as int);
        assert(m == m / 10 * 10 + m % 10);
        assert(n == n / 10 * 10 + n % 10);
    }
}

proof fn lemma_one_more(digits: Seq<char>, c: char, sum: int)
    ensures
        port_from(digits.push(c), sum) == match port_from(digits, sum) {
            Err(e) => Err(e),
            Ok(n) => if !is_digit(c) {
                Err(PortError::InvalidDigit)
            } else if n * 10 + digit_value(c) > 0xffff {
                Err(PortError::TooLarge)
            } else {
                Ok(n * 10 + digit_value(c))
            },
        },
    decreases digits.len(),
{
    reveal_with_fuel(port_from, 2);
    let longer = digits.push(c);
    if digits.len() == 0 {
        assert(longer.skip(1) =~= Seq::<char>::empty());
    } else {
        assert(longer.skip(1) =~= digits.skip(1).push(c));
        assert(longer[0] == digits[0]);
        if is_digit(digits[0]) && sum * 10 + digit_value(digits[0]) <= 0xffff {
            lemma_one_more(digits.skip(1), c, sum * 10 + digit_value(digits[0]));
        }
    }
}

/// One character more on a port number: a digit makes the number ten times as
/// large and adds itself, up to 65535, and is too much past that; any other
/// character is no digit. What was wrong stays wrong, except for a plus sign
/// alone, which may stand before digits.
pub proof fn law_port_grows_by_digits(text: Seq<char>, c: char)
    ensures
        text.len() == 0 ==> port_of(text) == Err::<int, PortError>(PortError::Empty),
        text.len() == 0 || text == seq!['+'] ==> port_of(text.push(c)) == if '0' <= c && c <= '9' {
            Ok::<int, PortError>(c as int - 48)
        } else {
            Err::<int, PortError>(PortError::InvalidDigit)
        },
        text.len() > 0 && text != seq!['+'] ==> port_of(text.push(c)) == match port_of(text) {
            Err(e) => Err::<int, PortError>(e),
            Ok(n) => if !('0' <= c && c <= '9') {
                Err(PortError::InvalidDigit)
            } else if n * 10 + (c as int - 48) > 65535 {
                Err(PortError::TooLarge)
            } else {
                Ok(n * 10 + (c as int - 48))
            },
        },
{
    reveal_with_fuel(port_from, 2);
    let longer = text.push(c);
    if text.len() == 0 {
        assert(longer.skip(1) =~= Seq::<char>::empty());
    } else if text[0] == '+' {
        assert(longer.skip(1) =~= text.skip(1).push(c));
        if text.len() == 1 {
            assert(text =~= seq!['+']);
            assert(text.skip(1) =~= Seq::<char>::empty());
        }
        lemma_one_more(text.skip(1), c, 0);
    } else {
        assert(text[0] != seq!['+'][0]);
        lemma_one_more(text, c, 0);
    }
}

/// A port number is what a listener can be bound to: it is never below nought
/// and never above 65535.
pub proof fn law_ports_fit(text: Seq<char>)
    ensures
        port_of(text) matches Ok(n) ==> 0 <= n <= 65535,
{
    if text.len() > 0 && text[0] == '+' && text.len() > 1 {
        lemma_port_fits(text.skip(1), 0);
    } else {
        lemma_port_fits(text, 0);
    }
}

proof fn lemma_port_fits(digits: Seq<char>, sum: int)
    requires
        0 <= sum <= 65535,
    ensures
        port_from(digits, sum) matches Ok(n) ==> 0 <= n <= 65535,
    decreases digits.len(),
{
    if digits.len() > 0 && is_digit(digits[0]) && sum * 10 + digit_value(digits[0]) <= 0xffff {
        lemma_port_fits(digits.skip(1), sum * 10 + digit_value(digits[0]));
    }
}

/// What is said of a text that is no port number.
pub proof fn law_port_errors_in_words()
    ensures
        PortError::Empty.text() == "cannot parse integer from empty string"@,
        PortError::InvalidDigit.text() == "invalid digit found in string"@,
        PortError::TooLarge.text() == "number too large to fit in target type"@,
{
}

} // verus!
