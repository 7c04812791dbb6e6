//! Text: characters in and out of strings, and numbers in decimal notation.

use vstd::prelude::*;

verus! {

/// `String::push` of the standard library appends one character to the end
/// of the string and leaves what stood before it as it was.
pub assume_specification[ String::push ](s: &mut String, ch: char)
    ensures
        final(s)@ == old(s)@.push(ch),
;

/// The characters of a string.
pub fn to_chars(s: &str) -> (chars: Vec<char>)
    ensures
        chars@ == s@,
{
    let mut chars: Vec<char> = Vec::new();
    for c in it: s.chars()
        invariant
            it.seq() == s@,
            chars@ == s@.take(it.index() as int),
    {
        chars.push(c);
        assert(s@.take(it.index() + 1) =~= s@.take(it.index() as int).push(c));
    }
    assert(s@.take(s@.len() as int) =~= s@);
    chars
}

/// The string made of the given characters.
pub fn from_chars(chars: &Vec<char>) -> (s: String)
    ensures
        s@ == chars@,
{
    let mut s = String::new();
    let mut i: usize = 0;
    while i < chars.len()
        invariant
            i <= chars@.len(),
            s@ == chars@.take(i as int),
        decreases chars@.len() - i,
    {
        s.push(chars[i]);
        assert(chars@.take(i + 1) =~= chars@.take(i as int).push(chars@[i as int]));
        i += 1;
    }
    assert(chars@.take(chars@.len() as int) =~= chars@);
    s
}

/// The character that writes a digit.
pub open spec fn digit_char(d: nat) -> char {
    if d == 0 {
        '0'
    } else if d == 1 {
        '1'
    } else if d == 2 {
        '2'
    } else if d == 3 {
        '3'
    } else if d == 4 {
        '4'
    } else if d == 5 {
        '5'
    } else if d == 6 {
        '6'
    } else if d == 7 {
        '7'
    } else if d == 8 {
        '8'
    } else {
        '9'
    }
}

/// The digit that a character writes, if it writes one.
pub open spec fn digit_value(c: char) -> Option<nat> {
    if '0' <= c <= '9' {
        Some((c as nat - '0' as nat) as nat)
    } else {
        None
    }
}

/// A number in decimal notation, without leading zeros.
pub open spec fn decimal(n: nat) -> Seq<char>
    decreases n,
{
    if n < 10 {
        seq![digit_char(n)]
    } else {
        decimal(n / 10).push(digit_char(n % 10))
    }
}

fn digit_of(d: u64) -> (c: char)
    requires
        d < 10,
    ensures
        c == digit_char(d as nat),
        digit_value(c) == Some(d as nat),
{
    match d {
        0 => '0',
        1 => '1',
        2 => '2',
        3 => '3',
        4 => '4',
        5 => '5',
        6 => '6',
        7 => '7',
        8 => '8',
        _ => '9',
    }
}

/// Appends a number in decimal notation.
pub fn push_decimal(out: &mut Vec<char>, n: u64)
    ensures
        final(out)@ == old(out)@ + decimal(n as nat),
    decreases n,
{
    if n >= 10 {
        push_decimal(out, n / 10);
    }
    out.push(digit_of(n % 10));
    assert(out@ =~= old(out)@ + decimal(n as nat));
}

/// Appends the characters of a string.
pub fn push_str(out: &mut Vec<char>, s: &str)
    ensures
        final(out)@ == old(out)@ + s@,
{
    for c in it: s.chars()
        invariant
            it.seq() == s@,
            out@ == old(out)@ + s@.take(it.index() as int),
    {
        out.push(c);
        assert(s@.take(it.index() + 1) =~= s@.take(it.index() as int).push(c));
    }
    assert(s@.take(s@.len() as int) =~= s@);
}

/// Why a text is not a number that fits a machine word.
#[derive(Clone, Copy, Debug, PartialEq, Eq, Structural)]
pub enum NumberError {
    /// There is nothing to read.
    Empty,
    /// A character is not a digit, or a sign stands alone.
    InvalidDigit,
    /// The digits name a number above the largest machine word.
    TooLarge,
}

impl NumberError {
    /// What the error says.
    pub open spec fn text(self) -> Seq<char> {
        match self {
            NumberError::Empty => "cannot parse integer from empty string"@,
            NumberError::InvalidDigit => "invalid digit found in string"@,
            NumberError::TooLarge => "number too large to fit in target type"@,
        }
    }

    pub fn as_str(&self) -> (s: &'static str)
        ensures
            s@ == self.text(),
    {
        match self {
            NumberError::Empty => "cannot parse integer from empty string",
            NumberError::InvalidDigit => "invalid digit found in string",
            NumberError::TooLarge => "number too large to fit in target type",
        }
    }

    pub fn to_string(&self) -> (s: String)
        ensures
            s@ == self.text(),
    {
        self.as_str().to_owned()
    }
}

/// White space: the characters that are trimmed from the ends of a field.
pub open spec fn is_space(c: char) -> bool {
    let code = c as u32;
    ||| 0x09 <= code <= 0x0d
    ||| code == 0x20
    ||| code == 0x85
    ||| code == 0xa0
    ||| code == 0x1680
    ||| 0x2000 <= code <= 0x200a
    ||| code == 0x2028
    ||| code == 0x2029
    ||| code == 0x202f
    ||| code == 0x205f
    ||| code == 0x3000
}

/// How many characters at the start of `s` are white space.
pub open spec fn leading_spaces(s: Seq<char>) -> nat
    decreases s.len(),
{
    if s.len() > 0 && is_space(s[0]) {
        1 + leading_spaces(s.drop_first())
    } else {
        0
    }
}

/// How many characters at the end of `s` are white space.
pub open spec fn trailing_spaces(s: Seq<char>) -> nat
    decreases s.len(),
{
    if s.len() > 0 && is_space(s.last()) {
        1 + trailing_spaces(s.drop_last())
    } else {
        0
    }
}

/// `s` without the white space at its start and at its end.
pub open spec fn trim(s: Seq<char>) -> Seq<char> {
    let rest = s.skip(leading_spaces(s) as int);
    rest.take(rest.len() - trailing_spaces(rest))
}

/// The number that a row of digits writes, read from the left: the first
/// character that is no digit, or the first digit with which the number
/// outgrows a machine word, decides the error.
pub open spec fn digits_value(digits: Seq<char>) -> Result<nat, NumberError>
    decreases digits.len(),
{
    if digits.len() == 0 {
        Ok(0)
    } else {
        match digits_value(digits.drop_last()) {
            Err(e) => Err(e),
            Ok(before) => match digit_value(digits.last()) {
                None => Err(NumberError::InvalidDigit),
                Some(d) => if before * 10 + d > usize::MAX {
                    Err(NumberError::TooLarge)
                } else {
                    Ok(before * 10 + d)
                },
            },
        }
    }
}

/// The number that `s` writes: digits, with one `+` before them at most.
pub open spec fn number(s: Seq<char>) -> Result<nat, NumberError> {
    if s.len() == 0 {
        Err(NumberError::Empty)
    } else if s.len() == 1 && (s[0] == '+' || s[0] == '-') {
        Err(NumberError::InvalidDigit)
    } else if s[0] == '+' {
        digits_value(s.skip(1))
    } else {
        digits_value(s)
    }
}

fn is_whitespace(c: char) -> (space: bool)
    ensures
        space == is_space(c),
{
    let code = c as u32;
    (0x09 <= code && code <= 0x0d) || code == 0x20 || code == 0x85 || code == 0xa0 || code == 0x1680
        || (0x2000 <= code && code <= 0x200a) || code == 0x2028 || code == 0x2029 || code == 0x202f
        || code == 0x205f || code == 0x3000
}

fn digit_at(c: char) -> (d: Option<usize>)
    ensures
        match d {
            Some(v) => digit_value(c) == Some(v as nat) && v < 10,
            None => digit_value(c) is None,
        },
{
    if '0' <= c && c <= '9' {
        Some((c as u32 - '0' as u32) as usize)
    } else {
        None
    }
}

/// Sets the white space at both ends of a stretch of `s` aside: returns
/// where what is left begins and ends.
pub fn trim_range(s: &Vec<char>, from: usize, to: usize) -> (bounds: (usize, usize))
    requires
        from <= to <= s@.len(),
    ensures
        from <= bounds.0 <= bounds.1 <= to,
        s@.subrange(bounds.0 as int, bounds.1 as int) == trim(s@.subrange(from as int, to as int)),
{
    let ghost field = s@.subrange(from as int, to as int);
    let mut start = from;
    while start < to && is_whitespace(s[start])
        invariant
            from <= start <= to <= s@.len(),
            field == s@.subrange(from as int, to as int),
            leading_spaces(field) == (start - from) + leading_spaces(s@.subrange(start as int, to as int)),
        decreases to - start,
    {
        assert(s@.subrange(start as int, to as int).drop_first() =~= s@.subrange(start + 1, to as int));
        start += 1;
    }
    let ghost rest = s@.subrange(start as int, to as int);
    assert(rest =~= field.skip(leading_spaces(field) as int));
    let mut end = to;
    while start < end && is_whitespace(s[end - 1])
        invariant
            start <= end <= to <= s@.len(),
            rest == s@.subrange(start as int, to as int),
            trailing_spaces(rest) == (to - end) + trailing_spaces(s@.subrange(start as int, end as int)),
        decreases end - start,
    {
        assert(s@.subrange(start as int, end as int).drop_last() =~= s@.subrange(start as int, end - 1));
        end -= 1;
    }
    assert(s@.subrange(start as int, end as int) =~= trim(field));
    (start, end)
}

/// Reads the number that a row of digits in `s` writes.
fn read_digits(s: &Vec<char>, from: usize, to: usize) -> (read: Result<usize, NumberError>)
    requires
        from <= to <= s@.len(),
    ensures
        match read {
            Ok(n) => digits_value(s@.subrange(from as int, to as int)) == Ok::<nat, NumberError>(n as nat),
            Err(e) => digits_value(s@.subrange(from as int, to as int)) == Err::<nat, NumberError>(e),
        },
{
    let ghost digits = s@.subrange(from as int, to as int);
    let mut value: usize = 0;
    let mut i = from;
    while i < to
        invariant
            from <= i <= to <= s@.len(),
            digits == s@.subrange(from as int, to as int),
            digits_value(digits.take(i - from)) == Ok::<nat, NumberError>(value as nat),
        decreases to - i,
    {
        proof {
            assert(digits.take(i + 1 - from).drop_last() =~= digits.take(i - from));
            assert(digits.take(i + 1 - from).last() == s@[i as int]);
        }
        let next = match digit_at(s[i]) {
            Some(digit) => match value.checked_mul(10) {
                Some(tens) => match tens.checked_add(digit) {
                    Some(sum) => Ok(sum),
                    None => Err(NumberError::TooLarge),
                },
                None => Err(NumberError::TooLarge),
            },
            None => Err(NumberError::InvalidDigit),
        };
        match next {
            Ok(sum) => {
                value = sum;
            },
            Err(e) => {
                proof {
                    lemma_digits_error_stays(digits, i + 1 - from);
                }
                return Err(e);
            },
        }
        i += 1;
    }
    assert(digits.take(to - from) =~= digits);
    Ok(value)
}

/// Reads the number that the characters of `s` from `from` up to `to` write.
pub fn read_number(s: &Vec<char>, from: usize, to: usize) -> (read: Result<usize, NumberError>)
    requires
        from <= to <= s@.len(),
    ensures
        match read {
            Ok(n) => number(s@.subrange(from as int, to as int)) == Ok::<nat, NumberError>(n as nat),
            Err(e) => number(s@.subrange(from as int, to as int)) == Err::<nat, NumberError>(e),
        },
{
    if from == to {
        return Err(NumberError::Empty);
    }
    let first = s[from];
    if to - from == 1 && (first == '+' || first == '-') {
        return Err(NumberError::InvalidDigit);
    }
    if first == '+' {
        assert(s@.subrange(from + 1, to as int) =~= s@.subrange(from as int, to as int).skip(1));
        read_digits(s, from + 1, to)
    } else {
        read_digits(s, from, to)
    }
}

/// Once the digits up to some place have failed, the whole row fails in
/// the same way.
proof fn lemma_digits_error_stays(digits: Seq<char>, upto: int)
    requires
        0 <= upto <= digits.len(),
        digits_value(digits.take(upto)) is Err,
    ensures
        digits_value(digits) == digits_value(digits.take(upto)),
    decreases digits.len() - upto,
{
    if upto < digits.len() {
        assert(digits.take(upto + 1).drop_last() =~= digits.take(upto));
        lemma_digits_error_stays(digits, upto + 1);
    } else {
        assert(digits.take(upto) =~= digits);
    }
}

/// Decimal notation is made of digits, one at least.
pub proof fn lemma_decimal_digits(n: nat)
    ensures
        decimal(n).len() > 0,
        forall|i: int| 0 <= i < decimal(n).len() ==> '0' <= #[trigger] decimal(n)[i] <= '9',
    decreases n,
{
    if n >= 10 {
        lemma_decimal_digits(n / 10);
    }
}

/// A number that fits a machine word is read back from its decimal
/// notation, with or without white space around it.
pub proof fn lemma_decimal_round_trip(n: nat)
    requires
        n <= usize::MAX,
    ensures
        trim(decimal(n)) == decimal(n),
        number(decimal(n)) == Ok::<nat, NumberError>(n),
{
    let d = decimal(n);
    lemma_decimal_digits(n);
    assert(!is_space(d[0]));
    assert(!is_space(d.last()));
    assert(d.skip(0) =~= d);
    assert(d.take(d.len() as int) =~= d);
    lemma_decimal_value(n);
}

proof fn lemma_decimal_value(n: nat)
    requires
        n <= usize::MAX,
    ensures
        digits_value(decimal(n)) == Ok::<nat, NumberError>(n),
    decreases n,
{
    let d = decimal(n);
    if n < 10 {
        assert(d.drop_last() =~= Seq::<char>::empty());
        assert(digits_value(d.drop_last()) == Ok::<nat, NumberError>(0));
        assert(digit_value(d.last()) == Some(n));
    } else {
        lemma_decimal_value(n / 10);
        assert(d.drop_last() =~= decimal(n / 10));
        assert(digit_value(d.last()) == Some(n % 10));
    }
}

} // verus!
