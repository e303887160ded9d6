//! Building and cutting text.
use vstd::prelude::*;

verus! {

/// The decimal digits of `n`, without leading zeros.
pub open spec fn decimal(n: nat) -> Seq<char>
    decreases n,
{
    if n < 10 {
        seq![digit(n)]
    } else {
        decimal(n / 10).push(digit(n % 10))
    }
}

/// The character of one decimal digit.
pub open spec fn digit(d: nat) -> char {
    (('0' as u32 + d) as u32) as char
}

/// `count` copies of `unit`, one behind the other.
pub open spec fn repeated(unit: Seq<char>, count: nat) -> Seq<char>
    decreases count,
{
    if count == 0 {
        Seq::empty()
    } else {
        repeated(unit, (count - 1) as nat) + unit
    }
}

/// All parts, one behind the other.
pub open spec fn joined(parts: Seq<Seq<char>>) -> Seq<char>
    decreases parts.len(),
{
    if parts.len() == 0 {
        Seq::empty()
    } else {
        joined(parts.drop_last()) + parts.last()
    }
}

fn digit_text(d: u64) -> (r: &'static str)
    requires
        d < 10,
    ensures
        r@ == seq![digit(d as nat)],
{
    proof {
        reveal_strlit("0");
        reveal_strlit("1");
        reveal_strlit("2");
        reveal_strlit("3");
        reveal_strlit("4");
        reveal_strlit("5");
        reveal_strlit("6");
        reveal_strlit("7");
        reveal_strlit("8");
        reveal_strlit("9");
    }
    match d {
        0 => "0",
        1 => "1",
        2 => "2",
        3 => "3",
        4 => "4",
        5 => "5",
        6 => "6",
        7 => "7",
        8 => "8",
        _ => "9",
    }
}

/// Appends the decimal digits of `n`.
pub fn push_decimal(s: &mut String, n: u128)
    ensures
        final(s)@ == old(s)@ + decimal(n as nat),
    decreases n,
{
    if n >= 10 {
        push_decimal(s, n / 10);
    }
    s.append(digit_text((n % 10) as u64));
}

/// The decimal digits of `n` as a string.
pub fn decimal_text(n: u128) -> (r: String)
    ensures
        r@ == decimal(n as nat),
{
    let mut s = String::new();
    push_decimal(&mut s, n);
    s
}

/// Appends `unit` the given number of times.
pub fn push_repeated(s: &mut String, unit: &str, count: usize)
    ensures
        final(s)@ == old(s)@ + repeated(unit@, count as nat),
{
    let mut i: usize = 0;
    while i < count
        invariant
            i <= count,
            s@ == old(s)@ + repeated(unit@, i as nat),
        decreases count - i,
    {
        s.append(unit);
        i = i + 1;
    }
}

/// Whether two texts are the same.
pub fn same_text(a: &str, b: &str) -> (r: bool)
    ensures
        r == (a@ == b@),
{
    a.to_owned() == b.to_owned()
}

/// The text that an optional string holds.
pub open spec fn text_of(s: Option<String>) -> Option<Seq<char>> {
    match s {
        Some(s) => Some(s@),
        None => None,
    }
}

/// Appends one character.
///
/// Calls `String::push` of std, which appends its argument to the end of the
/// string and leaves the rest as it is.
#[verifier::external_body]
pub(crate) fn push_char(s: &mut String, c: char)
    ensures
        final(s)@ == old(s)@.push(c),
{
    s.push(c)
}

/// The characters of a text.
pub fn chars_of(s: &str) -> (r: Vec<char>)
    ensures
        r@ == s@,
{
    let mut found: Vec<char> = Vec::new();
    for c in it: s.chars()
        invariant
            found@ == it.seq().take(it.index() as int),
            it.seq() == s@,
    {
        found.push(c);
        assert(found@ =~= it.seq().take(it.index() + 1));
    }
    assert(found@ =~= s@);
    found
}

/// Unicode white space.
pub open spec fn is_space(c: char) -> bool {
    let n = c as u32;
    ||| 0x9 <= n <= 0xd
    ||| n == 0x20
    ||| n == 0x85
    ||| n == 0xa0
    ||| n == 0x1680
    ||| 0x2000 <= n <= 0x200a
    ||| n == 0x2028
    ||| n == 0x2029
    ||| n == 0x202f
    ||| n == 0x205f
    ||| n == 0x3000
}

/// Whether a character is white space.
pub fn is_space_char(c: char) -> (r: bool)
    ensures
        r == is_space(c),
{
    let n: u32 = c as u32;
    (0x9 <= n && n <= 0xd) || n == 0x20 || n == 0x85 || n == 0xa0 || n == 0x1680 || (0x2000 <= n
        && n <= 0x200a) || n == 0x2028 || n == 0x2029 || n == 0x202f || n == 0x205f || n == 0x3000
}

/// `s` without the white space at its start.
pub open spec fn trimmed_start(s: Seq<char>) -> Seq<char>
    decreases s.len(),
{
    if s.len() > 0 && is_space(s[0]) {
        trimmed_start(s.skip(1))
    } else {
        s
    }
}

/// `s` without the white space at its end.
pub open spec fn trimmed_end(s: Seq<char>) -> Seq<char>
    decreases s.len(),
{
    if s.len() > 0 && is_space(s.last()) {
        trimmed_end(s.drop_last())
    } else {
        s
    }
}

/// `s` without the white space at both ends.
pub open spec fn trimmed(s: Seq<char>) -> Seq<char> {
    trimmed_end(trimmed_start(s))
}

/// A text without the white space at both ends.
pub fn trim<'a>(s: &'a str) -> (r: &'a str)
    ensures
        r@ == trimmed(s@),
{
    let chars = chars_of(s);
    let mut from: usize = 0;
    assert(s@.skip(0) =~= s@);
    while from < chars.len() && is_space_char(chars[from])
        invariant
            from <= chars.len(),
            chars@ == s@,
            trimmed_start(s@.skip(from as int)) == trimmed_start(s@),
        decreases chars.len() - from,
    {
        assert(s@.skip(from as int).skip(1) =~= s@.skip(from + 1));
        from = from + 1;
    }
    let ghost start = s@.skip(from as int);
    assert(trimmed_start(s@) == start);
    let mut to: usize = chars.len();
    assert(start =~= s@.subrange(from as int, to as int));
    while to > from && is_space_char(chars[to - 1])
        invariant
            from <= to <= chars.len(),
            chars@ == s@,
            trimmed_end(s@.subrange(from as int, to as int)) == trimmed_end(start),
        decreases to,
    {
        assert(s@.subrange(from as int, to as int).drop_last() =~= s@.subrange(
            from as int,
            to - 1,
        ));
        to = to - 1;
    }
    s.substring_char(from, to)
}

/// The parts of `s` between the characters on which `cut` holds, empty parts
/// included.
pub open spec fn parts(s: Seq<char>, cut: spec_fn(char) -> bool) -> Seq<Seq<char>>
    decreases s.len(),
{
    if s.len() == 0 {
        seq![Seq::empty()]
    } else {
        let before = parts(s.drop_last(), cut);
        if cut(s.last()) {
            before.push(Seq::empty())
        } else {
            before.drop_last().push(before.last().push(s.last()))
        }
    }
}

pub open spec fn nonempty() -> spec_fn(Seq<char>) -> bool {
    |part: Seq<char>| part.len() > 0
}

/// White space.
pub open spec fn spaces() -> spec_fn(char) -> bool {
    |c: char| is_space(c)
}

/// The end of a line.
pub open spec fn line_ends() -> spec_fn(char) -> bool {
    |c: char| c == '\n'
}

/// A blank or the end of a line.
pub open spec fn blanks() -> spec_fn(char) -> bool {
    |c: char| c == ' ' || c == '\n'
}

/// Which characters part a text.
#[derive(Debug, Clone, Copy, PartialEq, Eq, Structural)]
pub enum Cut {
    Spaces,
    LineEnds,
    Blanks,
}

impl Cut {
    pub open spec fn at(self) -> spec_fn(char) -> bool {
        match self {
            Cut::Spaces => spaces(),
            Cut::LineEnds => line_ends(),
            Cut::Blanks => blanks(),
        }
    }

    fn holds(&self, c: char) -> (r: bool)
        ensures
            r == (self.at())(c),
    {
        match self {
            Cut::Spaces => is_space_char(c),
            Cut::LineEnds => c == '\n',
            Cut::Blanks => c == ' ' || c == '\n',
        }
    }
}

/// The non-empty parts of a text.
pub open spec fn fields(s: Seq<char>, cut: Cut) -> Seq<Seq<char>> {
    parts(s, cut.at()).filter(nonempty())
}

pub open spec fn views(found: Seq<&str>) -> Seq<Seq<char>> {
    found.map_values(|part: &str| part@)
}

proof fn lemma_filter_push(done: Seq<Seq<char>>, part: Seq<char>)
    ensures
        done.push(part).filter(nonempty()) == if part.len() > 0 {
            done.filter(nonempty()).push(part)
        } else {
            done.filter(nonempty())
        },
{
    reveal(Seq::filter);
    assert(done.push(part).drop_last() =~= done);
}

/// The non-empty parts of a text.
pub fn split_fields<'a>(s: &'a str, cut: Cut) -> (r: Vec<&'a str>)
    ensures
        views(r@) == fields(s@, cut),
{
    let chars = chars_of(s);
    let mut found: Vec<&'a str> = Vec::new();
    let mut from: usize = 0;
    let mut i: usize = 0;
    let ghost mut done: Seq<Seq<char>> = Seq::empty();
    proof {
        reveal(Seq::filter);
        assert(s@.take(0) =~= Seq::empty());
        assert(done.push(s@.subrange(0, 0)) =~= parts(s@.take(0), cut.at()));
        assert(views(found@) =~= done.filter(nonempty()));
    }
    while i < chars.len()
        invariant
            from <= i <= chars.len(),
            chars@ == s@,
            parts(s@.take(i as int), cut.at()) == done.push(s@.subrange(from as int, i as int)),
            views(found@) == done.filter(nonempty()),
        decreases chars.len() - i,
    {
        let ghost part = s@.subrange(from as int, i as int);
        let ghost next = s@.take(i + 1);
        assert(next.drop_last() =~= s@.take(i as int));
        assert(next.last() == s@[i as int]);
        assert(done.push(part).drop_last() =~= done);
        if cut.holds(chars[i]) {
            proof {
                lemma_filter_push(done, part);
            }
            if from < i {
                let ghost before = views(found@);
                let text: &'a str = s.substring_char(from, i);
                found.push(text);
                assert(views(found@) =~= before.push(part));
            }
            proof {
                done = done.push(part);
                assert(s@.subrange(i + 1, i + 1) =~= Seq::empty());
            }
            from = i + 1;
        } else {
            assert(s@.subrange(from as int, i + 1) =~= part.push(s@[i as int]));
        }
        i = i + 1;
    }
    assert(s@.take(i as int) =~= s@);
    let ghost part = s@.subrange(from as int, i as int);
    proof {
        lemma_filter_push(done, part);
    }
    if from < i {
        let ghost before = views(found@);
        let text: &'a str = s.substring_char(from, i);
        found.push(text);
        assert(views(found@) =~= before.push(part));
    }
    found
}

/// Whether `part` stands in `s` at position `from`.
pub open spec fn stands_at(s: Seq<char>, from: int, part: Seq<char>) -> bool {
    0 <= from && from + part.len() <= s.len() && s.subrange(from, from + part.len() as int) == part
}

fn stands_at_chars(s: &Vec<char>, from: usize, part: &Vec<char>) -> (r: bool)
    requires
        from <= s.len(),
    ensures
        r == stands_at(s@, from as int, part@),
{
    if s.len() - from < part.len() {
        return false;
    }
    let mut i: usize = 0;
    while i < part.len()
        invariant
            i <= part.len(),
            from + part.len() <= s.len(),
            forall|j: int| 0 <= j < i ==> s@[from + j] == part@[j],
        decreases part.len() - i,
    {
        if s[from + i] != part[i] {
            assert(s@.subrange(from as int, from + part@.len())[i as int] != part@[i as int]);
            return false;
        }
        i = i + 1;
    }
    assert(s@.subrange(from as int, from + part@.len()) =~= part@);
    true
}

/// Whether a text begins with `prefix`.
pub fn starts_with(s: &str, prefix: &str) -> (r: bool)
    ensures
        r == stands_at(s@, 0, prefix@),
{
    stands_at_chars(&chars_of(s), 0, &chars_of(prefix))
}

/// What stands in a text behind `prefix`, where it begins with it.
pub fn strip_prefix<'a>(s: &'a str, prefix: &str) -> (r: Option<&'a str>)
    ensures
        r is Some <==> stands_at(s@, 0, prefix@),
        r matches Some(rest) ==> rest@ == s@.skip(prefix@.len() as int),
{
    let chars = chars_of(s);
    let head = chars_of(prefix);
    if stands_at_chars(&chars, 0, &head) {
        let rest = s.substring_char(head.len(), chars.len());
        assert(rest@ =~= s@.skip(prefix@.len() as int));
        Some(rest)
    } else {
        None
    }
}

/// Whether `part` stands anywhere in `s`.
pub open spec fn holds_text(s: Seq<char>, part: Seq<char>) -> bool {
    exists|i: int| #[trigger] stands_at(s, i, part)
}

/// Whether `part` stands anywhere in `s`.
pub fn contains_text(s: &str, part: &str) -> (r: bool)
    ensures
        r == holds_text(s@, part@),
{
    let chars = chars_of(s);
    let wanted = chars_of(part);
    let mut i: usize = 0;
    while i < chars.len()
        invariant
            i <= chars.len(),
            chars@ == s@,
            wanted@ == part@,
            forall|j: int| 0 <= j < i ==> !(#[trigger] stands_at(s@, j, part@)),
        decreases chars.len() - i,
    {
        if stands_at_chars(&chars, i, &wanted) {
            return true;
        }
        i = i + 1;
    }
    let r = stands_at_chars(&chars, i, &wanted);
    proof {
        if !r {
            assert forall|j: int| !(#[trigger] stands_at(s@, j, part@)) by {
                if j > i {
                    assert(j + part@.len() > s@.len());
                }
            }
        }
    }
    r
}

pub open spec fn is_digit(c: char) -> bool {
    '0' <= c <= '9'
}

pub open spec fn all_digits(s: Seq<char>) -> bool {
    forall|i: int| 0 <= i < s.len() ==> is_digit(#[trigger] s[i])
}

/// The number that a row of decimal digits stands for.
pub open spec fn digits_value(s: Seq<char>) -> nat
    decreases s.len(),
{
    if s.len() == 0 {
        0
    } else {
        digits_value(s.drop_last()) * 10 + (s.last() as nat - '0' as nat) as nat
    }
}

/// A number as it is written: decimal digits, perhaps behind one plus sign.
pub open spec fn digits_of(s: Seq<char>) -> Seq<char> {
    if s.len() > 1 && s[0] == '+' {
        s.skip(1)
    } else {
        s
    }
}

/// The number that a text holds, where it holds one of at most `max`.
pub open spec fn parsed(s: Seq<char>, max: nat) -> Option<nat> {
    let digits = digits_of(s);
    if digits.len() > 0 && all_digits(digits) && digits_value(digits) <= max {
        Some(digits_value(digits))
    } else {
        None
    }
}

proof fn lemma_digits_value_grows(s: Seq<char>, i: int)
    requires
        0 <= i <= s.len(),
    ensures
        digits_value(s.take(i)) <= digits_value(s),
    decreases s.len() - i,
{
    if i < s.len() {
        lemma_digits_value_grows(s, i + 1);
        assert(s.take(i + 1).drop_last() =~= s.take(i));
    } else {
        assert(s.take(i) =~= s);
    }
}

/// Why a text holds no number.
#[derive(Debug, Clone, Copy, PartialEq, Eq, Structural)]
pub enum NumberFault {
    Empty,
    InvalidDigit,
    TooLarge,
}

/// What is wrong with the first digit from the left at which something is.
pub open spec fn first_fault(digits: Seq<char>, max: nat) -> Option<NumberFault>
    decreases digits.len(),
{
    if digits.len() == 0 {
        None
    } else {
        match first_fault(digits.drop_last(), max) {
            Some(fault) => Some(fault),
            None => if !is_digit(digits.last()) {
                Some(NumberFault::InvalidDigit)
            } else if digits_value(digits) > max {
                Some(NumberFault::TooLarge)
            } else {
                None
            },
        }
    }
}

/// Why a text holds no number of at most `max`, where it holds none.
pub open spec fn number_fault(s: Seq<char>, max: nat) -> Option<NumberFault> {
    if digits_of(s).len() == 0 {
        Some(NumberFault::Empty)
    } else {
        first_fault(digits_of(s), max)
    }
}

proof fn lemma_fault_stays(digits: Seq<char>, max: nat, i: int)
    requires
        0 <= i <= digits.len(),
        first_fault(digits.take(i), max) is Some,
    ensures
        first_fault(digits, max) == first_fault(digits.take(i), max),
    decreases digits.len() - i,
{
    if i < digits.len() {
        assert(digits.take(i + 1).drop_last() =~= digits.take(i));
        lemma_fault_stays(digits, max, i + 1);
    } else {
        assert(digits.take(i) =~= digits);
    }
}

proof fn lemma_no_fault(digits: Seq<char>, max: nat)
    ensures
        first_fault(digits, max) is None <==> all_digits(digits) && digits_value(digits) <= max,
    decreases digits.len(),
{
    if digits.len() > 0 {
        let front = digits.drop_last();
        lemma_no_fault(front, max);
        assert(forall|i: int| 0 <= i < front.len() ==> front[i] == digits[i]);
        assert(digits[digits.len() - 1] == digits.last());
        if all_digits(digits) {
            assert(all_digits(front));
        } else if all_digits(front) && is_digit(digits.last()) {
            assert forall|i: int| 0 <= i < digits.len() implies is_digit(#[trigger] digits[i]) by {
                if i < front.len() {
                    assert(is_digit(front[i]));
                }
            }
        }
    }
}

/// The number of at most 64 bits that a text holds, or why it holds none.
pub fn parse_number(s: &str) -> (r: Result<u64, NumberFault>)
    ensures
        match r {
            Ok(n) => parsed(s@, u64::MAX as nat) == Some(n as nat),
            Err(fault) => parsed(s@, u64::MAX as nat) is None && number_fault(s@, u64::MAX as nat)
                == Some(fault),
        },
{
    let chars = chars_of(s);
    let from: usize = if chars.len() > 1 && chars[0] == '+' {
        1
    } else {
        0
    };
    let ghost digits = digits_of(s@);
    assert(digits =~= s@.skip(from as int));
    if from == chars.len() {
        return Err(NumberFault::Empty);
    }
    let mut value: u64 = 0;
    let mut i: usize = from;
    proof {
        lemma_no_fault(digits, u64::MAX as nat);
        assert(digits.take(0) =~= Seq::empty());
    }
    while i < chars.len()
        invariant
            from <= i <= chars.len(),
            chars@ == s@,
            digits == s@.skip(from as int),
            digits == digits_of(s@),
            digits.len() > 0,
            first_fault(digits, u64::MAX as nat) is None <==> parsed(s@, u64::MAX as nat) is Some,
            value == digits_value(digits.take(i - from)),
            first_fault(digits.take(i - from), u64::MAX as nat) is None,
        decreases chars.len() - i,
    {
        let c = chars[i];
        let ghost part = digits.take(i + 1 - from);
        proof {
            assert(part.drop_last() =~= digits.take(i - from));
            assert(part.last() == c);
        }
        if !('0' <= c && c <= '9') {
            proof {
                lemma_fault_stays(digits, u64::MAX as nat, i + 1 - from);
            }
            return Err(NumberFault::InvalidDigit);
        }
        let next: u128 = value as u128 * 10 + (c as u128 - '0' as u128);
        if next > u64::MAX as u128 {
            proof {
                lemma_fault_stays(digits, u64::MAX as nat, i + 1 - from);
            }
            return Err(NumberFault::TooLarge);
        }
        value = next as u64;
        i = i + 1;
    }
    assert(digits.take(i - from) =~= digits);
    Ok(value)
}

/// The unsigned number that a text holds.
pub fn parse_u128(s: &str) -> (r: Option<u128>)
    ensures
        r is Some <==> parsed(s@, u128::MAX as nat) is Some,
        r matches Some(n) ==> parsed(s@, u128::MAX as nat) == Some(n as nat),
{
    let chars = chars_of(s);
    let from: usize = if chars.len() > 1 && chars[0] == '+' {
        1
    } else {
        0
    };
    let ghost digits = digits_of(s@);
    assert(digits =~= s@.skip(from as int));
    if from == chars.len() {
        return None;
    }
    let mut value: u128 = 0;
    let mut i: usize = from;
    assert(digits.take(0) =~= Seq::empty());
    while i < chars.len()
        invariant
            from <= i <= chars.len(),
            chars@ == s@,
            digits == s@.skip(from as int),
            digits == digits_of(s@),
            digits.len() > 0,
            value == digits_value(digits.take(i - from)),
            forall|j: int| 0 <= j < i - from ==> is_digit(#[trigger] digits[j]),
        decreases chars.len() - i,
    {
        let c = chars[i];
        assert(digits[i - from] == c);
        if !('0' <= c && c <= '9') {
            assert(!is_digit(digits[i - from]));
            return None;
        }
        let d: u128 = c as u128 - '0' as u128;
        proof {
            let next = digits.take(i + 1 - from);
            assert(next.drop_last() =~= digits.take(i - from));
            lemma_digits_value_grows(digits, i + 1 - from);
        }
        let tens: u128 = match value.checked_mul(10) {
            Some(tens) => tens,
            None => {
                return None;
            },
        };
        value = match tens.checked_add(d) {
            Some(next) => next,
            None => {
                return None;
            },
        };
        i = i + 1;
    }
    assert(digits.take(i - from) =~= digits);
    Some(value)
}

/// The unsigned number of at most 64 bits that a text holds.
pub fn parse_u64(s: &str) -> (r: Option<u64>)
    ensures
        r is Some <==> parsed(s@, u64::MAX as nat) is Some,
        r matches Some(n) ==> parsed(s@, u64::MAX as nat) == Some(n as nat),
{
    match parse_u128(s) {
        Some(n) => if n <= u64::MAX as u128 {
            Some(n as u64)
        } else {
            None
        },
        None => None,
    }
}

/// The error of bytes that are no text.
#[verifier::external_type_specification]
#[verifier::external_body]
pub struct ExUtf8Error(std::str::Utf8Error);

/// The error with which bytes are refused as text.
pub uninterp spec fn utf8_error(bytes: Seq<u8>) -> std::str::Utf8Error;

/// `std::str::from_utf8` takes bytes that are valid UTF-8 as the text that they
/// encode, and refuses all others, with an error that depends on the bytes
/// alone.
pub assume_specification[ std::str::from_utf8 ](bytes: &[u8]) -> (r: Result<
    &str,
    std::str::Utf8Error,
>)
    ensures
        match r {
            Ok(s) => vstd::utf8::valid_utf8(bytes@) && s@ == vstd::utf8::decode_utf8(bytes@),
            Err(error) => !vstd::utf8::valid_utf8(bytes@) && error == utf8_error(bytes@),
        },
;

pub(crate) proof fn lemma_decimal_is_digits(n: nat)
    ensures
        decimal(n).len() > 0,
        all_digits(decimal(n)),
        digits_value(decimal(n)) == n,
    decreases n,
{
    if n < 10 {
        let s = decimal(n);
        assert(s.drop_last() =~= Seq::empty());
        reveal_with_fuel(digits_value, 2);
    } else {
        lemma_decimal_is_digits(n / 10);
        let front = decimal(n / 10);
        let s = decimal(n);
        assert(s.drop_last() =~= front);
        assert(n % 10 < 10);
        assert forall|i: int| 0 <= i < s.len() implies is_digit(#[trigger] s[i]) by {
            if i < front.len() {
                assert(s[i] == front[i]);
            }
        }
    }
}

/// A number below ten is written as its digit, and the digit of the ones stands
/// behind what the tens are written as.
pub proof fn law_decimal_is_written_by_digits(n: nat, d: nat)
    requires
        d < 10,
    ensures
        decimal(d).len() == 1,
        decimal(d)[0] as nat == '0' as nat + d,
        n > 0 ==> decimal(10 * n + d) == decimal(n) + decimal(d),
{
    if n > 0 {
        assert((10 * n + d) / 10 == n);
        assert((10 * n + d) % 10 == d);
        assert(decimal(10 * n + d) =~= decimal(n) + decimal(d));
    }
}

/// A row of copies has as many as were asked for: none where none, and those of
/// a sum are those of each.
pub proof fn law_copies_follow_each_other(unit: Seq<char>, a: nat, b: nat)
    ensures
        repeated(unit, 0).len() == 0,
        repeated(unit, 1) == unit,
        repeated(unit, a + b) == repeated(unit, a) + repeated(unit, b),
    decreases b,
{
    reveal_with_fuel(repeated, 2);
    assert(repeated(unit, 1) =~= unit);
    if b == 0 {
        assert(repeated(unit, a) + repeated(unit, b) =~= repeated(unit, a));
    } else {
        law_copies_follow_each_other(unit, a, (b - 1) as nat);
        assert(repeated(unit, a + b) == repeated(unit, (a + b - 1) as nat) + unit);
        assert(repeated(unit, a + b) =~= repeated(unit, a) + repeated(unit, b));
    }
}

/// Texts that are joined stand one behind the other.
pub proof fn law_texts_are_joined_in_order(
    first: Seq<Seq<char>>,
    part: Seq<char>,
    rest: Seq<Seq<char>>,
)
    ensures
        joined(Seq::empty()).len() == 0,
        joined(seq![part]) == part,
        joined(first + rest) == joined(first) + joined(rest),
    decreases rest.len(),
{
    let one = seq![part];
    assert(one.drop_last() =~= Seq::empty());
    assert(joined(one.drop_last()) =~= Seq::empty());
    assert(joined(one) =~= part);
    if rest.len() == 0 {
        assert(first + rest =~= first);
        assert(joined(first) + joined(rest) =~= joined(first));
    } else {
        assert((first + rest).drop_last() =~= first + rest.drop_last());
        law_texts_are_joined_in_order(first, part, rest.drop_last());
        assert(joined(first + rest) =~= joined(first) + joined(rest));
    }
}

/// The white space of Unicode.
pub proof fn law_white_space(c: char)
    ensures
        is_space(c) <==> c == '\t' || c == '\n' || c == '\u{b}' || c == '\u{c}' || c == '\r' || c
            == ' ' || c == '\u{85}' || c == '\u{a0}' || c == '\u{1680}' || '\u{2000}' <= c
            <= '\u{200a}' || c == '\u{2028}' || c == '\u{2029}' || c == '\u{202f}' || c
            == '\u{205f}' || c == '\u{3000}',
{
}

/// What is left of a text without the white space at its ends stands in it in one
/// piece. All before it and all behind it is white space, and it neither begins
/// nor ends with any.
pub proof fn law_trimmed_text_is_the_middle(s: Seq<char>) -> (ends: (int, int))
    ensures
        0 <= ends.0 <= ends.1 <= s.len(),
        trimmed(s) == s.subrange(ends.0, ends.1),
        forall|i: int| 0 <= i < ends.0 ==> is_space(#[trigger] s[i]),
        forall|i: int| ends.1 <= i < s.len() ==> is_space(#[trigger] s[i]),
        trimmed(s).len() > 0 ==> !is_space(trimmed(s)[0]) && !is_space(trimmed(s).last()),
{
    let from = lemma_trimmed_start(s);
    let rest = s.skip(from);
    let to = lemma_trimmed_end(rest);
    assert(rest.take(to) =~= s.subrange(from, from + to));
    assert forall|i: int| from + to <= i < s.len() implies is_space(#[trigger] s[i]) by {
        assert(rest[i - from] == s[i]);
    }
    if to > 0 {
        assert(rest.take(to)[0] == rest[0]);
    }
    (from, from + to)
}

proof fn lemma_trimmed_start(s: Seq<char>) -> (from: int)
    ensures
        0 <= from <= s.len(),
        trimmed_start(s) == s.skip(from),
        forall|i: int| 0 <= i < from ==> is_space(#[trigger] s[i]),
        from < s.len() ==> !is_space(s[from]),
    decreases s.len(),
{
    if s.len() > 0 && is_space(s[0]) {
        let rest = s.skip(1);
        let from = lemma_trimmed_start(rest);
        assert(rest.skip(from) =~= s.skip(from + 1));
        assert forall|i: int| 0 <= i < from + 1 implies is_space(#[trigger] s[i]) by {
            if i > 0 {
                assert(rest[i - 1] == s[i]);
            }
        }
        from + 1
    } else {
        assert(s.skip(0) =~= s);
        0
    }
}

proof fn lemma_trimmed_end(s: Seq<char>) -> (to: int)
    ensures
        0 <= to <= s.len(),
        trimmed_end(s) == s.take(to),
        forall|i: int| to <= i < s.len() ==> is_space(#[trigger] s[i]),
        to > 0 ==> !is_space(s[to - 1]),
    decreases s.len(),
{
    if s.len() > 0 && is_space(s.last()) {
        let front = s.drop_last();
        let to = lemma_trimmed_end(front);
        assert(front.take(to) =~= s.take(to));
        assert forall|i: int| to <= i < s.len() implies is_space(#[trigger] s[i]) by {
            if i < front.len() {
                assert(front[i] == s[i]);
            }
        }
        to
    } else {
        assert(s.take(s.len() as int) =~= s);
        s.len() as int
    }
}

proof fn lemma_parts_nonempty(s: Seq<char>, cut: spec_fn(char) -> bool)
    ensures
        parts(s, cut).len() > 0,
    decreases s.len(),
{
    if s.len() > 0 {
        lemma_parts_nonempty(s.drop_last(), cut);
    }
}

proof fn lemma_parts_meet(a: Seq<char>, c: char, b: Seq<char>, cut: spec_fn(char) -> bool)
    requires
        cut(c),
    ensures
        parts(a + seq![c] + b, cut) == parts(a, cut) + parts(b, cut),
    decreases b.len(),
{
    let whole = a + seq![c] + b;
    lemma_parts_nonempty(b, cut);
    if b.len() == 0 {
        assert(whole.drop_last() =~= a);
        assert(whole.last() == c);
        assert(parts(whole, cut) =~= parts(a, cut) + parts(b, cut));
    } else {
        let front = b.drop_last();
        lemma_parts_meet(a, c, front, cut);
        lemma_parts_nonempty(front, cut);
        assert(whole.drop_last() =~= a + seq![c] + front);
        assert(whole.last() == b.last());
        assert(parts(whole, cut) =~= parts(a, cut) + parts(b, cut));
    }
}

proof fn lemma_parts_uncut(s: Seq<char>, cut: spec_fn(char) -> bool)
    requires
        forall|i: int| 0 <= i < s.len() ==> !cut(#[trigger] s[i]),
    ensures
        parts(s, cut) == seq![s],
    decreases s.len(),
{
    if s.len() > 0 {
        let front = s.drop_last();
        assert forall|i: int| 0 <= i < front.len() implies !cut(#[trigger] front[i]) by {
            assert(front[i] == s[i]);
        }
        lemma_parts_uncut(front, cut);
        assert(s.last() == s[s.len() - 1]);
        assert(front.push(s.last()) =~= s);
        assert(parts(s, cut) =~= seq![s]);
    } else {
        assert(s =~= Seq::empty());
        assert(parts(s, cut) =~= seq![s]);
    }
}

/// Which characters part a text: white space; the ends of lines; or blanks and
/// the ends of lines.
pub open spec fn parts_at(cut: Cut, c: char) -> bool {
    match cut {
        Cut::Spaces => is_space(c),
        Cut::LineEnds => c == '\n',
        Cut::Blanks => c == ' ' || c == '\n',
    }
}

/// The fields of a text are those before a character that parts it and those
/// behind. A text without such a character is one field, where it is not empty;
/// an empty text has none.
pub proof fn law_fields_are_what_lies_between(a: Seq<char>, c: char, b: Seq<char>, cut: Cut)
    ensures
        parts_at(cut, c) ==> fields(a + seq![c] + b, cut) == fields(a, cut) + fields(b, cut),
        a.len() > 0 && (forall|i: int| 0 <= i < a.len() ==> !parts_at(cut, #[trigger] a[i]))
            ==> fields(a, cut) == seq![a],
        fields(Seq::empty(), cut).len() == 0,
{
    reveal_with_fuel(Seq::filter, 2);
    if parts_at(cut, c) {
        assert((cut.at())(c));
        lemma_parts_meet(a, c, b, cut.at());
        Seq::filter_distributes_over_add(parts(a, cut.at()), parts(b, cut.at()), nonempty());
    }
    if a.len() > 0 && (forall|i: int| 0 <= i < a.len() ==> !parts_at(cut, #[trigger] a[i])) {
        assert forall|i: int| 0 <= i < a.len() implies !(cut.at())(#[trigger] a[i]) by {
            assert(!parts_at(cut, a[i]));
        }
        lemma_parts_uncut(a, cut.at());
        let one = seq![a];
        assert(one.drop_last() =~= Seq::<Seq<char>>::empty());
        assert(one.filter(nonempty()) =~= one);
    }
    let none = seq![Seq::<char>::empty()];
    assert(none.drop_last() =~= Seq::<Seq<char>>::empty());
    assert(fields(Seq::empty(), cut) =~= Seq::empty());
}

/// A text stands at a place of another where each of its characters stands there.
pub proof fn law_text_stands_at_a_place(s: Seq<char>, from: int, part: Seq<char>)
    ensures
        stands_at(s, from, part) <==> 0 <= from && from + part.len() <= s.len() && forall|k: int|
            0 <= k < part.len() ==> #[trigger] s[from + k] == part[k],
        stands_at(s, from, part) ==> holds_text(s, part),
{
    if 0 <= from && from + part.len() <= s.len() {
        let piece = s.subrange(from, from + part.len() as int);
        if forall|k: int| 0 <= k < part.len() ==> #[trigger] s[from + k] == part[k] {
            assert forall|k: int| 0 <= k < part.len() implies piece[k] == part[k] by {
                assert(s[from + k] == part[k]);
            }
            assert(piece =~= part);
        }
        if piece == part {
            assert forall|k: int| 0 <= k < part.len() implies #[trigger] s[from + k] == part[k] by {
                assert(piece[k] == s[from + k]);
            }
        }
    }
}

/// A text is held where it stands at some place, and only there.
pub proof fn law_held_text_stands_somewhere(s: Seq<char>, part: Seq<char>) -> (from: int)
    requires
        holds_text(s, part),
    ensures
        0 <= from,
        from + part.len() <= s.len(),
        s.subrange(from, from + part.len() as int) == part,
{
    choose|i: int| #[trigger] stands_at(s, i, part)
}

/// A number in decimal is read back, with or without a plus sign. One digit more
/// makes ten times the number and the digit. What is too great, or empty, or has
/// any other character behind the first, is no number.
pub proof fn law_numbers_are_read(n: nat, max: nat, s: Seq<char>, d: nat, i: int)
    requires
        d < 10,
    ensures
        n <= max ==> parsed(decimal(n), max) == Some(n),
        n <= max ==> parsed(seq!['+'] + decimal(n), max) == Some(n),
        n > max ==> parsed(decimal(n), max) is None,
        parsed(Seq::empty(), max) is None,
        0 < i < s.len() && !('0' <= s[i] <= '9') ==> parsed(s, max) is None,
        s.len() > 0 && !('0' <= s[0] <= '9') && s[0] != '+' ==> parsed(s, max) is None,
        parsed(s, max) matches Some(m) ==> parsed(s + decimal(d), max) == if 10 * m + d <= max {
            Some((10 * m + d) as nat)
        } else {
            None
        },
{
    lemma_decimal_is_digits(n);
    let written = decimal(n);
    assert(is_digit(written[0]));
    assert(digits_of(written) == written);
    let signed = seq!['+'] + written;
    assert(digits_of(signed) =~= written);
    let digits = digits_of(s);
    if 0 < i < s.len() && !('0' <= s[i] <= '9') {
        if s[0] == '+' {
            assert(!is_digit(digits[i - 1]));
        } else {
            assert(!is_digit(digits[i]));
        }
    }
    if s.len() > 0 && !('0' <= s[0] <= '9') && s[0] != '+' {
        assert(!is_digit(digits[0]));
    }
    if parsed(s, max) is Some {
        lemma_decimal_is_digits(d);
        let one = decimal(d);
        let longer = s + one;
        assert(longer =~= s.push(one[0]));
        assert(one =~= seq![one[0]]);
        assert(is_digit(one[0]));
        assert(one.drop_last() =~= Seq::empty());
        assert(one[0] as nat - '0' as nat == d);
        if s.len() == 1 {
            assert(is_digit(digits[0]));
        }
        assert(digits_of(longer) =~= digits.push(one[0]));
        let more = digits.push(one[0]);
        assert(more.drop_last() =~= digits);
        assert(all_digits(more)) by {
            assert forall|k: int| 0 <= k < more.len() implies is_digit(#[trigger] more[k]) by {
                if k < digits.len() {
                    assert(is_digit(digits[k]));
                }
            }
        }
        assert(digits_value(more) == 10 * digits_value(digits) + d);
    }
}

/// A text that holds no number has a fault, and one that does has none. The fault
/// is an empty text, or lies at the first place at which something is wrong with
/// what was read so far: a character that is no digit, or a number that has
/// become too great.
pub proof fn law_first_fault_of_a_number(s: Seq<char>, max: nat)
    ensures
        number_fault(s, max) is None <==> parsed(s, max) is Some,
        number_fault(s, max) == Some(NumberFault::Empty) <==> s.len() == 0,
        number_fault(s, max) == Some(NumberFault::InvalidDigit) ==> exists|k: int|
            0 <= k < digits_of(s).len() && !is_digit(#[trigger] digits_of(s)[k])
                && digits_value(digits_of(s).take(k)) <= max && all_digits(digits_of(s).take(k)),
        number_fault(s, max) == Some(NumberFault::TooLarge) ==> exists|k: int|
            0 <= k < digits_of(s).len() && is_digit(#[trigger] digits_of(s)[k])
                && digits_value(digits_of(s).take(k)) <= max && all_digits(digits_of(s).take(k))
                && digits_value(digits_of(s).take(k + 1)) > max,
{
    let digits = digits_of(s);
    lemma_no_fault(digits, max);
    if digits.len() > 0 && first_fault(digits, max) is Some {
        lemma_fault_place(digits, max);
    }
}

proof fn lemma_fault_place(digits: Seq<char>, max: nat)
    requires
        first_fault(digits, max) is Some,
    ensures
        first_fault(digits, max)->0 !is Empty,
        first_fault(digits, max)->0 is InvalidDigit ==> exists|k: int|
            0 <= k < digits.len() && !is_digit(#[trigger] digits[k]) && digits_value(digits.take(k))
                <= max && all_digits(digits.take(k)),
        first_fault(digits, max)->0 is TooLarge ==> exists|k: int|
            0 <= k < digits.len() && is_digit(#[trigger] digits[k]) && digits_value(digits.take(k))
                <= max && all_digits(digits.take(k)) && digits_value(digits.take(k + 1)) > max,
    decreases digits.len(),
{
    let front = digits.drop_last();
    let end = digits.len() - 1;
    assert(digits.take(end) =~= front);
    assert(digits.take(end + 1) =~= digits);
    assert(digits[end] == digits.last());
    if first_fault(front, max) is Some {
        lemma_fault_place(front, max);
        if first_fault(front, max)->0 is InvalidDigit {
            let k = choose|k: int|
                0 <= k < front.len() && !is_digit(#[trigger] front[k]) && digits_value(
                    front.take(k),
                ) <= max && all_digits(front.take(k));
            assert(front.take(k) =~= digits.take(k));
            assert(!is_digit(digits[k]));
        } else {
            let k = choose|k: int|
                0 <= k < front.len() && is_digit(#[trigger] front[k]) && digits_value(front.take(k))
                    <= max && all_digits(front.take(k)) && digits_value(front.take(k + 1)) > max;
            assert(front.take(k) =~= digits.take(k));
            assert(front.take(k + 1) =~= digits.take(k + 1));
            assert(is_digit(digits[k]));
        }
    } else {
        lemma_no_fault(front, max);
    }
}

} // verus!
