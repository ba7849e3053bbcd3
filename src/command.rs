//! The command language: addresses, locations and verbs.

use std::ops::RangeInclusive;
use std::str::FromStr;
use vstd::prelude::*;
use vstd::string::StringSliceAdditionalSpecFns;
use vstd::utf8::*;

verus! {

broadcast use vstd::utf8::encode_utf8_valid_utf8;

// The ASCII bytes of the command language.
pub const ZERO: u8 = 48;
pub const NINE: u8 = 57;
pub const PLUS: u8 = 43;
pub const MINUS: u8 = 45;
pub const DOT: u8 = 46;
pub const DOLLAR: u8 = 36;
pub const SLASH: u8 = 47;
pub const QUESTION: u8 = 63;
pub const COMMA: u8 = 44;
pub const SEMICOLON: u8 = 59;
pub const LOWER_Q: u8 = 113;
pub const UPPER_Q: u8 = 81;
pub const LOWER_W: u8 = 119;
pub const LOWER_P: u8 = 112;
pub const LOWER_N: u8 = 110;
pub const LOWER_A: u8 = 97;

/// A reference to one line, resolved against the buffer only when a command runs.
#[derive(Clone, Copy, Debug, PartialEq, Eq, Structural)]
pub enum Address {
    Absolute(usize),
    Relative(isize),
    Last,
}

/// How the two ends of a range are joined; it decides how a missing end is filled.
#[derive(Clone, Copy, Debug, PartialEq, Eq, Structural)]
pub enum RangeSeparator {
    Comma,
    Semicolon,
}

/// The lines a command applies to, as written.
#[derive(Debug)]
pub enum Location {
    Unspecified,
    Single(Address),
    Range(RangeSeparator, RangeInclusive<Address>),
}

/// A `Location` with the ends of its range as plain values.
pub enum LocationView {
    Unspecified,
    Single(Address),
    Range(RangeSeparator, Address, Address),
}

impl View for Location {
    type V = LocationView;

    open spec fn view(&self) -> LocationView {
        match self {
            Location::Unspecified => LocationView::Unspecified,
            Location::Single(a) => LocationView::Single(*a),
            Location::Range(sep, r) => LocationView::Range(*sep, r@.start, r@.end),
        }
    }
}

/// One parsed command line.
#[derive(Debug)]
pub enum Command {
    Quit { force: bool },
    Write { location: Location, quit: bool },
    Print { location: Location, numbered: bool },
    Info,
    Append { location: Location },
}

/// The verb of a command, without its location.
#[derive(Clone, Copy, Debug, PartialEq, Eq, Structural)]
pub enum Verb {
    Quit { force: bool },
    Write { quit: bool },
    Print { numbered: bool },
    Info,
    Append,
}

pub struct CommandView {
    pub verb: Verb,
    pub location: LocationView,
}

impl View for Command {
    type V = CommandView;

    open spec fn view(&self) -> CommandView {
        match self {
            Command::Quit { force } => CommandView {
                verb: Verb::Quit { force: *force },
                location: LocationView::Unspecified,
            },
            Command::Write { location, quit } => CommandView {
                verb: Verb::Write { quit: *quit },
                location: location@,
            },
            Command::Print { location, numbered } => CommandView {
                verb: Verb::Print { numbered: *numbered },
                location: location@,
            },
            Command::Info => CommandView { verb: Verb::Info, location: LocationView::Unspecified },
            Command::Append { location } => CommandView { verb: Verb::Append, location: location@ },
        }
    }
}

/// Errors met while reading one command line.
#[derive(Clone, Copy, Debug, PartialEq, Eq, Structural)]
pub enum ParseError {
    UnexpectedEndOfCommand,
    UnexpectedCharacter,
    AddressOutOfBounds,
    RegexNotSupportedYet,
}

pub open spec fn is_digit(c: u8) -> bool {
    ZERO <= c <= NINE
}

/// Length of the run of ASCII digits at the start of `b`.
pub open spec fn leading_digits(b: Seq<u8>) -> nat
    decreases b.len(),
{
    if b.len() > 0 && is_digit(b[0]) {
        1 + leading_digits(b.drop_first())
    } else {
        0
    }
}

/// Numeric value of a string of decimal digits.
pub open spec fn decimal_value(d: Seq<u8>) -> nat
    decreases d.len(),
{
    if d.len() == 0 {
        0
    } else {
        decimal_value(d.drop_last()) * 10 + (d.last() - ZERO) as nat
    }
}

/// The value of an optional offset: no digits mean one line.
pub open spec fn offset_value(d: Seq<u8>) -> nat {
    if d.len() == 0 {
        1
    } else {
        decimal_value(d)
    }
}

/// What reading an address at the start of `b` gives: the number of bytes
/// it takes and the address, if any. A `/` or a `?` opens a regular
/// expression, which is not supported.
pub open spec fn address_spec(b: Seq<u8>) -> Result<(nat, Option<Address>), ParseError> {
    if b.len() == 0 {
        Ok((0, None))
    } else if is_digit(b[0]) {
        let k = leading_digits(b);
        let v = decimal_value(b.subrange(0, k as int));
        if v <= usize::MAX {
            Ok((k, Some(Address::Absolute(v as usize))))
        } else {
            Err(ParseError::AddressOutOfBounds)
        }
    } else if b[0] == PLUS || b[0] == MINUS {
        let rest = b.drop_first();
        let k = leading_digits(rest);
        let v = offset_value(rest.subrange(0, k as int));
        if v <= isize::MAX {
            let offset = if b[0] == PLUS { v as int } else { -v };
            Ok((k + 1, Some(Address::Relative(offset as isize))))
        } else {
            Err(ParseError::AddressOutOfBounds)
        }
    } else if b[0] == DOT {
        Ok((1, Some(Address::Relative(0))))
    } else if b[0] == DOLLAR {
        Ok((1, Some(Address::Last)))
    } else if b[0] == SLASH || b[0] == QUESTION {
        Err(ParseError::RegexNotSupportedYet)
    } else {
        Ok((0, None))
    }
}

/// `r` is what `spec` describes for the input `s`: on success, the remainder
/// is `s` without the bytes taken.
pub open spec fn parsed_as<T>(
    s: &str,
    r: Result<(&str, T), ParseError>,
    spec: Result<(nat, T), ParseError>,
) -> bool {
    match spec {
        Ok((n, v)) => r is Ok && r->Ok_0.1 == v && n <= s.spec_bytes().len()
            && r->Ok_0.0.spec_bytes() == s.spec_bytes().subrange(n as int, s.spec_bytes().len() as int),
        Err(e) => r == Err::<(&str, T), ParseError>(e),
    }
}

proof fn lemma_leading_digits(b: Seq<u8>, i: int)
    requires
        0 <= i <= b.len(),
        forall|j: int| 0 <= j < i ==> is_digit(#[trigger] b[j]),
        i == b.len() || !is_digit(b[i]),
    ensures
        leading_digits(b) == i,
    decreases i,
{
    if i > 0 {
        lemma_leading_digits(b.drop_first(), i - 1);
    }
}

proof fn lemma_decimal_grows(d: Seq<u8>, i: int)
    requires
        0 <= i <= d.len(),
        forall|j: int| 0 <= j < d.len() ==> is_digit(#[trigger] d[j]),
    ensures
        decimal_value(d.subrange(0, i)) <= decimal_value(d),
    decreases d.len() - i,
{
    if i < d.len() {
        lemma_decimal_grows(d.drop_last(), i);
        assert(d.drop_last().subrange(0, i) =~= d.subrange(0, i));
    } else {
        assert(d.subrange(0, i) =~= d);
    }
}

proof fn lemma_boundary_after_ascii(b: Seq<u8>, j: int)
    requires
        valid_utf8(b),
        0 <= j < b.len(),
        is_char_boundary(b, j),
        b[j] < 128,
    ensures
        is_char_boundary(b, j + 1),
    decreases b.len(),
{
    let p = pop_first_scalar(b);
    let len = length_of_first_scalar(b);
    if j == 0 {
        assert(len == 1);
        assert(is_char_boundary(b, 1) == is_char_boundary(p, 0));
    } else {
        assert(is_char_boundary(b, j) == is_char_boundary(p, j - len));
        lemma_boundary_after_ascii(p, j - len);
        assert(is_char_boundary(b, j + 1) == is_char_boundary(p, j + 1 - len));
    }
}

/// A split of `s` after `k` bytes, at a char boundary.
fn split_at_boundary(s: &str, k: usize) -> (r: (&str, &str))
    requires
        is_char_boundary(s.spec_bytes(), k as int),
    ensures
        k <= s.spec_bytes().len(),
        r.0.spec_bytes() == s.spec_bytes().subrange(0, k as int),
        r.1.spec_bytes() == s.spec_bytes().subrange(k as int, s.spec_bytes().len() as int),
{
    let r = s.split_at(k);
    proof {
        assert(r.0.spec_bytes() =~= s.spec_bytes().subrange(0, k as int));
    }
    r
}

/// `s` without its first byte, which is ASCII.
fn skip_ascii(s: &str) -> (r: &str)
    requires
        s.spec_bytes().len() > 0,
        s.spec_bytes()[0] < 128,
    ensures
        r.spec_bytes() == s.spec_bytes().drop_first(),
{
    proof {
        is_char_boundary_start_end_of_seq(s.spec_bytes());
        lemma_boundary_after_ascii(s.spec_bytes(), 0);
    }
    let r = split_at_boundary(s, 1);
    proof {
        assert(r.1.spec_bytes() =~= s.spec_bytes().drop_first());
    }
    r.1
}

/// Splits `s` into its leading ASCII digits and the rest.
pub fn split_leading_digits(s: &str) -> (r: (&str, &str))
    ensures
        r.0.spec_bytes() == s.spec_bytes().subrange(0, leading_digits(s.spec_bytes()) as int),
        r.1.spec_bytes() == s.spec_bytes().subrange(
            leading_digits(s.spec_bytes()) as int,
            s.spec_bytes().len() as int,
        ),
{
    let b = s.as_bytes();
    let mut i: usize = 0;
    proof {
        is_char_boundary_start_end_of_seq(b@);
    }
    while i < b.len() && b[i] >= ZERO && b[i] <= NINE
        invariant
            b@ == s.spec_bytes(),
            0 <= i <= b@.len(),
            forall|j: int| 0 <= j < i ==> is_digit(#[trigger] b@[j]),
            is_char_boundary(b@, i as int),
        decreases b@.len() - i,
    {
        proof {
            lemma_boundary_after_ascii(b@, i as int);
        }
        i = i + 1;
    }
    proof {
        lemma_leading_digits(b@, i as int);
    }
    split_at_boundary(s, i)
}

/// The value of a run of ASCII digits, or `None` where it exceeds `usize`.
fn digits_value(d: &str) -> (r: Option<usize>)
    requires
        forall|j: int| 0 <= j < d.spec_bytes().len() ==> is_digit(#[trigger] d.spec_bytes()[j]),
    ensures
        decimal_value(d.spec_bytes()) <= usize::MAX ==> r == Some(
            decimal_value(d.spec_bytes()) as usize,
        ),
        decimal_value(d.spec_bytes()) > usize::MAX ==> r is None,
{
    let b = d.as_bytes();
    let mut v: usize = 0;
    let mut i: usize = 0;
    while i < b.len()
        invariant
            b@ == d.spec_bytes(),
            0 <= i <= b@.len(),
            forall|j: int| 0 <= j < b@.len() ==> is_digit(#[trigger] b@[j]),
            v == decimal_value(b@.subrange(0, i as int)),
        decreases b@.len() - i,
    {
        let digit = (b[i] - ZERO) as usize;
        proof {
            assert(b@.subrange(0, i + 1).drop_last() =~= b@.subrange(0, i as int));
        }
        if v > (usize::MAX - digit) / 10 {
            proof {
                lemma_decimal_grows(b@, i + 1);
            }
            return None;
        }
        v = v * 10 + digit;
        i = i + 1;
    }
    proof {
        assert(b@.subrange(0, i as int) =~= b@);
    }
    Some(v)
}

proof fn lemma_leading_digits_bound(b: Seq<u8>)
    ensures
        leading_digits(b) <= b.len(),
        forall|j: int| 0 <= j < leading_digits(b) ==> is_digit(#[trigger] b[j]),
    decreases b.len(),
{
    if b.len() > 0 && is_digit(b[0]) {
        lemma_leading_digits_bound(b.drop_first());
        assert forall|j: int| 0 <= j < leading_digits(b) implies is_digit(#[trigger] b[j]) by {
            if j > 0 {
                assert(b[j] == b.drop_first()[j - 1]);
            }
        }
    }
}

/// Reads the address at the start of `s`, if there is one, and returns what
/// follows it.
pub fn address(s: &str) -> (r: Result<(&str, Option<Address>), ParseError>)
    ensures
        parsed_as(s, r, address_spec(s.spec_bytes())),
{
    let b = s.as_bytes();
    if b.len() == 0 {
        proof {
            assert(s.spec_bytes().subrange(0, s.spec_bytes().len() as int) =~= s.spec_bytes());
        }
        return Ok((s, None));
    }
    let c = b[0];
    if c >= ZERO && c <= NINE {
        let (digits, rest) = split_leading_digits(s);
        proof {
            lemma_leading_digits_bound(b@);
        }
        match digits_value(digits) {
            Some(n) => Ok((rest, Some(Address::Absolute(n)))),
            None => Err(ParseError::AddressOutOfBounds),
        }
    } else if c == PLUS || c == MINUS {
        let t = skip_ascii(s);
        let (digits, rest) = split_leading_digits(t);
        proof {
            lemma_leading_digits_bound(t.spec_bytes());
            assert(rest.spec_bytes() =~= b@.subrange(
                leading_digits(b@.drop_first()) + 1int,
                b@.len() as int,
            ));
        }
        let v: usize = if digits.len() == 0 {
            1
        } else {
            match digits_value(digits) {
                Some(v) => v,
                None => {
                    return Err(ParseError::AddressOutOfBounds);
                },
            }
        };
        if v > isize::MAX as usize {
            return Err(ParseError::AddressOutOfBounds);
        }
        let offset: isize = if c == PLUS {
            v as isize
        } else {
            -(v as isize)
        };
        Ok((rest, Some(Address::Relative(offset))))
    } else if c == DOT {
        Ok((skip_ascii(s), Some(Address::Relative(0))))
    } else if c == DOLLAR {
        Ok((skip_ascii(s), Some(Address::Last)))
    } else if c == SLASH || c == QUESTION {
        Err(ParseError::RegexNotSupportedYet)
    } else {
        proof {
            assert(s.spec_bytes().subrange(0, s.spec_bytes().len() as int) =~= s.spec_bytes());
        }
        Ok((s, None))
    }
}

/// Relies on `RangeInclusive::start`: the lower end the range was made with.
pub assume_specification<Idx>[ RangeInclusive::<Idx>::start ](r: &RangeInclusive<Idx>) -> (s: &Idx)
    ensures
        *s == r@.start,
;

/// Relies on `RangeInclusive::end`: the upper end the range was made with.
pub assume_specification<Idx>[ RangeInclusive::<Idx>::end ](r: &RangeInclusive<Idx>) -> (e: &Idx)
    ensures
        *e == r@.end,
;

/// The range that a separator and its optional ends stand for. A comma fills
/// a missing start with the first line and a missing end with the last; a
/// semicolon fills a missing start with the current line when an end is
/// given, and a missing end with the current line.
pub open spec fn range_of(
    start: Option<Address>,
    end: Option<Address>,
    sep: RangeSeparator,
) -> LocationView {
    match start {
        None => match end {
            Some(e) => if sep == RangeSeparator::Semicolon {
                LocationView::Range(RangeSeparator::Semicolon, Address::Relative(0), e)
            } else {
                LocationView::Range(RangeSeparator::Comma, Address::Absolute(1), e)
            },
            None => LocationView::Range(RangeSeparator::Comma, Address::Absolute(1), Address::Last),
        },
        Some(s) => match end {
            Some(e) => LocationView::Range(sep, s, e),
            None => if sep == RangeSeparator::Semicolon {
                LocationView::Range(RangeSeparator::Semicolon, s, Address::Relative(0))
            } else {
                LocationView::Range(RangeSeparator::Comma, s, Address::Last)
            },
        },
    }
}

/// What reading a location at the start of `b` gives: the number of bytes
/// it takes and the location.
pub open spec fn location_spec(b: Seq<u8>) -> Result<(nat, LocationView), ParseError> {
    match address_spec(b) {
        Err(e) => Err(e),
        Ok((n, start)) => {
            let rest = b.subrange(n as int, b.len() as int);
            if rest.len() > 0 && (rest[0] == COMMA || rest[0] == SEMICOLON) {
                let sep = if rest[0] == COMMA {
                    RangeSeparator::Comma
                } else {
                    RangeSeparator::Semicolon
                };
                match address_spec(rest.drop_first()) {
                    Err(e) => Err(e),
                    Ok((m, end)) => Ok((n + 1 + m, range_of(start, end, sep))),
                }
            } else {
                match start {
                    None => Ok((n, LocationView::Unspecified)),
                    Some(a) => Ok((n, LocationView::Single(a))),
                }
            }
        },
    }
}

/// Reads the location at the start of `s`: an optional address, or two
/// optional addresses joined by `,` or `;`. Returns what follows it.
pub fn location(s: &str) -> (r: Result<(&str, Location), ParseError>)
    ensures
        match location_spec(s.spec_bytes()) {
            Ok((n, loc)) => r is Ok && r->Ok_0.1@ == loc && n <= s.spec_bytes().len()
                && r->Ok_0.0.spec_bytes() == s.spec_bytes().subrange(
                n as int,
                s.spec_bytes().len() as int,
            ),
            Err(e) => r is Err && r->Err_0 == e,
        },
{
    let (rest, start) = match address(s) {
        Ok(p) => p,
        Err(e) => {
            return Err(e);
        },
    };
    let b = rest.as_bytes();
    if b.len() > 0 && (b[0] == COMMA || b[0] == SEMICOLON) {
        let sep = if b[0] == COMMA {
            RangeSeparator::Comma
        } else {
            RangeSeparator::Semicolon
        };
        let (rest2, end) = match address(skip_ascii(rest)) {
            Ok(p) => p,
            Err(e) => {
                return Err(e);
            },
        };
        let loc = match start {
            None => match end {
                Some(e) => match sep {
                    RangeSeparator::Semicolon => Location::Range(
                        RangeSeparator::Semicolon,
                        RangeInclusive::new(Address::Relative(0), e),
                    ),
                    RangeSeparator::Comma => Location::Range(
                        RangeSeparator::Comma,
                        RangeInclusive::new(Address::Absolute(1), e),
                    ),
                },
                None => Location::Range(
                    RangeSeparator::Comma,
                    RangeInclusive::new(Address::Absolute(1), Address::Last),
                ),
            },
            Some(st) => match end {
                Some(e) => Location::Range(sep, RangeInclusive::new(st, e)),
                None => match sep {
                    RangeSeparator::Semicolon => Location::Range(
                        RangeSeparator::Semicolon,
                        RangeInclusive::new(st, Address::Relative(0)),
                    ),
                    RangeSeparator::Comma => Location::Range(
                        RangeSeparator::Comma,
                        RangeInclusive::new(st, Address::Last),
                    ),
                },
            },
        };
        proof {
            let sb = s.spec_bytes();
            let n = sb.len() - rest.spec_bytes().len();
            assert(rest.spec_bytes().drop_first().subrange(
                rest.spec_bytes().drop_first().len() - rest2.spec_bytes().len(),
                rest.spec_bytes().drop_first().len() as int,
            ) =~= sb.subrange(sb.len() - rest2.spec_bytes().len(), sb.len() as int));
        }
        Ok((rest2, loc))
    } else {
        let loc = match start {
            None => Location::Unspecified,
            Some(a) => Location::Single(a),
        };
        Ok((rest, loc))
    }
}

/// The verb that the text `v` names: `q`, `Q`, `w`, `wq`, `p`, `n`, `?` or `a`.
pub open spec fn verb_spec(v: Seq<u8>) -> Option<Verb> {
    if v.len() == 1 && v[0] == LOWER_Q {
        Some(Verb::Quit { force: false })
    } else if v.len() == 1 && v[0] == UPPER_Q {
        Some(Verb::Quit { force: true })
    } else if v.len() == 1 && v[0] == LOWER_W {
        Some(Verb::Write { quit: false })
    } else if v.len() == 2 && v[0] == LOWER_W && v[1] == LOWER_Q {
        Some(Verb::Write { quit: true })
    } else if v.len() == 1 && v[0] == LOWER_P {
        Some(Verb::Print { numbered: false })
    } else if v.len() == 1 && v[0] == LOWER_N {
        Some(Verb::Print { numbered: true })
    } else if v.len() == 1 && v[0] == QUESTION {
        Some(Verb::Info)
    } else if v.len() == 1 && v[0] == LOWER_A {
        Some(Verb::Append)
    } else {
        None
    }
}

/// Whether the command made from a verb keeps the location written before it.
pub open spec fn takes_location(v: Verb) -> bool {
    v is Write || v is Print || v is Append
}

/// What a whole command line `b` stands for. A line that is only `?` is
/// `Info`; elsewhere a leading `?` opens a regular expression address.
pub open spec fn command_spec(b: Seq<u8>) -> Result<CommandView, ParseError> {
    if b == seq![QUESTION] {
        Ok(CommandView { verb: Verb::Info, location: LocationView::Unspecified })
    } else {
        command_after_location(b)
    }
}

/// What a command line stands for, read as a location and then a verb.
pub open spec fn command_after_location(b: Seq<u8>) -> Result<CommandView, ParseError> {
    match location_spec(b) {
        Err(e) => Err(e),
        Ok((n, loc)) => {
            let rest = b.subrange(n as int, b.len() as int);
            if rest.len() == 0 {
                Err(ParseError::UnexpectedEndOfCommand)
            } else {
                match verb_spec(rest) {
                    None => Err(ParseError::UnexpectedCharacter),
                    Some(v) => Ok(
                        CommandView {
                            verb: v,
                            location: if takes_location(v) {
                                loc
                            } else {
                                LocationView::Unspecified
                            },
                        },
                    ),
                }
            }
        },
    }
}

impl Command {
    /// Reads one command line: a location followed by a verb.
    pub fn parse(s: &str) -> (r: Result<Command, ParseError>)
        ensures
            match command_spec(s.spec_bytes()) {
                Ok(c) => r is Ok && r->Ok_0@ == c,
                Err(e) => r is Err && r->Err_0 == e,
            },
    {
        let whole = s.as_bytes();
        let only_question_mark = whole.len() == 1 && whole[0] == QUESTION;
        proof {
            assert(only_question_mark == (whole@ =~= seq![QUESTION]));
        }
        if only_question_mark {
            return Ok(Command::Info);
        }
        let (rest, loc) = match location(s) {
            Ok(p) => p,
            Err(e) => {
                return Err(e);
            },
        };
        let v = rest.as_bytes();
        if v.len() == 0 {
            Err(ParseError::UnexpectedEndOfCommand)
        } else if v.len() == 1 {
            let c = v[0];
            if c == LOWER_Q {
                Ok(Command::Quit { force: false })
            } else if c == UPPER_Q {
                Ok(Command::Quit { force: true })
            } else if c == LOWER_W {
                Ok(Command::Write { location: loc, quit: false })
            } else if c == LOWER_P {
                Ok(Command::Print { location: loc, numbered: false })
            } else if c == LOWER_N {
                Ok(Command::Print { location: loc, numbered: true })
            } else if c == QUESTION {
                Ok(Command::Info)
            } else if c == LOWER_A {
                Ok(Command::Append { location: loc })
            } else {
                Err(ParseError::UnexpectedCharacter)
            }
        } else if v.len() == 2 && v[0] == LOWER_W && v[1] == LOWER_Q {
            Ok(Command::Write { location: loc, quit: true })
        } else {
            Err(ParseError::UnexpectedCharacter)
        }
    }
}

impl FromStr for Command {
    type Err = ParseError;

    fn from_str(s: &str) -> (r: Result<Command, ParseError>)
        ensures
            match command_spec(s.spec_bytes()) {
                Ok(c) => r is Ok && r->Ok_0@ == c,
                Err(e) => r is Err && r->Err_0 == e,
            },
    {
        Command::parse(s)
    }
}

/// The words that describe a parse error to a user.
pub open spec fn parse_message(e: ParseError) -> Seq<char> {
    match e {
        ParseError::UnexpectedEndOfCommand => "unexpected end of command"@,
        ParseError::UnexpectedCharacter => "unexpected character"@,
        ParseError::AddressOutOfBounds => "address out of bounds"@,
        ParseError::RegexNotSupportedYet => "regular expressions are not supported yet"@,
    }
}

impl ParseError {
    /// The words that describe the error to a user.
    pub fn message(&self) -> (r: &'static str)
        ensures
            r@ == parse_message(*self),
    {
        match self {
            ParseError::UnexpectedEndOfCommand => "unexpected end of command",
            ParseError::UnexpectedCharacter => "unexpected character",
            ParseError::AddressOutOfBounds => "address out of bounds",
            ParseError::RegexNotSupportedYet => "regular expressions are not supported yet",
        }
    }
}

/// A non-empty string of digits reads, whole, as the line with that number;
/// where the number does not fit in `usize`, the address is out of bounds.
pub proof fn lemma_digits_address(d: Seq<u8>)
    requires
        d.len() > 0,
        forall|j: int| 0 <= j < d.len() ==> is_digit(#[trigger] d[j]),
    ensures
        decimal_value(d) <= usize::MAX ==> address_spec(d) == Ok::<(nat, Option<Address>), ParseError>(
            (d.len(), Some(Address::Absolute(decimal_value(d) as usize))),
        ),
        decimal_value(d) > usize::MAX ==> address_spec(d) == Err::<(nat, Option<Address>), ParseError>(
            ParseError::AddressOutOfBounds,
        ),
{
    lemma_leading_digits(d, d.len() as int);
    assert(d.subrange(0, d.len() as int) =~= d);
}

} // verus!
