use vstd::prelude::*;

verus! {

/// Why an answer to "how many players?" was not accepted.
#[derive(Debug, PartialEq, Eq, Structural)]
pub enum CountError {
    /// The answer is not a whole number.
    NotANumber,
    /// The number is outside 2 to 10.
    OutOfRange,
}

/// The text of `s` without leading and trailing whitespace, as
/// `str::trim` gives it.
pub uninterp spec fn trimmed(s: Seq<char>) -> Seq<char>;

/// The value of a string of decimal digits.
pub open spec fn digits_value(s: Seq<char>) -> nat
    decreases s.len(),
{
    if s.len() == 0 {
        0
    } else {
        digits_value(s.drop_last()) * 10 + (s.last() as nat - '0' as nat) as nat
    }
}

/// Every character of `s` is an ASCII digit.
pub open spec fn all_digits(s: Seq<char>) -> bool {
    forall|i: int| 0 <= i < s.len() ==> '0' <= #[trigger] s[i] && s[i] <= '9'
}

/// The number that `str::parse::<usize>` reads from `s`: an optional `+`
/// followed by one or more ASCII digits whose value fits in `usize`.
pub open spec fn parsed_usize(s: Seq<char>) -> Option<usize> {
    let d = if s.len() > 0 && s[0] == '+' {
        s.drop_first()
    } else {
        s
    };
    if d.len() > 0 && all_digits(d) && digits_value(d) <= usize::MAX {
        Some(digits_value(d) as usize)
    } else {
        None
    }
}

/// Relies on `str::trim`: the same text without surrounding whitespace.
#[verifier::external_body]
fn trim_input(s: &str) -> (r: &str)
    ensures
        r@ == trimmed(s@),
{
    s.trim()
}

/// Relies on `str::parse::<usize>` (`usize::from_str_radix` in base 10): an
/// optional `+`, then only digits, without overflow; anything else fails.
#[verifier::external_body]
fn parse_number(s: &str) -> (r: Option<usize>)
    ensures
        r == parsed_usize(s@),
{
    s.parse::<usize>().ok()
}

/// A game seats between two and ten players.
pub open spec fn count_outcome(parsed: Option<usize>) -> Result<usize, CountError> {
    match parsed {
        None => Err(CountError::NotANumber),
        Some(n) => if 2 <= n <= 10 {
            Ok(n)
        } else {
            Err(CountError::OutOfRange)
        },
    }
}

/// Accepts a number of players from 2 to 10.
pub fn check_player_count(parsed: Option<usize>) -> (r: Result<usize, CountError>)
    ensures
        r == count_outcome(parsed),
{
    match parsed {
        None => Err(CountError::NotANumber),
        Some(n) => if 2 <= n && n <= 10 {
            Ok(n)
        } else {
            Err(CountError::OutOfRange)
        },
    }
}

/// Reads a number of players from a line of input.
pub fn read_player_count(line: &str) -> (r: Result<usize, CountError>)
    ensures
        r == count_outcome(parsed_usize(trimmed(line@))),
{
    let t = trim_input(line);
    check_player_count(parse_number(t))
}

impl CountError {
    /// The message shown before asking again.
    pub fn message(&self) -> (r: String)
        ensures
            r@ == match *self {
                CountError::NotANumber => "Invalid Input."@,
                CountError::OutOfRange => "You can only have 2-10 players."@,
            },
    {
        match *self {
            CountError::NotANumber => String::from_str("Invalid Input."),
            CountError::OutOfRange => String::from_str("You can only have 2-10 players."),
        }
    }
}

} // verus!
