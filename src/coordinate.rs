use vstd::prelude::*;
use crate::board::{Coordinate, Errors};

verus! {

pub open spec fn is_digit(c: char) -> bool {
    '0' <= c && c <= '9'
}

/// The value of a string of decimal digits.
pub open spec fn digits_value(d: Seq<char>) -> nat
    decreases d.len(),
{
    if d.len() == 0 {
        0
    } else {
        digits_value(d.drop_last()) * 10 + ((d.last() as u32) - ('0' as u32)) as nat
    }
}

/// What `usize`'s `from_str` reads from `s`: an optional `+` followed by at
/// least one decimal digit and nothing else, whose value fits in a `usize`.
pub open spec fn decimal_usize(s: Seq<char>) -> Option<usize> {
    let d = if s.len() > 0 && s[0] == '+' {
        s.skip(1)
    } else {
        s
    };
    if d.len() > 0 && (forall|i: int| 0 <= i < d.len() ==> is_digit(#[trigger] d[i]))
        && digits_value(d) <= usize::MAX {
        Some(digits_value(d) as usize)
    } else {
        None
    }
}

/// `k` is the position of the first comma in `s`.
pub open spec fn is_first_comma(s: Seq<char>, k: int) -> bool {
    &&& 0 <= k < s.len()
    &&& s[k] == ','
    &&& !s.take(k).contains(',')
}

/// The coordinate read from the text on either side of the first comma.
pub open spec fn coordinate_from(left: Seq<char>, right: Seq<char>) -> Result<Coordinate, Errors> {
    match (decimal_usize(left), decimal_usize(right)) {
        (Some(x), Some(y)) => Ok(Coordinate(x, y)),
        _ => Err(Errors::ParseCoordinatesError),
    }
}

/// The result of reading a coordinate from `s`.
pub open spec fn parse_coordinate(s: Seq<char>) -> Result<Coordinate, Errors> {
    if exists|k: int| is_first_comma(s, k) {
        let k = choose|k: int| is_first_comma(s, k);
        coordinate_from(s.take(k), s.skip(k + 1))
    } else {
        Err(Errors::ParseCoordinatesError)
    }
}

/// Relies on `str::split_once`: the text before and after the first
/// occurrence of the delimiter, or `None` where it does not occur.
#[verifier::external_body]
fn split_at_comma(s: &str) -> (r: Option<(&str, &str)>)
    ensures
        r is None <==> !s@.contains(','),
        r matches Some((a, b)) ==> s@ == a@ + seq![','] + b@ && !a@.contains(','),
{
    s.split_once(',')
}

/// Relies on `usize`'s `FromStr` (`str::parse`): an optional `+` and
/// decimal digits, rejected where the value overflows.
#[verifier::external_body]
fn parse_usize(s: &str) -> (r: Option<usize>)
    ensures
        r == decimal_usize(s@),
{
    s.parse::<usize>().ok()
}

impl Coordinate {
    /// Reads `"x,y"`: the text before the first comma is `x`, the text
    /// after it is `y`, and each must be a non-negative integer.
    pub fn parse(s: &str) -> (r: Result<Coordinate, Errors>)
        ensures
            r == parse_coordinate(s@),
            !s@.contains(',') ==> r == Err::<Coordinate, Errors>(Errors::ParseCoordinatesError),
            forall|k: int| #[trigger] is_first_comma(s@, k) ==> r == coordinate_from(s@.take(k), s@.skip(k + 1)),
    {
        match split_at_comma(s) {
            None => {
                assert forall|k: int| !is_first_comma(s@, k) by {
                    if is_first_comma(s@, k) {
                        assert(s@.contains(','));
                    }
                }
                Err(Errors::ParseCoordinatesError)
            },
            Some((left, right)) => {
                proof {
                    let k = left@.len() as int;
                    assert(s@.take(k) =~= left@);
                    assert(s@.skip(k + 1) =~= right@);
                    assert(is_first_comma(s@, k));
                    assert forall|j: int| #[trigger] is_first_comma(s@, j) implies j == k by {
                        if j < k {
                            assert(left@[j] == ',');
                            assert(left@.contains(','));
                        } else if j > k {
                            assert(s@.take(j)[k] == ',');
                            assert(s@.take(j).contains(','));
                        }
                    }
                }
                match (parse_usize(left), parse_usize(right)) {
                    (Some(x), Some(y)) => Ok(Coordinate(x, y)),
                    _ => Err(Errors::ParseCoordinatesError),
                }
            },
        }
    }
}

impl std::str::FromStr for Coordinate {
    type Err = Errors;

    fn from_str(s: &str) -> Result<Coordinate, Errors> {
        Coordinate::parse(s)
    }
}

} // verus!
