//! The string as a value of an interchange format: written out as a text of
//! its own, read back from one, and refused in words where it does not fit.
use crate::buffer::{Buffer, OwnedBuffer};
use crate::wrapper::{Error, StringWrapper};
use core::ops::Deref;
use core::str::FromStr;
use vstd::prelude::*;
use vstd::string::{StringExecFns, StringSliceAdditionalSpecFns};
use vstd::utf8::*;

verus! {

/// A text that was refused because it is too long.
#[derive(Debug)]
pub struct InvalidLength {
    /// The length of the text in bytes.
    pub length: usize,
    /// What was expected in its place, in words.
    pub expected: String,
}

/// The character of a digit.
pub open spec fn digit(d: nat) -> char {
    if d == 0 {
        '0'
    } else if d == 1 {
        '1'
    } else if d == 2 {
        '2'
    } else if d == 3 {
        '3'
    } else if d == 4 {
        '4'
    } else if d == 5 {
        '5'
    } else if d == 6 {
        '6'
    } else if d == 7 {
        '7'
    } else if d == 8 {
        '8'
    } else {
        '9'
    }
}

/// A number in decimal digits, without leading zeros.
pub open spec fn decimal(n: nat) -> Seq<char>
    decreases n,
{
    if n < 10 {
        seq![digit(n)]
    } else {
        decimal(n / 10).push(digit(n % 10))
    }
}

/// What is expected of a text that is to fit `capacity` bytes, in words.
pub open spec fn expectation(capacity: nat) -> Seq<char> {
    "string that can fit into "@ + decimal(capacity) + " bytes"@
}

/// Whether a text fits the buffers of kind `T`.
pub open spec fn fits<T: OwnedBuffer>(text: Seq<char>) -> bool {
    encode_utf8(text).len() <= T::fresh_len()
}

fn digit_text(d: usize) -> (text: &'static str)
    requires
        d < 10,
    ensures
        text@ == seq![digit(d as nat)],
{
    proof {
        reveal_strlit("0");
        reveal_strlit("1");
        reveal_strlit("2");
        reveal_strlit("3");
        reveal_strlit("4");
        reveal_strlit("5");
        reveal_strlit("6");
        reveal_strlit("7");
        reveal_strlit("8");
        reveal_strlit("9");
    }
    let text = if d == 0 {
        "0"
    } else if d == 1 {
        "1"
    } else if d == 2 {
        "2"
    } else if d == 3 {
        "3"
    } else if d == 4 {
        "4"
    } else if d == 5 {
        "5"
    } else if d == 6 {
        "6"
    } else if d == 7 {
        "7"
    } else if d == 8 {
        "8"
    } else {
        "9"
    };
    assert(text@ =~= seq![digit(d as nat)]);
    text
}

/// Writes a number in decimal digits.
pub fn decimal_text(n: usize) -> (text: String)
    ensures
        text@ == decimal(n as nat),
    decreases n,
{
    if n < 10 {
        digit_text(n).to_owned()
    } else {
        let mut text = decimal_text(n / 10);
        text.append(digit_text(n % 10));
        assert(text@ =~= decimal(n as nat));
        text
    }
}

/// Says what is expected of a text that is to fit `capacity` bytes.
pub fn expectation_text(capacity: usize) -> (text: String)
    ensures
        text@ == expectation(capacity as nat),
{
    let mut text = "string that can fit into ".to_owned();
    let number = decimal_text(capacity);
    text.append(number.as_str());
    text.append(" bytes");
    text
}

/// The text of a string as a `String` of its own. A string that is not
/// well-formed gives the empty text.
pub fn encode<T: Buffer>(s: &StringWrapper<T>) -> (text: String)
    ensures
        valid_utf8(s.spec_bytes()) ==> text@ == s@,
        !valid_utf8(s.spec_bytes()) ==> text@ == Seq::<char>::empty(),
{
    s.deref().to_owned()
}

/// A string over a fresh buffer that holds all of `text`. A text that is
/// too long for the buffer is refused, never cut: the error gives its length
/// and names the capacity.
pub fn decode<T: OwnedBuffer>(text: &str) -> (r: Result<StringWrapper<T>, InvalidLength>)
    ensures
        r is Ok <==> fits::<T>(text@),
        r is Ok ==> {
            &&& r->Ok_0.wf()
            &&& r->Ok_0.spec_capacity() == T::fresh_len()
            &&& r->Ok_0.spec_bytes() == text.spec_bytes()
            &&& r->Ok_0@ == text@
        },
        r is Err ==> {
            &&& r->Err_0.length == text.spec_bytes().len()
            &&& r->Err_0.expected@ == expectation(T::fresh_len())
        },
{
    match StringWrapper::<T>::from_str(text) {
        Ok(s) => Ok(s),
        Err(Error::InsufficientLength { expected, actual }) => Err(
            InvalidLength { length: expected, expected: expectation_text(actual) },
        ),
    }
}

} // verus!
