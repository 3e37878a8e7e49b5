//! The words in which a failure is reported to a client.

use vstd::prelude::*;
use vstd::string::*;
use crate::block_meta::QueryError;

verus! {

/// The kind of failure, as the transport reports it.
#[derive(Debug, Clone, Copy, PartialEq, Eq, Structural)]
pub enum StatusCode {
    /// The client sent something that cannot be used.
    InvalidArgument,
    /// Something could not be read at all.
    Unknown,
    /// The service cannot answer.
    Internal,
}

/// The character of a decimal digit.
pub open spec fn digit_char(digit: nat) -> char {
    if digit == 0 {
        '0'
    } else if digit == 1 {
        '1'
    } else if digit == 2 {
        '2'
    } else if digit == 3 {
        '3'
    } else if digit == 4 {
        '4'
    } else if digit == 5 {
        '5'
    } else if digit == 6 {
        '6'
    } else if digit == 7 {
        '7'
    } else if digit == 8 {
        '8'
    } else {
        '9'
    }
}

/// The decimal digits of a natural number, without leading zeros.
pub open spec fn digits(number: nat) -> Seq<char>
    decreases number,
{
    if number < 10 {
        seq![digit_char(number)]
    } else {
        digits(number / 10).push(digit_char(number % 10))
    }
}

/// An integer in decimal, with a minus sign before a negative one.
pub open spec fn decimal(number: int) -> Seq<char> {
    if number < 0 {
        seq!['-'] + digits((-number) as nat)
    } else {
        digits(number as nat)
    }
}

/// The text of a decimal digit.
fn digit_text(digit: u64) -> (text: &'static str)
    requires
        digit < 10,
    ensures
        text@ == seq![digit_char(digit as nat)],
{
    proof {
        reveal_strlit("0");
        reveal_strlit("1");
        reveal_strlit("2");
        reveal_strlit("3");
        reveal_strlit("4");
        reveal_strlit("5");
        reveal_strlit("6");
        reveal_strlit("7");
        reveal_strlit("8");
        reveal_strlit("9");
    }
    let text = if digit == 0 {
        "0"
    } else if digit == 1 {
        "1"
    } else if digit == 2 {
        "2"
    } else if digit == 3 {
        "3"
    } else if digit == 4 {
        "4"
    } else if digit == 5 {
        "5"
    } else if digit == 6 {
        "6"
    } else if digit == 7 {
        "7"
    } else if digit == 8 {
        "8"
    } else {
        "9"
    };
    assert(text@ =~= seq![digit_char(digit as nat)]);
    text
}

/// Appends the decimal digits of `number` to `text`.
fn append_digits(text: &mut String, number: u64)
    ensures
        final(text)@ == old(text)@ + digits(number as nat),
    decreases number,
{
    if number >= 10 {
        append_digits(text, number / 10);
    }
    let ghost before = text@;
    text.append(digit_text(number % 10));
    proof {
        if number >= 10 {
            assert(text@ =~= old(text)@ + digits((number / 10) as nat).push(
                digit_char((number % 10) as nat),
            ));
        } else {
            assert(text@ =~= old(text)@ + seq![digit_char(number as nat)]);
        }
    }
}

/// Appends `number` in decimal to `text`.
pub fn append_decimal(text: &mut String, number: i32)
    ensures
        final(text)@ == old(text)@ + decimal(number as int),
{
    if number < 0 {
        proof {
            reveal_strlit("-");
        }
        text.append("-");
        let ghost signed = text@;
        append_digits(text, (-(number as i64)) as u64);
        proof {
            assert("-"@ =~= seq!['-']);
            assert(text@ =~= old(text)@ + (seq!['-'] + digits((-number) as nat)));
        }
    } else {
        append_digits(text, number as u64);
    }
}

impl QueryError {
    /// The kind under which the failure is reported: a commitment that is
    /// none cannot be read, everything else is the service being unable to
    /// answer.
    pub open spec fn status_code(self) -> StatusCode {
        match self {
            QueryError::UnknownCommitment(_) => StatusCode::Unknown,
            _ => StatusCode::Internal,
        }
    }

    /// The words in which the failure is reported.
    pub open spec fn status_message(self) -> Seq<char> {
        match self {
            QueryError::UnknownCommitment(code) => "failed to create CommitmentLevel from "@
                + decimal(code as int),
            QueryError::Startup => "startup"@,
            QueryError::BlockNotAvailable => "block is not available yet"@,
            QueryError::ResponseNotBuilt => "failed to build response"@,
        }
    }

    /// The kind under which the failure is reported.
    pub fn code(&self) -> (code: StatusCode)
        ensures
            code == self.status_code(),
    {
        match self {
            QueryError::UnknownCommitment(_) => StatusCode::Unknown,
            _ => StatusCode::Internal,
        }
    }

    /// The words in which the failure is reported.
    pub fn message(&self) -> (message: String)
        ensures
            message@ == self.status_message(),
    {
        match self {
            QueryError::UnknownCommitment(code) => {
                let mut message = String::from_str("failed to create CommitmentLevel from ");
                append_decimal(&mut message, *code);
                message
            },
            QueryError::Startup => String::from_str("startup"),
            QueryError::BlockNotAvailable => String::from_str("block is not available yet"),
            QueryError::ResponseNotBuilt => String::from_str("failed to build response"),
        }
    }
}

/// The words in which a session is told that it could not keep up, reported
/// as the service being unable to answer.
pub fn lagged_message() -> (message: &'static str)
    ensures
        message@ == "lagged"@,
{
    "lagged"
}

/// The words in which a client is told that its filter could not be used,
/// reported as an invalid argument: the reason behind a fixed beginning.
pub fn invalid_filter_message(reason: &str) -> (message: String)
    ensures
        message@ == "failed to create filter: "@ + reason@,
{
    let mut message = String::from_str("failed to create filter: ");
    message.append(reason);
    message
}

} // verus!
