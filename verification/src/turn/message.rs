//! TURN error codes.

use vstd::prelude::*;
use vstd::string::*;

use crate::text::{ascii_chars, ascii_string, chars_of};

verus! {

/// TURN error codes.
#[derive(Debug, Clone, Copy, PartialEq, Eq, Structural)]
pub enum TurnErrorCode {
    /// 400 Bad Request
    BadRequest,
    /// 401 Unauthorized
    Unauthorized,
    /// 403 Forbidden
    Forbidden,
    /// 420 Unknown Attribute
    UnknownAttribute,
    /// 437 Allocation Mismatch
    AllocationMismatch,
    /// 438 Stale Nonce
    StaleNonce,
    /// 441 Wrong Credentials
    WrongCredentials,
    /// 442 Unsupported Transport Protocol
    UnsupportedTransport,
    /// 486 Allocation Quota Reached
    AllocationQuotaReached,
    /// 500 Server Error
    ServerError,
    /// 508 Insufficient Capacity
    InsufficientCapacity,
}

impl TurnErrorCode {
    pub open spec fn spec_code(self) -> u16 {
        match self {
            TurnErrorCode::BadRequest => 400,
            TurnErrorCode::Unauthorized => 401,
            TurnErrorCode::Forbidden => 403,
            TurnErrorCode::UnknownAttribute => 420,
            TurnErrorCode::AllocationMismatch => 437,
            TurnErrorCode::StaleNonce => 438,
            TurnErrorCode::WrongCredentials => 441,
            TurnErrorCode::UnsupportedTransport => 442,
            TurnErrorCode::AllocationQuotaReached => 486,
            TurnErrorCode::ServerError => 500,
            TurnErrorCode::InsufficientCapacity => 508,
        }
    }

    pub open spec fn spec_reason(self) -> Seq<char> {
        match self {
            TurnErrorCode::BadRequest => "Bad Request"@,
            TurnErrorCode::Unauthorized => "Unauthorized"@,
            TurnErrorCode::Forbidden => "Forbidden"@,
            TurnErrorCode::UnknownAttribute => "Unknown Attribute"@,
            TurnErrorCode::AllocationMismatch => "Allocation Mismatch"@,
            TurnErrorCode::StaleNonce => "Stale Nonce"@,
            TurnErrorCode::WrongCredentials => "Wrong Credentials"@,
            TurnErrorCode::UnsupportedTransport => "Unsupported Transport Protocol"@,
            TurnErrorCode::AllocationQuotaReached => "Allocation Quota Reached"@,
            TurnErrorCode::ServerError => "Server Error"@,
            TurnErrorCode::InsufficientCapacity => "Insufficient Capacity"@,
        }
    }

    /// The number of the error.
    pub fn code(&self) -> (r: u16)
        ensures
            r == self.spec_code(),
    {
        match *self {
            TurnErrorCode::BadRequest => 400,
            TurnErrorCode::Unauthorized => 401,
            TurnErrorCode::Forbidden => 403,
            TurnErrorCode::UnknownAttribute => 420,
            TurnErrorCode::AllocationMismatch => 437,
            TurnErrorCode::StaleNonce => 438,
            TurnErrorCode::WrongCredentials => 441,
            TurnErrorCode::UnsupportedTransport => 442,
            TurnErrorCode::AllocationQuotaReached => 486,
            TurnErrorCode::ServerError => 500,
            TurnErrorCode::InsufficientCapacity => 508,
        }
    }

    /// The reason phrase of the error.
    pub fn reason(&self) -> (r: &'static str)
        ensures
            r@ == self.spec_reason(),
    {
        match *self {
            TurnErrorCode::BadRequest => "Bad Request",
            TurnErrorCode::Unauthorized => "Unauthorized",
            TurnErrorCode::Forbidden => "Forbidden",
            TurnErrorCode::UnknownAttribute => "Unknown Attribute",
            TurnErrorCode::AllocationMismatch => "Allocation Mismatch",
            TurnErrorCode::StaleNonce => "Stale Nonce",
            TurnErrorCode::WrongCredentials => "Wrong Credentials",
            TurnErrorCode::UnsupportedTransport => "Unsupported Transport Protocol",
            TurnErrorCode::AllocationQuotaReached => "Allocation Quota Reached",
            TurnErrorCode::ServerError => "Server Error",
            TurnErrorCode::InsufficientCapacity => "Insufficient Capacity",
        }
    }
}

/// No two errors share a number, and every number has three digits.
pub proof fn codes_are_distinct(a: TurnErrorCode, b: TurnErrorCode)
    ensures
        a.spec_code() == b.spec_code() ==> a == b,
        400 <= a.spec_code() < 600,
{
}

/// A TURN error with an optional explanation.
#[derive(Debug)]
pub struct TurnError {
    pub code: TurnErrorCode,
    pub message: Option<String>,
}

/// The three decimal digits of an error number.
pub open spec fn code_digits(code: u16) -> Seq<char> {
    ascii_chars(
        seq![(48 + code / 100) as u8, (48 + code / 10 % 10) as u8, (48 + code % 10) as u8],
    )
}

impl TurnError {
    pub fn new(code: TurnErrorCode) -> (e: Self)
        ensures
            e.code == code,
            e.message is None,
    {
        Self { code, message: None }
    }

    pub fn with_message(code: TurnErrorCode, message: String) -> (e: Self)
        ensures
            e.code == code,
            e.message == Some(message),
    {
        Self { code, message: Some(message) }
    }

    /// The error as text: number and reason, then a colon and the explanation
    /// if there is one.
    pub fn text(&self) -> (s: String)
        ensures
            s@ == code_digits(self.code.spec_code()) + seq![' '] + self.code.spec_reason() + match chars_of(
                self.message,
            ) {
                Some(m) => seq![':', ' '] + m,
                None => Seq::empty(),
            },
    {
        let code: u16 = self.code.code();
        let mut digits: Vec<u8> = Vec::new();
        digits.push((48 + code / 100) as u8);
        digits.push((48 + code / 10 % 10) as u8);
        digits.push((48 + code % 10) as u8);
        let mut s = ascii_string(digits);
        assert(digits@ =~= seq![
            (48 + code / 100) as u8,
            (48 + code / 10 % 10) as u8,
            (48 + code % 10) as u8,
        ]);
        proof {
            reveal_strlit(" ");
            reveal_strlit(": ");
            assert(" "@ =~= seq![' ']);
            assert(": "@ =~= seq![':', ' ']);
        }
        s.append(" ");
        s.append(self.code.reason());
        let ghost head = s@;
        match &self.message {
            Some(m) => {
                s.append(": ");
                s.append(m.as_str());
                assert(s@ =~= head + (seq![':', ' '] + m@));
            },
            None => {
                assert(s@ =~= head + Seq::<char>::empty());
            },
        }
        s
    }
}

} // verus!
