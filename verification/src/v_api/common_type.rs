//! Result codes of the platform API.

use vstd::prelude::*;

verus! {

/// The result codes the platform's services answer with.
#[derive(Eq, PartialEq, Structural, Debug, Clone, Copy)]
pub enum ResultCode {
    Zero,
    Okay,
    Created,
    NoContent,
    BadRequest,
    Forbidden,
    NotFound,
    UnprocessableEntity,
    Locked,
    TooManyRequests,
    TooManyRequestsChangePassword,
    ChangePasswordForbidden,
    SecretExpired,
    EmptyPassword,
    NewPasswordIsEqualToOld,
    InvalidPassword,
    InvalidSecret,
    PasswordExpired,
    TicketNotFound,
    TicketExpired,
    NotAuthorized,
    AuthenticationFailed,
    NotReady,
    FailOpenTransaction,
    FailCommit,
    FailStore,
    InternalServerError,
    NotImplemented,
    ServiceUnavailable,
    InvalidIdentifier,
    DatabaseModifiedError,
    DiskFull,
    DuplicateKey,
    SizeTooLarge,
    ConnectError,
}

/// The numeric wire value of a result code.
pub open spec fn spec_result_code_value(c: ResultCode) -> int {
    match c {
        ResultCode::Zero => 0,
        ResultCode::Okay => 200,
        ResultCode::Created => 201,
        ResultCode::NoContent => 204,
        ResultCode::BadRequest => 400,
        ResultCode::Forbidden => 403,
        ResultCode::NotFound => 404,
        ResultCode::UnprocessableEntity => 422,
        ResultCode::Locked => 423,
        ResultCode::TooManyRequests => 429,
        ResultCode::TooManyRequestsChangePassword => 430,
        ResultCode::ChangePasswordForbidden => 463,
        ResultCode::SecretExpired => 464,
        ResultCode::EmptyPassword => 465,
        ResultCode::NewPasswordIsEqualToOld => 466,
        ResultCode::InvalidPassword => 467,
        ResultCode::InvalidSecret => 468,
        ResultCode::PasswordExpired => 469,
        ResultCode::TicketNotFound => 470,
        ResultCode::TicketExpired => 471,
        ResultCode::NotAuthorized => 472,
        ResultCode::AuthenticationFailed => 473,
        ResultCode::NotReady => 474,
        ResultCode::FailOpenTransaction => 475,
        ResultCode::FailCommit => 476,
        ResultCode::FailStore => 477,
        ResultCode::InternalServerError => 500,
        ResultCode::NotImplemented => 501,
        ResultCode::ServiceUnavailable => 503,
        ResultCode::InvalidIdentifier => 904,
        ResultCode::DatabaseModifiedError => 999,
        ResultCode::DiskFull => 1021,
        ResultCode::DuplicateKey => 1022,
        ResultCode::SizeTooLarge => 1118,
        ResultCode::ConnectError => 4000,
    }
}

/// The result code a numeric value names; unknown values read as
/// `Zero`.
pub open spec fn spec_result_code_from(value: int) -> ResultCode {
    if value == 0 {
        ResultCode::Zero
    } else if value == 200 {
        ResultCode::Okay
    } else if value == 201 {
        ResultCode::Created
    } else if value == 204 {
        ResultCode::NoContent
    } else if value == 400 {
        ResultCode::BadRequest
    } else if value == 403 {
        ResultCode::Forbidden
    } else if value == 404 {
        ResultCode::NotFound
    } else if value == 422 {
        ResultCode::UnprocessableEntity
    } else if value == 429 {
        ResultCode::TooManyRequests
    } else if value == 463 {
        ResultCode::ChangePasswordForbidden
    } else if value == 464 {
        ResultCode::SecretExpired
    } else if value == 465 {
        ResultCode::EmptyPassword
    } else if value == 466 {
        ResultCode::NewPasswordIsEqualToOld
    } else if value == 467 {
        ResultCode::InvalidPassword
    } else if value == 468 {
        ResultCode::InvalidSecret
    } else if value == 469 {
        ResultCode::PasswordExpired
    } else if value == 470 {
        ResultCode::TicketNotFound
    } else if value == 471 {
        ResultCode::TicketExpired
    } else if value == 472 {
        ResultCode::NotAuthorized
    } else if value == 473 {
        ResultCode::AuthenticationFailed
    } else if value == 474 {
        ResultCode::NotReady
    } else if value == 475 {
        ResultCode::FailOpenTransaction
    } else if value == 476 {
        ResultCode::FailCommit
    } else if value == 477 {
        ResultCode::FailStore
    } else if value == 500 {
        ResultCode::InternalServerError
    } else if value == 501 {
        ResultCode::NotImplemented
    } else if value == 503 {
        ResultCode::ServiceUnavailable
    } else if value == 904 {
        ResultCode::InvalidIdentifier
    } else if value == 999 {
        ResultCode::DatabaseModifiedError
    } else if value == 1021 {
        ResultCode::DiskFull
    } else if value == 1022 {
        ResultCode::DuplicateKey
    } else if value == 1118 {
        ResultCode::SizeTooLarge
    } else if value == 4000 {
        ResultCode::ConnectError
    } else {
        ResultCode::Zero
    }
}

impl ResultCode {
    /// Reads a result code from its wire value; unknown values read
    /// as `Zero`.
    pub fn from_i64(value: i64) -> (r: ResultCode)
        ensures
            r == spec_result_code_from(value as int),
    {
        match value {
            0 => ResultCode::Zero,
            200 => ResultCode::Okay,
            201 => ResultCode::Created,
            204 => ResultCode::NoContent,
            400 => ResultCode::BadRequest,
            403 => ResultCode::Forbidden,
            404 => ResultCode::NotFound,
            422 => ResultCode::UnprocessableEntity,
            429 => ResultCode::TooManyRequests,
            463 => ResultCode::ChangePasswordForbidden,
            464 => ResultCode::SecretExpired,
            465 => ResultCode::EmptyPassword,
            466 => ResultCode::NewPasswordIsEqualToOld,
            467 => ResultCode::InvalidPassword,
            468 => ResultCode::InvalidSecret,
            469 => ResultCode::PasswordExpired,
            470 => ResultCode::TicketNotFound,
            471 => ResultCode::TicketExpired,
            472 => ResultCode::NotAuthorized,
            473 => ResultCode::AuthenticationFailed,
            474 => ResultCode::NotReady,
            475 => ResultCode::FailOpenTransaction,
            476 => ResultCode::FailCommit,
            477 => ResultCode::FailStore,
            500 => ResultCode::InternalServerError,
            501 => ResultCode::NotImplemented,
            503 => ResultCode::ServiceUnavailable,
            904 => ResultCode::InvalidIdentifier,
            999 => ResultCode::DatabaseModifiedError,
            1021 => ResultCode::DiskFull,
            1022 => ResultCode::DuplicateKey,
            1118 => ResultCode::SizeTooLarge,
            4000 => ResultCode::ConnectError,
            _ => ResultCode::Zero,
        }
    }

    /// The numeric wire value of this code.
    pub fn to_u16(&self) -> (r: u16)
        ensures
            r == spec_result_code_value(*self),
    {
        match self {
            ResultCode::Zero => 0,
            ResultCode::Okay => 200,
            ResultCode::Created => 201,
            ResultCode::NoContent => 204,
            ResultCode::BadRequest => 400,
            ResultCode::Forbidden => 403,
            ResultCode::NotFound => 404,
            ResultCode::UnprocessableEntity => 422,
            ResultCode::Locked => 423,
            ResultCode::TooManyRequests => 429,
            ResultCode::TooManyRequestsChangePassword => 430,
            ResultCode::ChangePasswordForbidden => 463,
            ResultCode::SecretExpired => 464,
            ResultCode::EmptyPassword => 465,
            ResultCode::NewPasswordIsEqualToOld => 466,
            ResultCode::InvalidPassword => 467,
            ResultCode::InvalidSecret => 468,
            ResultCode::PasswordExpired => 469,
            ResultCode::TicketNotFound => 470,
            ResultCode::TicketExpired => 471,
            ResultCode::NotAuthorized => 472,
            ResultCode::AuthenticationFailed => 473,
            ResultCode::NotReady => 474,
            ResultCode::FailOpenTransaction => 475,
            ResultCode::FailCommit => 476,
            ResultCode::FailStore => 477,
            ResultCode::InternalServerError => 500,
            ResultCode::NotImplemented => 501,
            ResultCode::ServiceUnavailable => 503,
            ResultCode::InvalidIdentifier => 904,
            ResultCode::DatabaseModifiedError => 999,
            ResultCode::DiskFull => 1021,
            ResultCode::DuplicateKey => 1022,
            ResultCode::SizeTooLarge => 1118,
            ResultCode::ConnectError => 4000,
        }
    }
}

/// Whether a request must be authorized.
#[derive(Debug, Eq, PartialEq, Structural)]
pub enum OptAuthorize {
    NO,
    YES,
}

} // verus!
