use vstd::prelude::*;

verus! {

/// The errors of the calendar service.
#[derive(Debug)]
pub enum AppError {
    /// The request could not be understood.
    BadRequest(String),
    /// The upstream service failed or answered with something unusable.
    Upstream(String),
    /// The calendar could not be produced.
    Calendar(String),
}

/// A result whose error is an [`AppError`].
pub type AppResult<T> = Result<T, AppError>;

impl AppError {
    /// The HTTP status that answers this error.
    pub open spec fn spec_status_code(&self) -> u16 {
        match self {
            AppError::BadRequest(_) => 400,
            AppError::Upstream(_) => 502,
            AppError::Calendar(_) => 500,
        }
    }

    /// The text that the error carries.
    pub open spec fn spec_message(&self) -> Seq<char> {
        match self {
            AppError::BadRequest(m) => m@,
            AppError::Upstream(m) => m@,
            AppError::Calendar(m) => m@,
        }
    }

    /// The HTTP status that answers this error: 400, 502 or 500.
    pub fn status_code(&self) -> (code: u16)
        ensures
            code == self.spec_status_code(),
    {
        match self {
            AppError::BadRequest(_) => 400,
            AppError::Upstream(_) => 502,
            AppError::Calendar(_) => 500,
        }
    }

    /// The text that the error carries, as its `Display` shows it.
    pub fn message(&self) -> (m: String)
        ensures
            m@ == self.spec_message(),
    {
        match self {
            AppError::BadRequest(m) => m.clone(),
            AppError::Upstream(m) => m.clone(),
            AppError::Calendar(m) => m.clone(),
        }
    }
}

/// `e` is a `BadRequest` that carries `message`.
pub open spec fn is_bad_request(e: AppError, message: Seq<char>) -> bool {
    e matches AppError::BadRequest(m) && m@ == message
}

} // verus!
