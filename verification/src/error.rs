//! What a request that is refused is answered with.
use vstd::prelude::*;

verus! {

/// Why a request was refused.
#[derive(Debug)]
pub enum AppError {
    Unauthorized,
    Forbidden(String),
    NotFound(String),
    Conflict(String),
    BadRequest(String),
    Internal(String),
}

pub enum ErrorView {
    Unauthorized,
    Forbidden(Seq<char>),
    NotFound(Seq<char>),
    Conflict(Seq<char>),
    BadRequest(Seq<char>),
    Internal(Seq<char>),
}

impl View for AppError {
    type V = ErrorView;

    open spec fn view(&self) -> ErrorView {
        match self {
            AppError::Unauthorized => ErrorView::Unauthorized,
            AppError::Forbidden(m) => ErrorView::Forbidden(m@),
            AppError::NotFound(m) => ErrorView::NotFound(m@),
            AppError::Conflict(m) => ErrorView::Conflict(m@),
            AppError::BadRequest(m) => ErrorView::BadRequest(m@),
            AppError::Internal(m) => ErrorView::Internal(m@),
        }
    }
}

/// The HTTP status that a refusal is sent with.
pub open spec fn status_of(e: ErrorView) -> u16 {
    match e {
        ErrorView::Unauthorized => 401,
        ErrorView::Forbidden(_) => 403,
        ErrorView::NotFound(_) => 404,
        ErrorView::Conflict(_) => 409,
        ErrorView::BadRequest(_) => 400,
        ErrorView::Internal(_) => 500,
    }
}

impl AppError {
    pub fn status(&self) -> (code: u16)
        ensures
            code == status_of(self@),
    {
        match self {
            AppError::Unauthorized => 401,
            AppError::Forbidden(_) => 403,
            AppError::NotFound(_) => 404,
            AppError::Conflict(_) => 409,
            AppError::BadRequest(_) => 400,
            AppError::Internal(_) => 500,
        }
    }
}

/// A refusal because something inside has failed: what, and why.
pub fn internal(what: &str, why: &str) -> (out: AppError)
    ensures
        out@ == ErrorView::Internal(what@ + why@),
{
    let mut m = what.to_owned();
    m.push_str(why);
    AppError::Internal(m)
}

pub type AppResult<T> = Result<T, AppError>;

/// The view of a result.
pub open spec fn viewed<T: View>(res: Result<T, AppError>) -> Result<T::V, ErrorView> {
    match res {
        Ok(v) => Ok(v@),
        Err(e) => Err(e@),
    }
}

/// A refusal that is given before a request reaches its handler.
#[derive(Debug)]
pub struct Refusal {
    pub status: u16,
    pub message: String,
}

impl View for Refusal {
    type V = (u16, Seq<char>);

    open spec fn view(&self) -> (u16, Seq<char>) {
        (self.status, self.message@)
    }
}

/// The HTTP status of each refusal.
pub proof fn law_statuses(e: ErrorView)
    ensures
        e is Unauthorized ==> status_of(e) == 401,
        e is Forbidden ==> status_of(e) == 403,
        e is NotFound ==> status_of(e) == 404,
        e is Conflict ==> status_of(e) == 409,
        e is BadRequest ==> status_of(e) == 400,
        e is Internal ==> status_of(e) == 500,
{
}

} // verus!
