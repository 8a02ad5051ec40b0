//! Why a request or a task fails.
use vstd::prelude::*;

verus! {

#[derive(Debug)]
pub enum AppError {
    /// The request is refused as it stands.
    BadRequest(String),
    /// The caller is not known.
    UnauthorizedWith(String),
    /// The caller may not do this.
    Forbidden(String),
    /// What is asked for is not there.
    NotFound(String),
    /// The rule was changed in the meantime.
    StaleVersion,
    /// Stripe did not answer, or answered with an error.
    StripeApi(String),
    /// The role service has no such role link.
    RoleLinkNotFound,
    /// The role service takes no more users for the role link.
    UserLimitReached(i64),
    /// Something went wrong here.
    Internal(String),
}

pub enum ErrorModel {
    BadRequest(Seq<char>),
    UnauthorizedWith(Seq<char>),
    Forbidden(Seq<char>),
    NotFound(Seq<char>),
    StaleVersion,
    StripeApi(Seq<char>),
    RoleLinkNotFound,
    UserLimitReached(i64),
    Internal(Seq<char>),
}

impl View for AppError {
    type V = ErrorModel;

    open spec fn view(&self) -> ErrorModel {
        match self {
            AppError::BadRequest(m) => ErrorModel::BadRequest(m@),
            AppError::UnauthorizedWith(m) => ErrorModel::UnauthorizedWith(m@),
            AppError::Forbidden(m) => ErrorModel::Forbidden(m@),
            AppError::NotFound(m) => ErrorModel::NotFound(m@),
            AppError::StaleVersion => ErrorModel::StaleVersion,
            AppError::StripeApi(m) => ErrorModel::StripeApi(m@),
            AppError::RoleLinkNotFound => ErrorModel::RoleLinkNotFound,
            AppError::UserLimitReached(n) => ErrorModel::UserLimitReached(*n),
            AppError::Internal(m) => ErrorModel::Internal(m@),
        }
    }
}

/// The view of a result.
pub open spec fn outcome<T: View>(r: Result<T, AppError>) -> Result<T::V, ErrorModel> {
    match r {
        Ok(t) => Ok(t@),
        Err(e) => Err(e@),
    }
}

} // verus!
