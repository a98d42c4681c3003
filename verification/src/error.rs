//! Application-layer error type.

use vstd::prelude::*;
use crate::text::concat;

verus! {

#[derive(Debug)]
pub enum AppError {
    Gateway(String),
    Repo(String),
    Json(String),
    Config(String),
}

impl AppError {
    /// The text the error displays: its kind, a colon and its message.
    pub open spec fn text(self) -> Seq<char> {
        match self {
            AppError::Gateway(m) => "gateway error: "@ + m@,
            AppError::Repo(m) => "repo error: "@ + m@,
            AppError::Json(m) => "json error: "@ + m@,
            AppError::Config(m) => "config error: "@ + m@,
        }
    }

    /// The displayed text of the error.
    pub fn to_string(&self) -> (r: String)
        ensures
            r@ == self.text(),
    {
        match self {
            AppError::Gateway(m) => concat("gateway error: ", m.as_str()),
            AppError::Repo(m) => concat("repo error: ", m.as_str()),
            AppError::Json(m) => concat("json error: ", m.as_str()),
            AppError::Config(m) => concat("config error: ", m.as_str()),
        }
    }
}

} // verus!
