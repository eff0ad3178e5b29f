//! The library's error type and the messages it shows.

use vstd::prelude::*;

use crate::text::concat_string;

verus! {

/// Errors of the archive operations. Each variant carries the detail text.
#[derive(Debug)]
pub enum AppError {
    /// An I/O failure, with the system's description.
    Io(String),
    /// A compression or extraction failure.
    Archive(String),
    /// A format that is not supported for the operation.
    UnsupportedFormat(String),
    /// A wrong or missing password (or a damaged encrypted archive).
    BadPassword(String),
    /// A configuration problem.
    Config(String),
    /// Anything else.
    Other(String),
}

/// The message shown for an error: a fixed prefix per kind, then the detail.
pub open spec fn error_message(e: AppError) -> Seq<char> {
    match e {
        AppError::Io(d) => "IO 错误: "@ + d@,
        AppError::Archive(d) => "压缩/解压错误: "@ + d@,
        AppError::UnsupportedFormat(d) => "不支持的格式: "@ + d@,
        AppError::BadPassword(d) => "密码错误或损坏的压缩包: "@ + d@,
        AppError::Config(d) => "配置错误: "@ + d@,
        AppError::Other(d) => d@,
    }
}

/// `e` is an `Archive` error with detail `t`.
pub open spec fn is_archive_err(e: AppError, t: Seq<char>) -> bool {
    e matches AppError::Archive(d) && d@ == t
}

/// `e` is a `BadPassword` error with detail `t`.
pub open spec fn is_password_err(e: AppError, t: Seq<char>) -> bool {
    e matches AppError::BadPassword(d) && d@ == t
}

/// `e` is an `UnsupportedFormat` error with detail `t`.
pub open spec fn is_unsupported_err(e: AppError, t: Seq<char>) -> bool {
    e matches AppError::UnsupportedFormat(d) && d@ == t
}

/// `e` is a `Config` error with detail `t`.
pub open spec fn is_config_err(e: AppError, t: Seq<char>) -> bool {
    e matches AppError::Config(d) && d@ == t
}

/// `e` is an `Other` error with detail `t`.
pub open spec fn is_other_err(e: AppError, t: Seq<char>) -> bool {
    e matches AppError::Other(d) && d@ == t
}

/// An `Archive` error with the detail `prefix ++ body`.
pub fn archive_err(prefix: &str, body: &str) -> (e: AppError)
    ensures
        is_archive_err(e, prefix@ + body@),
{
    AppError::Archive(concat_string(prefix, body))
}

/// A `BadPassword` error with the detail `prefix ++ body`.
pub fn password_err(prefix: &str, body: &str) -> (e: AppError)
    ensures
        is_password_err(e, prefix@ + body@),
{
    AppError::BadPassword(concat_string(prefix, body))
}

/// An `UnsupportedFormat` error with the detail `prefix ++ body`.
pub fn unsupported_err(prefix: &str, body: &str) -> (e: AppError)
    ensures
        is_unsupported_err(e, prefix@ + body@),
{
    AppError::UnsupportedFormat(concat_string(prefix, body))
}

/// An error of the given kind with the fixed detail `t`.
pub fn archive_msg(t: &str) -> (e: AppError)
    ensures
        is_archive_err(e, t@),
{
    AppError::Archive(t.to_owned())
}

/// A `BadPassword` error with the fixed detail `t`.
pub fn password_msg(t: &str) -> (e: AppError)
    ensures
        is_password_err(e, t@),
{
    AppError::BadPassword(t.to_owned())
}

/// An `UnsupportedFormat` error with the fixed detail `t`.
pub fn unsupported_msg(t: &str) -> (e: AppError)
    ensures
        is_unsupported_err(e, t@),
{
    AppError::UnsupportedFormat(t.to_owned())
}

/// A `Config` error with the fixed detail `t`.
pub fn config_msg(t: &str) -> (e: AppError)
    ensures
        is_config_err(e, t@),
{
    AppError::Config(t.to_owned())
}

/// Result of the archive operations.
pub type AppResult<T> = Result<T, AppError>;

/// The error structure the front end receives.
#[derive(Debug)]
pub struct ErrorPayload {
    pub message: String,
}

impl AppError {
    /// The message of this error.
    pub fn message(&self) -> (r: String)
        ensures
            r@ == error_message(*self),
    {
        match self {
            AppError::Io(d) => concat_string("IO 错误: ", d.as_str()),
            AppError::Archive(d) => concat_string("压缩/解压错误: ", d.as_str()),
            AppError::UnsupportedFormat(d) => concat_string("不支持的格式: ", d.as_str()),
            AppError::BadPassword(d) => concat_string("密码错误或损坏的压缩包: ", d.as_str()),
            AppError::Config(d) => concat_string("配置错误: ", d.as_str()),
            AppError::Other(d) => d.clone(),
        }
    }
}

/// The message of an error, as commands hand it to the front end.
pub fn to_string_err(e: &AppError) -> (r: String)
    ensures
        r@ == error_message(*e),
{
    e.message()
}

/// The payload the front end receives for an error.
pub fn error_payload(e: &AppError) -> (p: ErrorPayload)
    ensures
        p.message@ == error_message(*e),
{
    ErrorPayload { message: e.message() }
}

} // verus!
