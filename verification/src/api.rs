//! The answers of the management interface.

use vstd::prelude::*;

verus! {

/// The body of an answer: a status word, a message, and data where there
/// is any.
#[derive(Clone, Debug)]
pub struct ApiResponse<T> {
    pub status: String,
    pub message: String,
    pub data: Option<T>,
}

impl<T> ApiResponse<T> {
    /// An answer that reports success.
    pub fn success(message: &str, data: Option<T>) -> (r: Self)
        ensures
            r.status@ == "success"@,
            r.message@ == message@,
            r.data == data,
    {
        Self { status: "success".to_owned(), message: message.to_owned(), data }
    }

    /// An answer that reports an error; it carries no data.
    pub fn error(message: &str) -> (r: Self)
        ensures
            r.status@ == "error"@,
            r.message@ == message@,
            r.data is None,
    {
        Self { status: "error".to_owned(), message: message.to_owned(), data: None }
    }
}

} // verus!
