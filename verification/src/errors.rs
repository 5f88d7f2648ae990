//! The service's error type, the HTTP status and body it answers with, and
//! the mapping of database failures onto it.

use vstd::prelude::*;

use crate::text::{chars_of, decimal_of, push_decimal, push_str, same_text, string_of};

verus! {

/// Everything a request can fail with.
#[derive(Debug)]
pub enum AppError {
    /// The addressed resource does not exist.
    NotFound(String),
    /// A uniqueness or reference constraint was violated.
    Conflict(String),
    /// The request is well formed but breaks a business rule.
    UnprocessableEntity(String),
    /// Field validation failed; one entry per failed rule.
    ValidationError(Vec<String>),
    /// Any other failure; the text is kept for the log only.
    Internal(String),
}

/// The HTTP status of an error.
pub open spec fn status_of(e: &AppError) -> u16 {
    match e {
        AppError::NotFound(_) => 404,
        AppError::Conflict(_) => 409,
        AppError::UnprocessableEntity(_) => 422,
        AppError::ValidationError(_) => 400,
        AppError::Internal(_) => 500,
    }
}

/// The text an error displays as.
pub open spec fn message_of(e: &AppError) -> Seq<char> {
    match e {
        AppError::NotFound(m) => "not found: "@ + m@,
        AppError::Conflict(m) => "conflict: "@ + m@,
        AppError::UnprocessableEntity(m) => m@,
        AppError::ValidationError(_) => "validation failed"@,
        AppError::Internal(_) => "internal server error"@,
    }
}

/// The JSON body of an error response: `{"error": .., "details": ..}`,
/// where `details` is present only for validation failures.
#[derive(Debug)]
pub struct ErrorBody {
    pub error: String,
    pub details: Option<Vec<String>>,
}

impl AppError {
    /// The HTTP status code of the response for this error.
    pub fn status_code(&self) -> (s: u16)
        ensures
            s == status_of(self),
    {
        match self {
            AppError::NotFound(_) => 404,
            AppError::Conflict(_) => 409,
            AppError::UnprocessableEntity(_) => 422,
            AppError::ValidationError(_) => 400,
            AppError::Internal(_) => 500,
        }
    }

    /// The display text of this error.
    pub fn message(&self) -> (m: String)
        ensures
            m@ == message_of(self),
    {
        let mut v: Vec<char> = Vec::new();
        match self {
            AppError::NotFound(m) => {
                push_str(&mut v, "not found: ");
                push_str(&mut v, m.as_str());
            },
            AppError::Conflict(m) => {
                push_str(&mut v, "conflict: ");
                push_str(&mut v, m.as_str());
            },
            AppError::UnprocessableEntity(m) => {
                push_str(&mut v, m.as_str());
            },
            AppError::ValidationError(_) => {
                push_str(&mut v, "validation failed");
            },
            AppError::Internal(_) => {
                push_str(&mut v, "internal server error");
            },
        }
        string_of(&v)
    }

    /// The body of the response for this error. Internal failures never
    /// show their text; validation failures list their details.
    pub fn response_body(&self) -> (b: ErrorBody)
        ensures
            b.error@ == message_of(self),
            match self {
                AppError::ValidationError(d) => b.details matches Some(x) && x@ == d@,
                _ => b.details is None,
            },
    {
        let error = self.message();
        match self {
            AppError::ValidationError(d) => {
                let copy = d.clone();
                assert(copy@ =~= d@);
                ErrorBody { error, details: Some(copy) }
            },
            _ => ErrorBody { error, details: None },
        }
    }

    /// The validation details carried by this error; empty for any other
    /// kind of error.
    pub fn validation_details(self) -> (d: Vec<String>)
        ensures
            match self {
                AppError::ValidationError(v) => d == v,
                _ => d@ == Seq::<String>::empty(),
            },
    {
        match self {
            AppError::ValidationError(d) => d,
            _ => Vec::new(),
        }
    }
}

/// What the database layer reported, as plain values.
#[derive(Debug)]
pub enum DbFailure {
    /// A query that must return a row returned none.
    RowNotFound,
    /// The database rejected a statement; `code` is its SQLSTATE.
    Database { code: Option<String>, message: String, text: String },
    /// Any other failure, by its display text.
    Other(String),
}

/// SQLSTATE `unique_violation`.
pub open spec fn unique_violation() -> Seq<char> {
    "23505"@
}

/// SQLSTATE `foreign_key_violation`.
pub open spec fn foreign_key_violation() -> Seq<char> {
    "23503"@
}

/// How a database failure is answered.
pub open spec fn db_error_of(e: DbFailure) -> AppError {
    match e {
        DbFailure::RowNotFound => AppError::NotFound(arbitrary()),
        DbFailure::Database { code, message, text } => {
            if code matches Some(c) && (c@ == unique_violation() || c@ == foreign_key_violation()) {
                AppError::Conflict(message)
            } else {
                AppError::Internal(text)
            }
        },
        DbFailure::Other(text) => AppError::Internal(text),
    }
}

/// Maps a database failure onto the error the service answers with: a
/// missing row is "resource not found", a unique or foreign key violation
/// is a conflict carrying the database's message, anything else is
/// internal.
pub fn from_db_failure(e: DbFailure) -> (r: AppError)
    ensures
        match e {
            DbFailure::RowNotFound => r matches AppError::NotFound(m) && m@ == "resource not found"@,
            _ => r == db_error_of(e),
        },
{
    match e {
        DbFailure::RowNotFound => {
            let v = chars_of("resource not found");
            AppError::NotFound(string_of(&v))
        },
        DbFailure::Database { code, message, text } => {
            let conflict = match &code {
                Some(c) => same_text(c.as_str(), "23505") || same_text(c.as_str(), "23503"),
                None => false,
            };
            if conflict {
                AppError::Conflict(message)
            } else {
                AppError::Internal(text)
            }
        },
        DbFailure::Other(text) => AppError::Internal(text),
    }
}

/// `"<entity> <id> not found"`.
pub open spec fn not_found_text(entity: Seq<char>, id: int) -> Seq<char> {
    entity + " "@ + decimal_of(id) + " not found"@
}

/// The message of a lookup by id that found nothing.
pub fn not_found_message(entity: &str, id: i64) -> (m: String)
    ensures
        m@ == not_found_text(entity@, id as int),
{
    let mut v: Vec<char> = Vec::new();
    push_str(&mut v, entity);
    push_str(&mut v, " ");
    push_decimal(id, &mut v);
    push_str(&mut v, " not found");
    string_of(&v)
}

/// A lookup of `entity` number `id` that found nothing.
pub fn not_found(entity: &str, id: i64) -> (r: AppError)
    ensures
        r matches AppError::NotFound(m) && m@ == not_found_text(entity@, id as int),
{
    AppError::NotFound(not_found_message(entity, id))
}

/// Maps the failure of a lookup by id: a missing row names the entity and
/// the id, any other failure maps as `from_db_failure` does.
pub fn lookup_failure(e: DbFailure, entity: &str, id: i64) -> (r: AppError)
    ensures
        match e {
            DbFailure::RowNotFound => r matches AppError::NotFound(m) && m@ == not_found_text(
                entity@,
                id as int,
            ),
            _ => r == db_error_of(e),
        },
{
    match e {
        DbFailure::RowNotFound => not_found(entity, id),
        other => from_db_failure(other),
    }
}

/// The outcome of a statement on `entity` number `id`, given how many rows
/// it touched: none means the entity does not exist.
pub fn affected_or_not_found(affected: u64, entity: &str, id: i64) -> (r: Result<(), AppError>)
    ensures
        r is Err <==> affected == 0,
        r matches Err(e) ==> (e matches AppError::NotFound(m) && m@ == not_found_text(entity@, id as int)),
{
    if affected == 0 {
        return Err(not_found(entity, id));
    }
    Ok(())
}

} // verus!
