//! The library's errors: each carries a message for the user, a detail for
//! the developer's log, and a tag naming where it was raised.
use vstd::prelude::*;

use crate::text_mod::{decimal_nat, push_decimal_u128, push_str};

verus! {

#[derive(Debug, Clone, PartialEq, Eq)]
pub enum LibError {
    /// Database connection error.
    DatabaseConnection,
    /// The database refused a statement.
    QueryError { user_friendly: String, developer_friendly: String, source_line_column: String },
    /// The value does not exist in web query.
    GetStrFromWebParams {
        user_friendly: String,
        developer_friendly: String,
        source_line_column: String,
    },
    /// The value is not i32.
    GetI32FromWebParams {
        user_friendly: String,
        developer_friendly: String,
        source_line_column: String,
    },
    /// No function of that name is in the schema cache.
    UnknownFunction { user_friendly: String, developer_friendly: String, source_line_column: String },
    /// No view of that name is in the schema cache.
    UnknownView { user_friendly: String, developer_friendly: String, source_line_column: String },
    /// The view has no field of that name.
    UnknownField { user_friendly: String, developer_friendly: String, source_line_column: String },
    /// A result column has a type that templates cannot show.
    UnrecognizedColumnType {
        user_friendly: String,
        developer_friendly: String,
        source_line_column: String,
    },
    /// The schema names a type outside the supported set.
    UnrecognizedSchemaType {
        user_friendly: String,
        developer_friendly: String,
        source_line_column: String,
    },
    /// A list template lacks its row region markers.
    MissingRowMarker { user_friendly: String, developer_friendly: String, source_line_column: String },
    /// A statement that must return one row returned another number of rows.
    RowCountMismatch { user_friendly: String, developer_friendly: String, source_line_column: String },
}

/// The text shown to the user for an error.
pub open spec fn user_message_of(e: LibError) -> Seq<char> {
    match e {
        LibError::DatabaseConnection => "Database connection error."@,
        LibError::QueryError { user_friendly, .. } => "Query error: "@ + user_friendly@,
        LibError::GetStrFromWebParams { user_friendly, .. } => "The value does not exist in web query: "@
            + user_friendly@,
        LibError::GetI32FromWebParams { user_friendly, .. } => "The value is not i32: "@
            + user_friendly@,
        LibError::UnknownFunction { user_friendly, .. } => "Unknown database function: "@
            + user_friendly@,
        LibError::UnknownView { user_friendly, .. } => "Unknown database view: "@ + user_friendly@,
        LibError::UnknownField { user_friendly, .. } => "Unknown field: "@ + user_friendly@,
        LibError::UnrecognizedColumnType { user_friendly, .. } => "Unrecognized column type: "@
            + user_friendly@,
        LibError::UnrecognizedSchemaType { user_friendly, .. } => "Unrecognized schema type: "@
            + user_friendly@,
        LibError::MissingRowMarker { user_friendly, .. } => "The template lacks the row markers: "@
            + user_friendly@,
        LibError::RowCountMismatch { user_friendly, .. } => "Expected exactly one row: "@
            + user_friendly@,
    }
}

impl LibError {
    /// The HTTP status of every error: internal server error.
    pub fn status_code(&self) -> (r: u16)
        ensures
            r == 500,
    {
        500
    }

    /// The user-facing message of the error.
    pub fn user_message(&self) -> (r: String)
        ensures
            r@ == user_message_of(*self),
    {
        let mut r = String::new();
        match self {
            LibError::DatabaseConnection => {
                push_str(&mut r, "Database connection error.");
            },
            LibError::QueryError { user_friendly, .. } => {
                push_str(&mut r, "Query error: ");
                push_str(&mut r, user_friendly.as_str());
            },
            LibError::GetStrFromWebParams { user_friendly, .. } => {
                push_str(&mut r, "The value does not exist in web query: ");
                push_str(&mut r, user_friendly.as_str());
            },
            LibError::GetI32FromWebParams { user_friendly, .. } => {
                push_str(&mut r, "The value is not i32: ");
                push_str(&mut r, user_friendly.as_str());
            },
            LibError::UnknownFunction { user_friendly, .. } => {
                push_str(&mut r, "Unknown database function: ");
                push_str(&mut r, user_friendly.as_str());
            },
            LibError::UnknownView { user_friendly, .. } => {
                push_str(&mut r, "Unknown database view: ");
                push_str(&mut r, user_friendly.as_str());
            },
            LibError::UnknownField { user_friendly, .. } => {
                push_str(&mut r, "Unknown field: ");
                push_str(&mut r, user_friendly.as_str());
            },
            LibError::UnrecognizedColumnType { user_friendly, .. } => {
                push_str(&mut r, "Unrecognized column type: ");
                push_str(&mut r, user_friendly.as_str());
            },
            LibError::UnrecognizedSchemaType { user_friendly, .. } => {
                push_str(&mut r, "Unrecognized schema type: ");
                push_str(&mut r, user_friendly.as_str());
            },
            LibError::MissingRowMarker { user_friendly, .. } => {
                push_str(&mut r, "The template lacks the row markers: ");
                push_str(&mut r, user_friendly.as_str());
            },
            LibError::RowCountMismatch { user_friendly, .. } => {
                push_str(&mut r, "Expected exactly one row: ");
                push_str(&mut r, user_friendly.as_str());
            },
        }
        assert(r@ =~= user_message_of(*self));
        r
    }

    /// The body sent to the client: the time stamp that the log also carries,
    /// a space, and the user-facing message. The developer detail stays out.
    pub fn error_response_body(&self, time: u128) -> (r: String)
        ensures
            r@ == decimal_nat(time as nat) + " "@ + user_message_of(*self),
    {
        let mut r = String::new();
        push_decimal_u128(&mut r, time);
        push_str(&mut r, " ");
        let m = self.user_message();
        push_str(&mut r, m.as_str());
        assert(r@ =~= decimal_nat(time as nat) + " "@ + user_message_of(*self));
        r
    }
}

/// Why a statement could not be built, with the name concerned.
pub enum BuildFailure {
    UnknownFunction(Seq<char>),
    UnknownView(Seq<char>),
    UnknownField(Seq<char>),
    Missing(Seq<char>),
    NotInteger(Seq<char>),
}

/// The library error that reports a build failure.
pub open spec fn fails_as(e: LibError, f: BuildFailure) -> bool {
    match f {
        BuildFailure::UnknownFunction(n) => e matches LibError::UnknownFunction { user_friendly, .. }
            && user_friendly@ == n,
        BuildFailure::UnknownView(n) => e matches LibError::UnknownView { user_friendly, .. }
            && user_friendly@ == n,
        BuildFailure::UnknownField(n) => e matches LibError::UnknownField { user_friendly, .. }
            && user_friendly@ == n,
        BuildFailure::Missing(n) => e matches LibError::GetStrFromWebParams { user_friendly, .. }
            && user_friendly@ == n,
        BuildFailure::NotInteger(n) => e matches LibError::GetI32FromWebParams { user_friendly, .. }
            && user_friendly@ == n,
    }
}

/// The system clock's time type, carried opaquely.
#[verifier::external_type_specification]
#[verifier::external_body]
pub struct ExSystemTime(std::time::SystemTime);

/// Relies on SystemTime::now: the current time of the system clock.
#[verifier::external_body]
fn system_time_now() -> std::time::SystemTime {
    std::time::SystemTime::now()
}

/// Relies on SystemTime::duration_since: the time elapsed since the Unix
/// epoch, or nothing when the clock stands before it.
#[verifier::external_body]
fn since_unix_epoch(t: &std::time::SystemTime) -> Option<std::time::Duration> {
    t.duration_since(std::time::UNIX_EPOCH).ok()
}

/// Relies on Duration::as_millis: the whole milliseconds of a duration.
#[verifier::external_body]
fn whole_millis(d: &std::time::Duration) -> u128 {
    d.as_millis()
}

/// Milliseconds since the Unix epoch, the stamp that ties a logged error to
/// the message the user saw; 0 when the clock stands before the epoch.
pub fn time_epoch() -> u128 {
    let now = system_time_now();
    match since_unix_epoch(&now) {
        Some(d) => whole_millis(&d),
        None => 0,
    }
}

} // verus!
