//! Error types of the library and the messages they print as.

use vstd::prelude::*;

verus! {

/// Errors of the database layer.
#[derive(Debug)]
pub enum DBError {
    DatabaseError(String),
    UnknownError(String),
    AlreadyExists(String),
    NoneFound,
}

/// The text that a database error prints as.
pub open spec fn db_error_message(e: DBError) -> Seq<char> {
    match e {
        DBError::DatabaseError(s) => "DatabaseError: "@ + s@,
        DBError::UnknownError(s) => "UnknownError: "@ + s@,
        DBError::AlreadyExists(s) => "Already Exists: "@ + s@,
        DBError::NoneFound => "No result found"@,
    }
}

fn string_of(lit: &str) -> (s: String)
    ensures
        s@ == lit@,
{
    lit.to_owned()
}

fn concat(lit: &str, tail: &String) -> (s: String)
    ensures
        s@ == lit@ + tail@,
{
    let mut s = string_of(lit);
    s.append(tail.as_str());
    s
}

impl DBError {
    /// The message of this error.
    pub fn to_string(&self) -> (s: String)
        ensures
            s@ == db_error_message(*self),
    {
        match self {
            DBError::DatabaseError(e) => concat("DatabaseError: ", e),
            DBError::UnknownError(e) => concat("UnknownError: ", e),
            DBError::AlreadyExists(e) => concat("Already Exists: ", e),
            DBError::NoneFound => string_of("No result found"),
        }
    }

    /// The error for a collection whose name is taken.
    pub fn collection_exists(collection_name: &String) -> (e: DBError)
        ensures
            e matches DBError::AlreadyExists(m) && m@ == "Collection "@ + collection_name@
                + " already exists"@,
    {
        let mut m = string_of("Collection ");
        m.append(collection_name.as_str());
        m.append(" already exists");
        DBError::AlreadyExists(m)
    }
}

/// Errors of image rendering.
#[derive(Debug)]
pub enum ImageRenderError {
    PercentageNotValid(String),
}

/// The text that a rendering error prints as.
pub open spec fn image_render_error_message(e: ImageRenderError) -> Seq<char> {
    match e {
        ImageRenderError::PercentageNotValid(s) => "Percentage not valid: "@ + s@,
    }
}

impl ImageRenderError {
    /// The message of this error.
    pub fn to_string(&self) -> (s: String)
        ensures
            s@ == image_render_error_message(*self),
    {
        match self {
            ImageRenderError::PercentageNotValid(e) => concat("Percentage not valid: ", e),
        }
    }
}

} // verus!
