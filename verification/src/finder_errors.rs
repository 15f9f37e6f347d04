//! The errors that the search reports.

use crate::text::{debug_quoted, debug_text, decimal_digits, push_decimal};
use vstd::prelude::*;
use vstd::string::*;

verus! {

/// What can go wrong before or during a search.
#[derive(Debug)]
pub enum FinderError {
    /// Reading or opening a file failed.
    StdIoError { e: String },
    /// The archive cannot be used.
    InvalidZip { message: String },
    /// The archive has no entry of that number.
    FileNotFoundInArchive { file_number: usize },
    /// An argument of the command line is not acceptable.
    CliArgumentError { message: String },
    /// The command line could not be parsed.
    ClapError { e: String },
    /// An argument of the command line has another type than expected.
    ClapMatchError { message: String },
}

/// `FinderError` by the contents of its fields.
pub enum FinderErrorView {
    StdIoError { e: Seq<char> },
    InvalidZip { message: Seq<char> },
    FileNotFoundInArchive { file_number: usize },
    CliArgumentError { message: Seq<char> },
    ClapError { e: Seq<char> },
    ClapMatchError { message: Seq<char> },
}

impl View for FinderError {
    type V = FinderErrorView;

    open spec fn view(&self) -> FinderErrorView {
        match self {
            FinderError::StdIoError { e } => FinderErrorView::StdIoError { e: e@ },
            FinderError::InvalidZip { message } => FinderErrorView::InvalidZip {
                message: message@,
            },
            FinderError::FileNotFoundInArchive { file_number } =>
                FinderErrorView::FileNotFoundInArchive { file_number: *file_number },
            FinderError::CliArgumentError { message } => FinderErrorView::CliArgumentError {
                message: message@,
            },
            FinderError::ClapError { e } => FinderErrorView::ClapError { e: e@ },
            FinderError::ClapMatchError { message } => FinderErrorView::ClapMatchError {
                message: message@,
            },
        }
    }
}

impl FinderError {
    /// The archive cannot be used, for the reason that `message` gives.
    pub fn invalid_zip_error(message: String) -> (error: Self)
        ensures
            error == (FinderError::InvalidZip { message }),
    {
        FinderError::InvalidZip { message }
    }

    /// The archive has no entry of the number `file_number`.
    pub fn file_not_found_error(file_number: usize) -> (error: Self)
        ensures
            error == (FinderError::FileNotFoundInArchive { file_number }),
    {
        FinderError::FileNotFoundInArchive { file_number }
    }

    /// The text that `to_string` gives for this error.
    pub open spec fn text(&self) -> Seq<char> {
        match self {
            FinderError::StdIoError { e } => "standard I/O error - "@ + e@,
            FinderError::InvalidZip { message } => "Invalid zip file error - "@ + message@,
            FinderError::FileNotFoundInArchive { file_number } =>
                "File number not found within archive error - '"@ + decimal_digits(
                *file_number as nat,
            ) + "'"@,
            FinderError::CliArgumentError { message } => "CLI argument error - "@ + debug_text(
                message@,
            ),
            FinderError::ClapError { e } => "CLI argument error ("@ + e@ + ")"@,
            FinderError::ClapMatchError { message } => "CLI argument match error ("@ + message@
                + ")"@,
        }
    }

    /// The error in words, as it is shown to the user.
    pub fn to_string(&self) -> (shown: String)
        ensures
            shown@ == self.text(),
    {
        match self {
            FinderError::StdIoError { e } => {
                let mut shown = String::from_str("standard I/O error - ");
                shown.append(e.as_str());
                shown
            },
            FinderError::InvalidZip { message } => {
                let mut shown = String::from_str("Invalid zip file error - ");
                shown.append(message.as_str());
                shown
            },
            FinderError::FileNotFoundInArchive { file_number } => {
                let mut shown = String::from_str("File number not found within archive error - '");
                push_decimal(&mut shown, *file_number);
                shown.append("'");
                shown
            },
            FinderError::CliArgumentError { message } => {
                let mut shown = String::from_str("CLI argument error - ");
                let quoted = debug_quoted(message.as_str());
                shown.append(quoted.as_str());
                shown
            },
            FinderError::ClapError { e } => {
                let mut shown = String::from_str("CLI argument error (");
                shown.append(e.as_str());
                shown.append(")");
                shown
            },
            FinderError::ClapMatchError { message } => {
                let mut shown = String::from_str("CLI argument match error (");
                shown.append(message.as_str());
                shown.append(")");
                shown
            },
        }
    }
}

} // verus!
