//! Errors.

use vstd::prelude::*;

use crate::words::cat;

verus! {

/// What can go wrong before anything is run.
#[derive(Debug)]
pub enum XError {
    /// A value is not one of those that a type has.
    EnumParse { kind_name: &'static str, value: String },
}

impl XError {
    /// The text to show.
    pub fn message(&self) -> (text: String)
        ensures
            match self {
                XError::EnumParse { kind_name, value } => text@ == "Parse "@ + kind_name@
                    + " from "@ + value@ + " failed."@,
            },
    {
        match self {
            XError::EnumParse { kind_name, value } => {
                let mut text: String = cat("Parse ", kind_name);
                text.append(" from ");
                text.append(value.as_str());
                text.append(" failed.");
                text
            },
        }
    }
}

} // verus!
