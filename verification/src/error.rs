//! What can go wrong while a session asks for input.

use crate::domain::BankAction;
use crate::input::{list_input_bounds, listing};
use vstd::prelude::*;
use vstd::string::StringExecFns;

verus! {

/// A fault of the console itself, with the words that describe it.
#[derive(Debug)]
pub struct IoError {
    pub msg: String,
}

impl IoError {
    /// A fault described by `msg`.
    pub fn new(msg: &str) -> (r: IoError)
        ensures
            r.msg@ == msg@,
    {
        IoError { msg: msg.to_owned() }
    }
}

impl Clone for IoError {
    fn clone(&self) -> (r: IoError)
        ensures
            r.msg@ == self.msg@,
    {
        IoError { msg: self.msg.clone() }
    }
}

/// Why an input was not taken.
#[derive(Debug)]
pub enum BankError {
    /// Nothing was entered, or white space only.
    EmptyInput,
    /// The input names none of the actions that were allowed.
    OutOfBounds { allowed: Vec<BankAction> },
    /// The text is no action code, or no number.
    Parse { raw: String },
    /// The console could not be read.
    IoRead { source: IoError },
}

/// What a `BankError` says, with texts and lists as mathematical values.
pub enum BankErrorView {
    EmptyInput,
    OutOfBounds { allowed: Seq<BankAction> },
    Parse { raw: Seq<char> },
    IoRead { msg: Seq<char> },
}

impl BankErrorView {
    /// The words shown to the user.
    pub open spec fn message(self) -> Seq<char> {
        match self {
            BankErrorView::EmptyInput => "Empty input!"@,
            BankErrorView::OutOfBounds { allowed } => "Not within bounds! They are:\n"@ + listing(
                allowed,
                seq!['\n'],
            ),
            BankErrorView::Parse { raw } => "Could not parse value '"@ + raw + "'!"@,
            BankErrorView::IoRead { msg } => msg,
        }
    }
}

impl View for BankError {
    type V = BankErrorView;

    open spec fn view(&self) -> BankErrorView {
        match self {
            BankError::EmptyInput => BankErrorView::EmptyInput,
            BankError::OutOfBounds { allowed } => BankErrorView::OutOfBounds { allowed: allowed@ },
            BankError::Parse { raw } => BankErrorView::Parse { raw: raw@ },
            BankError::IoRead { source } => BankErrorView::IoRead { msg: source.msg@ },
        }
    }
}

impl BankError {
    /// The words shown to the user.
    pub fn message(&self) -> (r: String)
        ensures
            r@ == self@.message(),
    {
        match self {
            BankError::EmptyInput => String::from_str("Empty input!"),
            BankError::OutOfBounds { allowed } => {
                let mut out: String = String::from_str("Not within bounds! They are:\n");
                proof {
                    reveal_strlit("\n");
                    assert("\n"@ =~= seq!['\n']);
                }
                let list: String = list_input_bounds(allowed, "\n");
                out.append(list.as_str());
                out
            },
            BankError::Parse { raw } => {
                let mut out: String = String::from_str("Could not parse value '");
                out.append(raw.as_str());
                out.append("'!");
                out
            },
            BankError::IoRead { source } => source.msg.clone(),
        }
    }
}

} // verus!
