//! Calling the functions of the query language: how many arguments a function takes.

use vstd::prelude::*;
use vstd::string::StringExecFns;
use crate::err::Error;
use crate::err::ErrorView;
use crate::value::Value;

verus! {

/// How many arguments a function takes.
#[derive(Clone, Copy, PartialEq, Eq, Structural, Debug)]
pub enum Args {
    Zero,
    Any,
    One,
    Two,
    Three,
    NoneOne,
    NoneTwo,
    NoneOneTwo,
    OneTwo,
    OneTwoThree,
}

impl Args {
    /// Whether a function of this arity takes `count` arguments.
    pub open spec fn admits(self, count: nat) -> bool {
        match self {
            Args::Zero => count == 0,
            Args::Any => true,
            Args::One => count == 1,
            Args::Two => count == 2,
            Args::Three => count == 3,
            Args::NoneOne => count == 0 || count == 1,
            Args::NoneTwo => count == 0 || count == 2,
            Args::NoneOneTwo => count == 0 || count == 1 || count == 2,
            Args::OneTwo => count == 1 || count == 2,
            Args::OneTwoThree => count == 1 || count == 2 || count == 3,
        }
    }

    /// What the caller is told where the count of arguments is not taken.
    pub open spec fn complaint(self) -> Seq<char> {
        match self {
            Args::Zero => "The function does not expect any arguments."@,
            Args::Any => "The function expects any number of arguments."@,
            Args::One => "The function expects 1 argument."@,
            Args::Two => "The function expects 2 arguments."@,
            Args::Three => "The function expects 3 arguments."@,
            Args::NoneOne => "The function expects 0 or 1 arguments."@,
            Args::NoneTwo => "The function expects 0 or 2 arguments."@,
            Args::NoneOneTwo => "The function expects 0, 1, or 2 arguments."@,
            Args::OneTwo => "The function expects 1 or 2 arguments."@,
            Args::OneTwoThree => "The function expects 1, 2, or 3 arguments."@,
        }
    }

    /// Whether a function of this arity takes `count` arguments.
    pub fn takes(self, count: usize) -> (takes: bool)
        ensures
            takes == self.admits(count as nat),
    {
        match self {
            Args::Zero => count == 0,
            Args::Any => true,
            Args::One => count == 1,
            Args::Two => count == 2,
            Args::Three => count == 3,
            Args::NoneOne => count == 0 || count == 1,
            Args::NoneTwo => count == 0 || count == 2,
            Args::NoneOneTwo => count == 0 || count == 1 || count == 2,
            Args::OneTwo => count == 1 || count == 2,
            Args::OneTwoThree => count == 1 || count == 2 || count == 3,
        }
    }

    /// What the caller is told where the count of arguments is not taken.
    pub fn message(self) -> (message: &'static str)
        ensures
            message@ == self.complaint(),
    {
        match self {
            Args::Zero => "The function does not expect any arguments.",
            Args::Any => "The function expects any number of arguments.",
            Args::One => "The function expects 1 argument.",
            Args::Two => "The function expects 2 arguments.",
            Args::Three => "The function expects 3 arguments.",
            Args::NoneOne => "The function expects 0 or 1 arguments.",
            Args::NoneTwo => "The function expects 0 or 2 arguments.",
            Args::NoneOneTwo => "The function expects 0, 1, or 2 arguments.",
            Args::OneTwo => "The function expects 1 or 2 arguments.",
            Args::OneTwoThree => "The function expects 1, 2, or 3 arguments.",
        }
    }
}

/// Calls `func` on `args` where it takes that many arguments, and returns what it
/// returns. Where it does not, `func` is not called, and the error names the function and
/// says how many arguments it takes.
pub fn check<C, F>(ctx: &C, name: &str, args: Vec<Value>, size: Args, func: F) -> (result: Result<
    Value,
    Error,
>) where F: FnOnce(&C, Vec<Value>) -> Result<Value, Error>
    requires
        size.admits(args@.len()) ==> call_requires(func, (ctx, args)),
    ensures
        size.admits(args@.len()) ==> call_ensures(func, (ctx, args), result),
        !size.admits(args@.len()) ==> (result matches Err(e) && e@
            == ErrorView::InvalidArguments { name: name@, message: size.complaint() }),
{
    if size.takes(args.len()) {
        func(ctx, args)
    } else {
        Err(
            Error::InvalidArguments {
                name: String::from_str(name),
                message: String::from_str(size.message()),
            },
        )
    }
}

} // verus!
