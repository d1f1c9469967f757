//! The command line: which command to run, with which options.

use vstd::prelude::*;

verus! {

/// The parsed command line.
#[derive(Debug)]
pub struct Cli {
    /// Where the configuration file lives, when not in the default place.
    pub config: Option<String>,
    pub command: Option<Command>,
}

#[derive(Debug, PartialEq, Eq, Structural)]
pub enum Command {
    Init,
    Accounts,
    Auth { tan_type: Option<TanType> },
    Sync,
    Enrich,
}

/// A TAN procedure of comdirect.
#[derive(Clone, Copy, Debug, PartialEq, Eq, Structural)]
pub enum TanType {
    MTan,
    PTan,
    PTanPush,
}

/// The name the comdirect API (and the command line) uses for a TAN type.
pub open spec fn tan_type_name(t: TanType) -> Seq<char> {
    match t {
        TanType::MTan => "M_TAN"@,
        TanType::PTan => "P_TAN"@,
        TanType::PTanPush => "P_TAN_PUSH"@,
    }
}

impl TanType {
    pub fn as_str(&self) -> (r: &'static str)
        ensures
            r@ == tan_type_name(*self),
    {
        match self {
            TanType::MTan => "M_TAN",
            TanType::PTan => "P_TAN",
            TanType::PTanPush => "P_TAN_PUSH",
        }
    }
}

impl Cli {
    /// The command to run: the one given, or `sync` when none is.
    pub fn effective_command(self) -> (r: Command)
        ensures
            r == match self.command {
                Some(c) => c,
                None => Command::Sync,
            },
    {
        match self.command {
            Some(c) => c,
            None => Command::Sync,
        }
    }
}

} // verus!
