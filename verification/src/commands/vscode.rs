//! `termnav vscode`: its arguments and what they ask for.

use vstd::prelude::*;
use vstd::string::*;

use crate::text::{concat, same, strings};
use crate::vscode::{counter, update_error, Operation, Update};

verus! {

/// What `--help` prints.
pub const HELP: &'static str = "usage: termnav vscode focus claim|release SOURCE CYCLE SEQUENCE OBSERVED\n";

/// What one `vscode` invocation asks for.
#[derive(Debug)]
pub enum Invocation {
    /// The help text.
    Help,
    /// Nothing: the arguments are refused with this message.
    Refused(String),
    /// An update is published.
    Publish(Update),
}

/// The operation of that name.
pub open spec fn operation_named(name: Seq<char>) -> Option<Operation> {
    if name == "claim"@ {
        Some(Operation::Claim)
    } else if name == "release"@ {
        Some(Operation::Release)
    } else {
        None
    }
}

/// Whether an invocation is what the arguments ask for.
pub open spec fn vscode_asks(arguments: Seq<Seq<char>>, asked: Invocation) -> bool {
    if arguments.len() > 0 && (arguments[0] == "-h"@ || arguments[0] == "--help"@ || arguments[0]
        == "help"@) {
        asked is Help
    } else if arguments.len() != 6 {
        asked matches Invocation::Refused(message) && message@
            == "focus requires an operation and ordered update fields"@
    } else if arguments[0] != "focus"@ {
        asked matches Invocation::Refused(message) && message@ == "unknown VS Code command: "@
            + arguments[0]
    } else if operation_named(arguments[1]) is None {
        asked matches Invocation::Refused(message) && message@ == "invalid operation: "@
            + arguments[1]
    } else {
        match update_error(arguments[2], arguments[3], arguments[4], arguments[5]) {
            Some(error) => asked matches Invocation::Refused(message) && message@ == error,
            None => {
                &&& asked matches Invocation::Publish(update)
                &&& Some(update.operation) == operation_named(arguments[1])
                &&& update.source@ == arguments[2]
                &&& Some(update.cycle as nat) == counter(arguments[3])
                &&& Some(update.sequence as nat) == counter(arguments[4])
                &&& Some(update.observed as nat) == counter(arguments[5])
            },
        }
    }
}

/// Settle what one `vscode` invocation asks for.
pub fn invocation(arguments: &[String]) -> (asked: Invocation)
    ensures
        vscode_asks(strings(arguments@), asked),
{
    let ghost all = strings(arguments@);
    assert(all.len() == arguments@.len());
    if arguments.len() > 0 {
        assert(all[0] == arguments@[0]@);
        let first = arguments[0].as_str();
        if same(first, "-h") || same(first, "--help") || same(first, "help") {
            return Invocation::Help;
        }
    }
    if arguments.len() != 6 {
        return Invocation::Refused(
            String::from_str("focus requires an operation and ordered update fields"),
        );
    }
    assert forall|i: int| 0 <= i < 6 implies #[trigger] arguments@[i]@ == all[i] by {}
    if !same(arguments[0].as_str(), "focus") {
        return Invocation::Refused(concat("unknown VS Code command: ", arguments[0].as_str()));
    }
    let operation = if same(arguments[1].as_str(), "claim") {
        Operation::Claim
    } else if same(arguments[1].as_str(), "release") {
        Operation::Release
    } else {
        return Invocation::Refused(concat("invalid operation: ", arguments[1].as_str()));
    };
    match Update::new(
        operation,
        arguments[2].as_str(),
        arguments[3].as_str(),
        arguments[4].as_str(),
        arguments[5].as_str(),
    ) {
        Ok(update) => Invocation::Publish(update),
        Err(message) => Invocation::Refused(String::from_str(message)),
    }
}

} // verus!
