use vstd::prelude::*;
use crate::cmd::SpecCommand;
use crate::frame::{Frame, SpecFrame};
use crate::text::to_owned_string;

verus! {

/// Represents an "unknown" command. This is not a real `Redis` command.
#[derive(Debug)]
pub struct Unknown {
    command_name: String,
}

impl Unknown {
    /// The command name, as text.
    pub closed spec fn name_view(&self) -> Seq<char> {
        self.command_name@
    }
}

impl View for Unknown {
    type V = SpecCommand;

    open spec fn view(&self) -> SpecCommand {
        SpecCommand::Unknown { name: self.name_view() }
    }
}

/// The response to an unknown command.
pub open spec fn unknown_response(name: Seq<char>) -> SpecFrame {
    SpecFrame::Error("ERR unknown command '"@ + name + "'"@)
}

impl Unknown {
    /// Create a new `Unknown` command which responds to unknown commands
    /// issued by clients
    pub fn new(key: &str) -> (u: Unknown)
        ensures
            u@ == (SpecCommand::Unknown { name: key@ }),
    {
        Unknown { command_name: to_owned_string(key) }
    }

    /// Returns the command name
    pub fn get_name(&self) -> (name: &str)
        ensures
            self@ == (SpecCommand::Unknown { name: name@ }),
    {
        self.command_name.as_str()
    }

    /// Responds to the client, indicating the command is not recognized.
    ///
    /// This usually means the command is not yet implemented by
    /// `mini-redis`.
    pub fn apply(self) -> (response: Frame)
        ensures
            response@ == unknown_response(self@->Unknown_name),
    {
        let mut message = to_owned_string("ERR unknown command '");
        message.append(self.command_name.as_str());
        message.append("'");
        Frame::Error(message)
    }
}

} // verus!
