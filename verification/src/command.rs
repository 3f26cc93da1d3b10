//! The wire-level command and its presentation in the message log.

use vstd::prelude::*;
use vstd::string::*;

verus! {

/// The kind of a command. `Quit` is local only and never travels on the wire.
#[derive(Debug, Clone, Copy, PartialEq, Eq, Structural)]
pub enum Lcmd {
    Conn,
    Dc,
    Say,
    Nick,
    Quit,
}

/// What a command is, as plain mathematical values.
pub struct CommandView {
    pub kind: Lcmd,
    pub user: Seq<char>,
    pub content: Seq<char>,
}

/// The unit of protocol exchange.
#[derive(Debug, Clone, PartialEq, Eq)]
pub struct Lcommand {
    pub cmd_type: Lcmd,
    pub user: String,
    pub content: String,
}

impl View for Lcommand {
    type V = CommandView;

    open spec fn view(&self) -> CommandView {
        CommandView { kind: self.cmd_type, user: self.user@, content: self.content@ }
    }
}

/// Whether a kind carries a content field on the wire.
pub open spec fn has_content(kind: Lcmd) -> bool {
    kind == Lcmd::Say || kind == Lcmd::Nick
}

/// The line of a chat message.
pub open spec fn say_text(user: Seq<char>, content: Seq<char>) -> Seq<char> {
    "<"@ + user + ">: "@ + content
}

/// The log line that presents a command: as the local user's own action when
/// `from_self`, as a peer's otherwise. Empty where a kind has no presentation.
pub open spec fn display_text(c: CommandView, from_self: bool) -> Seq<char> {
    match c.kind {
        Lcmd::Say => say_text(c.user, c.content),
        Lcmd::Conn => if from_self {
            "[CLIENT]: you joined"@
        } else {
            "[SERVER]: "@ + c.user + " joined"@
        },
        Lcmd::Dc => if from_self {
            "[CLIENT]: you left"@
        } else {
            "[SERVER]: "@ + c.user + " left"@
        },
        Lcmd::Nick => if from_self {
            Seq::empty()
        } else {
            "[SERVER]: "@ + c.user + " changed their nickname to "@ + c.content
        },
        Lcmd::Quit => Seq::empty(),
    }
}

impl Lcommand {
    /// Whether the session ends once this command has been written: the
    /// writing task stops after a `Dc`.
    pub fn closes_stream(&self) -> (r: bool)
        ensures
            r == (self.cmd_type == Lcmd::Dc),
    {
        self.cmd_type == Lcmd::Dc
    }

    /// Renders the command as one line of the message log.
    pub fn display(self, from_client: bool) -> (line: String)
        ensures
            line@ == display_text(self@, from_client),
    {
        let mut line = String::new();
        match self.cmd_type {
            Lcmd::Say => {
                line.append("<");
                line.append(self.user.as_str());
                line.append(">: ");
                line.append(self.content.as_str());
            },
            Lcmd::Conn => {
                if from_client {
                    line.append("[CLIENT]: you joined");
                } else {
                    line.append("[SERVER]: ");
                    line.append(self.user.as_str());
                    line.append(" joined");
                }
            },
            Lcmd::Dc => {
                if from_client {
                    line.append("[CLIENT]: you left");
                } else {
                    line.append("[SERVER]: ");
                    line.append(self.user.as_str());
                    line.append(" left");
                }
            },
            Lcmd::Nick => {
                if !from_client {
                    line.append("[SERVER]: ");
                    line.append(self.user.as_str());
                    line.append(" changed their nickname to ");
                    line.append(self.content.as_str());
                }
            },
            Lcmd::Quit => {},
        }
        assert(line@ =~= display_text(self@, from_client));
        line
    }
}

} // verus!
