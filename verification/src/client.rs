//! The client state: identity, connection and message log, and the rules by
//! which typed commands and inbound events change them.

use vstd::prelude::*;
use vstd::string::*;
use std::sync::mpsc::{Receiver, Sender};
use crate::channel::{poll_inbound, push_outbound, Inbound};
use crate::codec::is_wire_form;
use crate::command::{display_text, has_content, CommandView, Lcmd, Lcommand};
use crate::fields::field_end;
use crate::text::{find_field_end, lemma_without_line_feeds, strip_line_feeds, without_line_feeds};

verus! {

/// The connection of a client: none, or a live pair of channels to the
/// tasks that serve the socket, with the address of the peer.
pub enum ConnectionState {
    Disconnected,
    Connected { address: String, outbound: Sender<Lcommand>, inbound: Receiver<Lcommand> },
}

/// Why a command could not be sent.
#[derive(Debug, Clone, Copy, PartialEq, Eq, Structural)]
pub enum SendError {
    /// There is no connection, or its writing task is gone.
    NotConnected,
}

/// Why no connection could be opened.
#[derive(Debug, Clone, Copy, PartialEq, Eq, Structural)]
pub enum ConnectError {
    /// The socket could not be connected to the address.
    Unreachable,
}

/// What the loop that owns the client does after a command was dispatched.
#[derive(Debug, PartialEq, Eq)]
pub enum Action {
    /// Go on with the next tick.
    Continue,
    /// Open a connection to this address and report how it went.
    Dial(String),
    /// Leave the loop.
    Stop,
}

/// The state of the client for the lifetime of the process.
pub struct Client {
    pub username: String,
    pub connection: ConnectionState,
    pub messages: Vec<String>,
}

/// The number of lines that the log keeps.
pub const LOG_LIMIT: usize = 1024;

/// A log after one more line: the line is appended, and of the result the
/// newest lines are kept, up to the limit.
pub open spec fn logged(log: Seq<Seq<char>>, line: Seq<char>) -> Seq<Seq<char>> {
    let all = log.push(line);
    if all.len() > LOG_LIMIT {
        all.subrange(all.len() - LOG_LIMIT, all.len() as int)
    } else {
        all
    }
}

/// The lines held by a log.
pub open spec fn lines_view(lines: Seq<String>) -> Seq<Seq<char>> {
    Seq::new(lines.len(), |i: int| lines[i]@)
}

/// The kind that the first word of a prompt text asks for.
pub open spec fn prompt_kind(word: Seq<char>) -> Lcmd {
    if word == "/connect"@ {
        Lcmd::Conn
    } else if word == "/disconnect"@ {
        Lcmd::Dc
    } else if word == "/nick"@ {
        Lcmd::Nick
    } else if word == "/quit"@ {
        Lcmd::Quit
    } else {
        Lcmd::Say
    }
}

/// What follows the first space of a prompt text; empty where it has none.
pub open spec fn prompt_argument(buf: Seq<char>) -> Seq<char> {
    let sp = field_end(buf, ' ', 0);
    if sp < buf.len() {
        buf.subrange(sp + 1, buf.len() as int)
    } else {
        Seq::empty()
    }
}

/// The command that a prompt text stands for when `user` typed it.
pub open spec fn parsed(buf: Seq<char>, user: Seq<char>) -> CommandView {
    let kind = prompt_kind(buf.subrange(0, field_end(buf, ' ', 0)));
    let content = match kind {
        Lcmd::Say => without_line_feeds(buf),
        Lcmd::Conn | Lcmd::Nick => without_line_feeds(prompt_argument(buf)),
        Lcmd::Dc | Lcmd::Quit => Seq::empty(),
    };
    CommandView { kind, user, content }
}

/// The form in which a command leaves: attributed to the current user, but
/// for a change of nickname, which keeps the old name; without line feeds;
/// with content only where the kind carries some.
pub open spec fn outgoing_form(c: CommandView, username: Seq<char>) -> CommandView {
    CommandView {
        kind: c.kind,
        user: without_line_feeds(if c.kind == Lcmd::Nick { c.user } else { username }),
        content: if has_content(c.kind) { without_line_feeds(c.content) } else { Seq::empty() },
    }
}

/// The log line that confirms a change of nickname.
pub open spec fn nick_notice(name: Seq<char>) -> Seq<char> {
    "[CLIENT]: you changed your nickname to "@ + name
}

/// The log line that reports a failed send.
pub open spec fn not_connected_notice() -> Seq<char> {
    "[CLIENT]: not connected to a server"@
}

/// The log line that reports a lost connection.
pub open spec fn lost_notice() -> Seq<char> {
    "[CLIENT]: connection lost"@
}

/// The client after it gave up its connection, and nothing else.
pub open spec fn hung_up(pre: Client, post: Client) -> bool {
    &&& post.username == pre.username
    &&& post.messages == pre.messages
    &&& post.connection == ConnectionState::Disconnected
}

/// The client after `cmd` was handed to the writing task with outcome `r`
/// and the outcome was logged. A success logs the sender's own view of the
/// command, and ends the connection where the command was a `Dc`. A failure
/// leaves the client disconnected and is reported in exactly one line.
/// Without a connection the outcome is a failure.
pub open spec fn submitted(pre: Client, cmd: CommandView, r: Result<(), SendError>, post: Client) -> bool {
    &&& post.username == pre.username
    &&& pre.address() is None ==> r is Err
    &&& match r {
        Ok(_) => {
            &&& post.log() == logged(pre.log(), display_text(outgoing_form(cmd, pre.username@), true))
            &&& post.connection == (if cmd.kind == Lcmd::Dc {
                ConnectionState::Disconnected
            } else {
                pre.connection
            })
        },
        Err(e) => {
            &&& e == SendError::NotConnected
            &&& post.log() == logged(pre.log(), not_connected_notice())
            &&& post.connection == ConnectionState::Disconnected
        },
    }
}

/// The client after `cmd` was carried out, with what the loop is to do
/// next. `Quit` stops the loop and `Conn` asks it to dial, both after the
/// connection held so far was given up; every other kind is submitted, with
/// one outcome or the other.
pub open spec fn dispatched(pre: Client, cmd: CommandView, action: Action, post: Client) -> bool {
    match cmd.kind {
        Lcmd::Quit => action is Stop && hung_up(pre, post),
        Lcmd::Conn => {
            &&& action matches Action::Dial(address)
            &&& address@ == cmd.content
            &&& hung_up(pre, post)
        },
        _ => {
            &&& action is Continue
            &&& (submitted(pre, cmd, Ok(()), post) || submitted(
                pre,
                cmd,
                Err(SendError::NotConnected),
                post,
            ))
        },
    }
}

/// The client after the line `buf` was read as the command `cmd`: only a
/// change of nickname touches it, which renames the user at once and
/// confirms so in the log.
pub open spec fn parsed_at(buf: Seq<char>, pre: Client, cmd: CommandView, post: Client) -> bool {
    &&& cmd == parsed(buf, pre.username@)
    &&& post.connection == pre.connection
    &&& if cmd.kind == Lcmd::Nick {
        &&& post.username@ == cmd.content
        &&& post.log() == logged(pre.log(), nick_notice(cmd.content))
    } else {
        &&& post.username == pre.username
        &&& post.messages == pre.messages
    }
}

/// The client after it took in what a look at the inbound channel found: a
/// command is logged as the peer's, a closed channel ends the connection
/// and is reported in one line, and nothing changes where nothing came.
pub open spec fn absorbed(pre: Client, event: Inbound, post: Client) -> bool {
    &&& post.username == pre.username
    &&& match event {
        Inbound::Message(cmd) => {
            &&& post.log() == logged(pre.log(), display_text(cmd@, false))
            &&& post.connection == pre.connection
        },
        Inbound::Idle => post.messages == pre.messages && post.connection == pre.connection,
        Inbound::Closed => {
            &&& post.log() == logged(pre.log(), lost_notice())
            &&& post.connection == ConnectionState::Disconnected
        },
    }
}

/// After a failed send the client is disconnected, and exactly one line of
/// the log reports it.
pub proof fn lemma_failed_send(pre: Client, cmd: CommandView, r: Result<(), SendError>, post: Client)
    requires
        submitted(pre, cmd, r, post),
        r is Err,
    ensures
        post.connection == ConnectionState::Disconnected,
        post.address() is None,
        post.log() == logged(pre.log(), not_connected_notice()),
{
}

/// After a `Dc` was dispatched the client holds no connection, whether the
/// peer could be told or not, and the loop goes on.
pub proof fn lemma_disconnect_releases(pre: Client, cmd: CommandView, action: Action, post: Client)
    requires
        cmd.kind == Lcmd::Dc,
        dispatched(pre, cmd, action, post),
    ensures
        action is Continue,
        post.connection == ConnectionState::Disconnected,
{
}

/// Every outgoing form but that of `Quit` is in wire form.
pub proof fn lemma_outgoing_is_wire_form(c: CommandView, username: Seq<char>)
    requires
        c.kind != Lcmd::Quit,
    ensures
        is_wire_form(outgoing_form(c, username)),
{
    lemma_without_line_feeds(c.user);
    lemma_without_line_feeds(username);
    lemma_without_line_feeds(c.content);
}

impl Client {
    /// The address of the peer, while connected.
    pub open spec fn address(&self) -> Option<Seq<char>> {
        match self.connection {
            ConnectionState::Disconnected => None,
            ConnectionState::Connected { address, .. } => Some(address@),
        }
    }

    /// The log as lines of text.
    pub open spec fn log(&self) -> Seq<Seq<char>> {
        lines_view(self.messages@)
    }

    /// A client that is not connected and has logged nothing.
    pub fn new(user: String) -> (client: Client)
        ensures
            client.username@ == user@,
            client.address() is None,
            client.log() == Seq::<Seq<char>>::empty(),
    {
        let client = Client {
            username: user,
            connection: ConnectionState::Disconnected,
            messages: Vec::new(),
        };
        assert(client.log() =~= Seq::empty());
        client
    }

    /// Whether a connection is held.
    pub fn is_connected(&self) -> (r: bool)
        ensures
            r == self.address() is Some,
    {
        match &self.connection {
            ConnectionState::Disconnected => false,
            ConnectionState::Connected { .. } => true,
        }
    }

    /// Appends one line to the log, and drops the oldest lines beyond the
    /// limit.
    fn log_line(&mut self, line: String)
        ensures
            final(self).log() == logged(old(self).log(), line@),
            final(self).username == old(self).username,
            final(self).connection == old(self).connection,
    {
        self.messages.push(line);
        let ghost all = old(self).log().push(line@);
        assert(self.log() =~= all);
        while self.messages.len() > LOG_LIMIT
            invariant
                self.messages@.len() <= all.len(),
                self.messages@.len() >= LOG_LIMIT || self.messages@.len() == all.len(),
                self.log() == all.subrange(all.len() - self.messages@.len(), all.len() as int),
                self.username == old(self).username,
                self.connection == old(self).connection,
            decreases self.messages@.len(),
        {
            let ghost before = self.log();
            let _ = self.messages.remove(0);
            assert(self.log() =~= before.subrange(1, before.len() as int));
            assert(self.log() =~= all.subrange(
                all.len() - self.messages@.len(),
                all.len() as int,
            ));
        }
        assert(self.log() =~= logged(old(self).log(), line@));
    }

    /// Logs the greeting shown at startup.
    pub fn print_welcome(&mut self)
        ensures
            final(self).log() == logged(
                logged(
                    logged(old(self).log(), "Hi! Welcome to LightC! :)"@),
                    "Set your nickname with '/nick ...'"@,
                ),
                "Connect to a server with '/connect ...'"@,
            ),
            final(self).username == old(self).username,
            final(self).connection == old(self).connection,
    {
        self.log_line(String::from_str("Hi! Welcome to LightC! :)"));
        self.log_line(String::from_str("Set your nickname with '/nick ...'"));
        self.log_line(String::from_str("Connect to a server with '/connect ...'"));
    }

    /// The form in which `msg` leaves this client.
    pub fn outgoing(&self, msg: &Lcommand) -> (out: Lcommand)
        ensures
            out@ == outgoing_form(msg@, self.username@),
            msg.cmd_type != Lcmd::Quit ==> is_wire_form(out@),
    {
        proof {
            if msg.cmd_type != Lcmd::Quit {
                lemma_outgoing_is_wire_form(msg@, self.username@);
            }
        }
        let user = match msg.cmd_type {
            Lcmd::Nick => strip_line_feeds(msg.user.as_str()),
            _ => strip_line_feeds(self.username.as_str()),
        };
        let content = match msg.cmd_type {
            Lcmd::Say | Lcmd::Nick => strip_line_feeds(msg.content.as_str()),
            _ => String::new(),
        };
        Lcommand { cmd_type: msg.cmd_type, user, content }
    }

    /// Settles the state once the outbound channel has answered: the
    /// connection is given up when the command was not taken, and when the
    /// command that was taken closes the session.
    pub fn after_send(&mut self, closing: bool, delivered: bool) -> (r: Result<(), SendError>)
        ensures
            r is Ok <==> delivered,
            r is Err ==> r == Err::<(), SendError>(SendError::NotConnected),
            final(self).connection == (if delivered && !closing {
                old(self).connection
            } else {
                ConnectionState::Disconnected
            }),
            final(self).username == old(self).username,
            final(self).messages == old(self).messages,
    {
        if !delivered || closing {
            self.connection = ConnectionState::Disconnected;
        }
        if delivered {
            Ok(())
        } else {
            Err(SendError::NotConnected)
        }
    }

    /// Hands a command in its outgoing form to the writing task. Fails when
    /// there is no connection or the task is gone; the client is then
    /// disconnected. A sent `Dc` ends the connection too.
    pub fn send_msg(&mut self, msg: Lcommand) -> (r: Result<(), SendError>)
        requires
            msg.cmd_type != Lcmd::Quit,
        ensures
            old(self).address() is None ==> r is Err,
            r is Err ==> r == Err::<(), SendError>(SendError::NotConnected),
            final(self).connection == (if r is Ok && msg.cmd_type != Lcmd::Dc {
                old(self).connection
            } else {
                ConnectionState::Disconnected
            }),
            final(self).username == old(self).username,
            final(self).messages == old(self).messages,
    {
        let out = self.outgoing(&msg);
        let closing = out.cmd_type == Lcmd::Dc;
        let delivered = match &self.connection {
            ConnectionState::Connected { outbound, .. } => push_outbound(outbound, out),
            ConnectionState::Disconnected => false,
        };
        self.after_send(closing, delivered)
    }

    /// Logs how a send went: the sender's own view of the command when it
    /// left, one line that says so when it did not.
    pub fn record_send(&mut self, sent: Lcommand, outcome: &Result<(), SendError>)
        ensures
            final(self).log() == logged(old(self).log(), if outcome is Ok {
                    display_text(sent@, true)
                } else {
                    not_connected_notice()
                }),
            final(self).username == old(self).username,
            final(self).connection == old(self).connection,
    {
        match outcome {
            Ok(_) => self.log_line(sent.display(true)),
            Err(_) => self.log_line(String::from_str("[CLIENT]: not connected to a server")),
        }
    }

    /// Sends a command and logs the outcome in one line. After a failure
    /// the client is disconnected.
    pub fn submit(&mut self, cmd: Lcommand) -> (r: Result<(), SendError>)
        requires
            cmd.cmd_type != Lcmd::Quit,
        ensures
            submitted(*old(self), cmd@, r, *final(self)),
    {
        let sent = self.outgoing(&cmd);
        let outcome = self.send_msg(cmd);
        self.record_send(sent, &outcome);
        outcome
    }

    /// Gives up the connection, if there is one, with a `Dc` to the peer.
    pub fn hang_up(&mut self)
        ensures
            hung_up(*old(self), *final(self)),
    {
        if self.is_connected() {
            let bye = Lcommand {
                cmd_type: Lcmd::Dc,
                user: self.username.clone(),
                content: String::new(),
            };
            let _ = self.send_msg(bye);
        } else {
            self.connection = ConnectionState::Disconnected;
        }
    }

    /// Carries out a typed command. `Quit` stops the loop, after a `Dc` to
    /// the peer where connected. `Conn` asks the loop to dial, after the
    /// connection held so far was closed in the same way. The other kinds
    /// are sent, and the outcome is logged in exactly one line.
    pub fn dispatch(&mut self, cmd: Lcommand) -> (action: Action)
        ensures
            dispatched(*old(self), cmd@, action, *final(self)),
    {
        match cmd.cmd_type {
            Lcmd::Quit => {
                self.hang_up();
                Action::Stop
            },
            Lcmd::Conn => {
                self.hang_up();
                Action::Dial(cmd.content)
            },
            _ => {
                let _ = self.submit(cmd);
                Action::Continue
            },
        }
    }

    /// Installs the channels of a connection that was opened to `addr`, and
    /// logs the join.
    pub fn joined(&mut self, addr: String, outbound: Sender<Lcommand>, inbound: Receiver<Lcommand>)
        ensures
            final(self).connection == (ConnectionState::Connected {
                address: addr,
                outbound,
                inbound,
            }),
            final(self).log() == logged(old(self).log(), "[CLIENT]: you joined "@ + addr@),
            final(self).username == old(self).username,
    {
        let mut line = String::from_str("[CLIENT]: you joined ");
        line.append(addr.as_str());
        self.log_line(line);
        self.connection = ConnectionState::Connected { address: addr, outbound, inbound };
    }

    /// Logs that no connection to `addr` could be opened. The client stays
    /// as it was.
    pub fn join_failed(&mut self, addr: &str)
        ensures
            final(self).log() == logged(old(self).log(), "[CLIENT]: failed to join "@ + addr@),
            final(self).username == old(self).username,
            final(self).connection == old(self).connection,
    {
        let mut line = String::from_str("[CLIENT]: failed to join ");
        line.append(addr);
        self.log_line(line);
    }

    /// Takes in how an attempt to open a connection to `addr` went: the
    /// channels of the new connection are installed and the join is logged,
    /// or the failure is logged and the client stays as it was.
    pub fn dialed(
        &mut self,
        addr: String,
        outcome: Result<(Sender<Lcommand>, Receiver<Lcommand>), ConnectError>,
    )
        ensures
            final(self).username == old(self).username,
            match outcome {
                Ok(ends) => {
                    &&& final(self).connection == (ConnectionState::Connected {
                        address: addr,
                        outbound: ends.0,
                        inbound: ends.1,
                    })
                    &&& final(self).log() == logged(old(self).log(), "[CLIENT]: you joined "@ + addr@)
                },
                Err(_) => {
                    &&& final(self).connection == old(self).connection
                    &&& final(self).log() == logged(old(self).log(), "[CLIENT]: failed to join "@ + addr@)
                },
            },
    {
        match outcome {
            Ok(ends) => self.joined(addr, ends.0, ends.1),
            Err(_) => self.join_failed(addr.as_str()),
        }
    }

    /// Takes in what a look at the inbound channel found.
    pub fn absorb(&mut self, event: Inbound)
        ensures
            absorbed(*old(self), event, *final(self)),
    {
        match event {
            Inbound::Message(cmd) => self.log_line(cmd.display(false)),
            Inbound::Idle => {},
            Inbound::Closed => {
                self.connection = ConnectionState::Disconnected;
                self.log_line(String::from_str("[CLIENT]: connection lost"));
            },
        }
    }

    /// Looks once at the inbound channel, without waiting, and takes in
    /// what is there. Without a connection nothing is there.
    pub fn poll(&mut self)
        ensures
            exists|event: Inbound| #[trigger]
                absorbed(*old(self), event, *final(self)) && (old(self).address() is None
                    ==> event is Idle),
    {
        let event = match &self.connection {
            ConnectionState::Connected { inbound, .. } => poll_inbound(inbound),
            ConnectionState::Disconnected => Inbound::Idle,
        };
        let ghost found = event;
        self.absorb(event);
        assert(absorbed(*old(self), found, *self) && (old(self).address() is None
            ==> found is Idle));
    }

    /// The lines of the log that fit into `rows` rows, newest first.
    pub fn visible_messages(&self, rows: usize) -> (shown: Vec<String>)
        ensures
            shown@.len() == if rows < self.messages@.len() { rows as int } else { self.messages@.len() as int },
            forall|i: int| 0 <= i < shown@.len() ==> shown@[i]@ == self.log()[self.log().len() - 1 - i],
    {
        let n = self.messages.len();
        let mut shown: Vec<String> = Vec::new();
        let mut i: usize = 0;
        while i < n && i < rows
            invariant
                i <= n,
                i <= rows,
                n == self.messages@.len(),
                shown@.len() == i,
                forall|j: int| 0 <= j < i ==> shown@[j]@ == self.messages@[n - 1 - j]@,
            decreases n - i,
        {
            shown.push(self.messages[n - 1 - i].clone());
            i += 1;
        }
        shown
    }

    /// The prompt line: the peer's address in brackets, empty while not
    /// connected, then the text typed so far.
    pub fn prompt_line(&self, text: &str) -> (line: String)
        ensures
            line@ == "["@ + (match self.address() {
                Some(a) => a,
                None => Seq::empty(),
            }) + "]: "@ + text@,
    {
        let mut line = String::from_str("[");
        match &self.connection {
            ConnectionState::Connected { address, .. } => line.append(address.as_str()),
            ConnectionState::Disconnected => {},
        }
        line.append("]: ");
        line.append(text);
        assert(line@ =~= "["@ + (match self.address() {
            Some(a) => a,
            None => Seq::empty(),
        }) + "]: "@ + text@);
        line
    }
}

/// The command that a kind word of the prompt asks for.
fn kind_of_prompt(word: &str) -> (kind: Lcmd)
    ensures
        kind == prompt_kind(word@),
{
    let w = String::from_str(word);
    if w == String::from_str("/connect") {
        Lcmd::Conn
    } else if w == String::from_str("/disconnect") {
        Lcmd::Dc
    } else if w == String::from_str("/nick") {
        Lcmd::Nick
    } else if w == String::from_str("/quit") {
        Lcmd::Quit
    } else {
        Lcmd::Say
    }
}

/// Reads a line typed at the prompt as a command of the current user. A
/// change of nickname takes effect at once and is confirmed in the log.
pub fn parse_cmd(buf: String, client: &mut Client) -> (cmd: Lcommand)
    ensures
        parsed_at(buf@, *old(client), cmd@, *final(client)),
{
    let s = buf.as_str();
    let n = s.unicode_len();
    let sp = find_field_end(s, ' ', 0);
    let kind = kind_of_prompt(s.substring_char(0, sp));
    let content = match kind {
        Lcmd::Say => strip_line_feeds(s),
        Lcmd::Conn | Lcmd::Nick => {
            if sp < n {
                strip_line_feeds(s.substring_char(sp + 1, n))
            } else {
                proof {
                    reveal_with_fuel(without_line_feeds, 1);
                }
                String::new()
            }
        },
        Lcmd::Dc | Lcmd::Quit => String::new(),
    };
    let user = client.username.clone();
    if kind == Lcmd::Nick {
        client.username = content.clone();
        let mut line = String::from_str("[CLIENT]: you changed your nickname to ");
        line.append(content.as_str());
        client.log_line(line);
    }
    Lcommand { cmd_type: kind, user, content }
}

} // verus!
