//! The prompt: the line that the user is typing.

use vstd::prelude::*;
use vstd::string::*;
use crate::client::{dispatched, parse_cmd, parsed_at, Action, Client};
use crate::command::Lcommand;

verus! {

/// The key that ends the line.
pub const ENTER: char = '\n';

/// The key that deletes the last character.
pub const BACKSPACE: char = '\u{8}';

/// `String::push`: appends one character.
pub assume_specification[ String::push ](s: &mut String, c: char)
    ensures
        final(s)@ == old(s)@.push(c),
;

/// `String::pop`: removes the last character and returns it, or returns
/// `None` and changes nothing when the string is empty.
pub assume_specification[ String::pop ](s: &mut String) -> (last: Option<char>)
    ensures
        old(s)@.len() == 0 ==> last is None && final(s)@ == old(s)@,
        old(s)@.len() > 0 ==> last == Some(old(s)@.last()) && final(s)@ == old(s)@.drop_last(),
;

/// The text typed so far.
pub struct Prompt {
    pub text: String,
}

impl View for Prompt {
    type V = Seq<char>;

    open spec fn view(&self) -> Seq<char> {
        self.text@
    }
}

/// The text of a prompt after a key that does not end the line.
pub open spec fn edited(text: Seq<char>, key: char) -> Seq<char> {
    if key == BACKSPACE {
        if text.len() > 0 {
            text.drop_last()
        } else {
            text
        }
    } else {
        text.push(key)
    }
}

impl Prompt {
    /// An empty prompt.
    pub fn new() -> (prompt: Prompt)
        ensures
            prompt@ == Seq::<char>::empty(),
    {
        Prompt { text: String::new() }
    }

    /// Takes one key. Enter hands out the line and empties the prompt;
    /// backspace deletes the last character, if any; every other key is
    /// appended.
    pub fn press(&mut self, key: char) -> (line: Option<String>)
        ensures
            key == ENTER ==> line is Some && line->0@ == old(self)@ && final(self)@
                == Seq::<char>::empty(),
            key != ENTER ==> line is None && final(self)@ == edited(old(self)@, key),
    {
        if key == ENTER {
            let mut line = String::new();
            core::mem::swap(&mut self.text, &mut line);
            Some(line)
        } else if key == BACKSPACE {
            let _ = self.text.pop();
            None
        } else {
            self.text.push(key);
            None
        }
    }
}

impl Client {
    /// Takes one key at the prompt. A finished line is read as a command and
    /// carried out; until then the loop goes on.
    pub fn key_pressed(&mut self, prompt: &mut Prompt, key: char) -> (action: Action)
        ensures
            key == ENTER ==> {
                &&& final(prompt)@ == Seq::<char>::empty()
                &&& exists|cmd: Lcommand, mid: Client| #[trigger]
                    parsed_at(old(prompt)@, *old(self), cmd@, mid) && dispatched(
                        mid,
                        cmd@,
                        action,
                        *final(self),
                    )
            },
            key != ENTER ==> {
                &&& action is Continue
                &&& final(prompt)@ == edited(old(prompt)@, key)
                &&& *final(self) == *old(self)
            },
    {
        match prompt.press(key) {
            Some(line) => {
                let cmd = parse_cmd(line, self);
                let ghost typed = cmd;
                let ghost mid = *self;
                let action = self.dispatch(cmd);
                assert(parsed_at(old(prompt)@, *old(self), typed@, mid) && dispatched(
                    mid,
                    typed@,
                    action,
                    *self,
                ));
                action
            },
            None => Action::Continue,
        }
    }
}

} // verus!
