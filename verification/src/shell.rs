//! The interactive session's state: the line history and the exit
//! flag. The line editor itself — raw terminal input, cursor movement —
//! is an external collaborator; it drives this state from outside.

use vstd::prelude::*;

verus! {

broadcast use vstd::string::to_string_from_display_ensures_for_str;

/// The prompt command of one loop turn: the configured prefix command
/// when one is set, else the default prompt command.
pub fn prompt_command(prefix: String) -> (r: String)
    ensures
        prefix@.len() > 0 ==> r@ == prefix@,
        prefix@.len() == 0 ==> r@ == "printf 'rush-%s$ ' \"$RUSH_VERSION\""@,
{
    if prefix.as_str().is_empty() {
        "printf 'rush-%s$ ' \"$RUSH_VERSION\"".to_string()
    } else {
        prefix
    }
}

/// State of one interactive session.
#[derive(Debug)]
pub struct Shell {
    history: Vec<String>,
    exit: bool,
}

impl Shell {
    /// Whether the user asked to leave the session.
    pub closed spec fn exit_flag(self) -> bool {
        self.exit
    }

    /// The accepted lines, oldest first.
    pub closed spec fn history_view(self) -> Seq<String> {
        self.history@
    }

    /// A fresh session: no history, exit not requested.
    pub fn new() -> (r: Shell)
        ensures
            !r.exit_flag(),
            r.history_view().len() == 0,
    {
        Shell { history: Vec::new(), exit: false }
    }

    /// Whether the session should end.
    pub fn exit_requested(&self) -> (r: bool)
        ensures
            r == self.exit_flag(),
    {
        self.exit
    }

    /// Mark the session as ending; the history stays as it is.
    pub fn request_exit(&mut self)
        ensures
            final(self).exit_flag(),
            final(self).history_view() == old(self).history_view(),
    {
        self.exit = true;
    }

    /// Append an accepted line to the history.
    pub fn push_history(&mut self, line: String)
        ensures
            final(self).history_view() == old(self).history_view().push(line),
            final(self).exit_flag() == old(self).exit_flag(),
    {
        self.history.push(line);
    }

    /// How many lines the history holds.
    pub fn history_len(&self) -> (r: usize)
        ensures
            r == self.history_view().len(),
    {
        self.history.len()
    }

    /// The history line at `i`, if there is one.
    pub fn history_at(&self, i: usize) -> (r: Option<&String>)
        ensures
            match r {
                Some(s) => i < self.history_view().len() && *s == self.history_view()[i as int],
                None => i >= self.history_view().len(),
            },
    {
        if i < self.history.len() {
            Some(&self.history[i])
        } else {
            None
        }
    }
}

} // verus!
