//! A command of the plain prompt: a verb and its arguments.

use crate::text::{is_text, join, join_text, lemma_texts_push, texts};
use vstd::prelude::*;
use vstd::string::StringExecFns;

verus! {

/// The verbs that the plain prompt knows.
#[derive(Debug, Clone, Copy, PartialEq, Eq, Structural)]
pub enum InputCommand {
    Cd,
    Tree,
    Ls,
    Exit,
}

/// The word by which a verb is shown.
pub open spec fn verb_text(cmd: InputCommand) -> Seq<char> {
    match cmd {
        InputCommand::Cd => seq!['c', 'd'],
        InputCommand::Tree => seq!['t', 'r', 'e', 'e'],
        InputCommand::Ls => seq!['l', 's'],
        InputCommand::Exit => seq!['e', 'x', 'i', 't'],
    }
}

/// The verb that a typed word names: `cd`, `tree` and `exit` name one; `ls`
/// is shown but cannot be typed.
pub open spec fn verb_of(s: Seq<char>) -> Option<InputCommand> {
    if s == verb_text(InputCommand::Cd) {
        Some(InputCommand::Cd)
    } else if s == verb_text(InputCommand::Tree) {
        Some(InputCommand::Tree)
    } else if s == verb_text(InputCommand::Exit) {
        Some(InputCommand::Exit)
    } else {
        None
    }
}

impl InputCommand {
    /// The verb that the word `s` names.
    pub fn from_str(s: &str) -> (r: Result<InputCommand, ()>)
        ensures
            match r {
                Ok(cmd) => verb_of(s@) == Some(cmd),
                Err(_) => verb_of(s@) is None,
            },
    {
        proof {
            reveal_strlit("cd");
            reveal_strlit("tree");
            reveal_strlit("exit");
            assert("cd"@ =~= verb_text(InputCommand::Cd));
            assert("tree"@ =~= verb_text(InputCommand::Tree));
            assert("exit"@ =~= verb_text(InputCommand::Exit));
        }
        let word = String::from_str(s);
        if is_text(&word, "cd") {
            Ok(InputCommand::Cd)
        } else if is_text(&word, "tree") {
            Ok(InputCommand::Tree)
        } else if is_text(&word, "exit") {
            Ok(InputCommand::Exit)
        } else {
            Err(())
        }
    }

    /// The word by which the verb is shown.
    pub fn to_string(&self) -> (s: String)
        ensures
            s@ == verb_text(*self),
    {
        proof {
            reveal_strlit("cd");
            reveal_strlit("tree");
            reveal_strlit("ls");
            reveal_strlit("exit");
            assert("cd"@ =~= verb_text(InputCommand::Cd));
            assert("tree"@ =~= verb_text(InputCommand::Tree));
            assert("ls"@ =~= verb_text(InputCommand::Ls));
            assert("exit"@ =~= verb_text(InputCommand::Exit));
        }
        match self {
            InputCommand::Cd => String::from_str("cd"),
            InputCommand::Tree => String::from_str("tree"),
            InputCommand::Ls => String::from_str("ls"),
            InputCommand::Exit => String::from_str("exit"),
        }
    }
}

/// A verb with its arguments.
pub struct Input {
    pub cmd: InputCommand,
    pub args: Vec<String>,
}

impl Input {
    /// The command as it was typed: the verb, then each argument behind a
    /// blank.
    pub fn to_string(&self) -> (s: String)
        ensures
            s@ == join(seq![verb_text(self.cmd)] + texts(self.args@), seq![' ']),
    {
        proof {
            reveal_strlit(" ");
            assert(" "@ =~= seq![' ']);
        }
        let mut parts: Vec<String> = Vec::new();
        parts.push(self.cmd.to_string());
        proof {
            assert(texts(parts@) =~= seq![verb_text(self.cmd)] + texts(self.args@).take(0));
        }
        let mut i: usize = 0;
        while i < self.args.len()
            invariant
                i <= self.args.len(),
                texts(parts@) == seq![verb_text(self.cmd)] + texts(self.args@).take(i as int),
            decreases self.args.len() - i,
        {
            let arg = self.args[i].clone();
            proof {
                lemma_texts_push(parts@, arg);
                assert((seq![verb_text(self.cmd)] + texts(self.args@).take(i as int)).push(arg@)
                    =~= seq![verb_text(self.cmd)] + texts(self.args@).take(i + 1));
            }
            parts.push(arg);
            i += 1;
        }
        proof {
            assert(texts(self.args@).take(self.args@.len() as int) =~= texts(self.args@));
        }
        join_text(&parts, " ")
    }
}

} // verus!
