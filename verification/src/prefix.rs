//! The prefix styles that an option can be written with.

use crate::error::{Error, ErrorView};
use vstd::prelude::*;
use vstd::string::*;

verus! {

/// The marker characters in front of an option's name.
#[derive(Clone, Copy, Debug, PartialEq, Eq, Structural)]
pub enum ArgumentPrefix {
    /// Prefixed by `-`.
    SingleDash,
    /// Prefixed by `--`.
    DoubleDash,
    /// Prefixed by `-?`.
    SingleDashQuestion,
    /// Prefixed by `/`.
    Slash,
    /// Prefixed by `/?`.
    SlashQuestion,
}

impl ArgumentPrefix {
    /// The characters of the prefix.
    pub open spec fn text(self) -> Seq<char> {
        match self {
            ArgumentPrefix::SingleDash => seq!['-'],
            ArgumentPrefix::DoubleDash => seq!['-', '-'],
            ArgumentPrefix::SingleDashQuestion => seq!['-', '?'],
            ArgumentPrefix::Slash => seq!['/'],
            ArgumentPrefix::SlashQuestion => seq!['/', '?'],
        }
    }

    /// The prefix that a tag of the metadata stands for, if it is one of the
    /// five known tags.
    pub open spec fn of_tag(tag: Seq<char>) -> Option<ArgumentPrefix> {
        if tag == ArgumentPrefix::SingleDash.text() {
            Some(ArgumentPrefix::SingleDash)
        } else if tag == ArgumentPrefix::DoubleDash.text() {
            Some(ArgumentPrefix::DoubleDash)
        } else if tag == ArgumentPrefix::SingleDashQuestion.text() {
            Some(ArgumentPrefix::SingleDashQuestion)
        } else if tag == ArgumentPrefix::Slash.text() {
            Some(ArgumentPrefix::Slash)
        } else if tag == ArgumentPrefix::SlashQuestion.text() {
            Some(ArgumentPrefix::SlashQuestion)
        } else {
            None
        }
    }

    /// The name with this prefix in front of it, as the option is spelled on
    /// a command line.
    pub open spec fn spelled(self, name: Seq<char>) -> Seq<char> {
        self.text() + name
    }

    /// The prefix as text.
    pub fn as_str(&self) -> (text: &'static str)
        ensures
            text@ == self.text(),
    {
        proof {
            reveal_strlit("-");
            reveal_strlit("--");
            reveal_strlit("-?");
            reveal_strlit("/");
            reveal_strlit("/?");
        }
        let text = match self {
            ArgumentPrefix::SingleDash => "-",
            ArgumentPrefix::DoubleDash => "--",
            ArgumentPrefix::SingleDashQuestion => "-?",
            ArgumentPrefix::Slash => "/",
            ArgumentPrefix::SlashQuestion => "/?",
        };
        assert(text@ =~= self.text());
        text
    }

    /// The prefix as an owned string.
    pub fn to_string(&self) -> (text: String)
        ensures
            text@ == self.text(),
    {
        self.as_str().to_owned()
    }

    /// Reads a prefix tag of the metadata. Any text but the five known tags
    /// is rejected, and the error carries that text.
    pub fn from_str(s: &str) -> (parsed: Result<ArgumentPrefix, Error>)
        ensures
            match ArgumentPrefix::of_tag(s@) {
                Some(prefix) => parsed == Ok::<ArgumentPrefix, Error>(prefix),
                None => parsed is Err && parsed->Err_0@ == ErrorView::UnrecognizedArgumentPrefix(
                    s@,
                ),
            },
    {
        let n: usize = s.unicode_len();
        if n == 1 {
            let c = s.get_char(0);
            if c == '-' {
                assert(s@ =~= seq!['-']);
                return Ok(ArgumentPrefix::SingleDash);
            } else if c == '/' {
                assert(s@ =~= seq!['/']);
                return Ok(ArgumentPrefix::Slash);
            }
        } else if n == 2 {
            let c = s.get_char(0);
            let d = s.get_char(1);
            if c == '-' && d == '-' {
                assert(s@ =~= seq!['-', '-']);
                return Ok(ArgumentPrefix::DoubleDash);
            } else if c == '-' && d == '?' {
                assert(s@ =~= seq!['-', '?']);
                return Ok(ArgumentPrefix::SingleDashQuestion);
            } else if c == '/' && d == '?' {
                assert(s@ =~= seq!['/', '?']);
                return Ok(ArgumentPrefix::SlashQuestion);
            }
        }
        Err(Error::UnrecognizedArgumentPrefix(s.to_owned()))
    }

    /// Format the prefix with a given argument name after it.
    pub fn with_name(&self, name: &str) -> (spelled: String)
        ensures
            spelled@ == self.spelled(name@),
    {
        let mut spelled = self.to_string();
        spelled.append(name);
        spelled
    }
}

} // verus!
