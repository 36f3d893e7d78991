//! One option definition of a catalog: its spelling, its kind, and how a
//! token is matched against it.

use crate::kind::OptionKind;
use crate::prefix::ArgumentPrefix;
use crate::text::{bytes_equal, bytes_start_with, text_less, text_precedes, texts};
use vstd::prelude::*;
use vstd::slice::slice_subrange;
use vstd::utf8::*;

verus! {

/// An option that can be passed to an LLVM based program, as its tablegen
/// record defines it.
#[derive(Debug, PartialEq, Eq)]
pub struct ProgramOption {
    /// Internal name of the record; alias targets and errors go by it.
    pub option_name: String,
    /// The name that follows the prefix on a command line.
    pub name: String,
    /// The kind/syntax of the option.
    pub kind: OptionKind,
    /// The prefixes that the option can be written with.
    pub prefixes: Vec<ArgumentPrefix>,
    /// Internal name of the option that this one is an alias for.
    pub alias: Option<String>,
    /// Flags associated with this option.
    pub flags: Vec<String>,
    /// The group this option is part of.
    pub group: Option<String>,
}

/// The mathematical content of a [`ProgramOption`].
pub struct ProgramOptionView {
    pub option_name: Seq<char>,
    pub name: Seq<char>,
    pub kind: OptionKind,
    pub prefixes: Seq<ArgumentPrefix>,
    pub alias: Option<Seq<char>>,
    pub flags: Seq<Seq<char>>,
    pub group: Option<Seq<char>>,
}

/// The text of an optional string.
pub open spec fn optional_text(text: Option<String>) -> Option<Seq<char>> {
    match text {
        Some(text) => Some(text@),
        None => None,
    }
}

impl View for ProgramOption {
    type V = ProgramOptionView;

    open spec fn view(&self) -> ProgramOptionView {
        ProgramOptionView {
            option_name: self.option_name@,
            name: self.name@,
            kind: self.kind,
            prefixes: self.prefixes@,
            alias: optional_text(self.alias),
            flags: texts(self.flags@),
            group: optional_text(self.group),
        }
    }
}

impl ProgramOptionView {
    /// The bytes of the option as spelled with its `i`-th prefix.
    pub open spec fn spelling(self, i: int) -> Seq<u8> {
        encode_utf8(self.prefixes[i].spelled(self.name))
    }

    /// Whether the token is, byte for byte, the option spelled with one of its
    /// prefixes.
    pub open spec fn matches_exact(self, token: Seq<u8>) -> bool {
        exists|i: int| 0 <= i < self.prefixes.len() && token == #[trigger] self.spelling(i)
    }

    /// The first prefix, from position `from` on, with which the spelled
    /// option is the start of the token.
    pub open spec fn first_start(self, token: Seq<u8>, from: int) -> Option<int>
        decreases self.prefixes.len() - from,
    {
        if from < 0 || from >= self.prefixes.len() {
            None
        } else if self.spelling(from).is_prefix_of(token) {
            Some(from)
        } else {
            self.first_start(token, from + 1)
        }
    }

    /// What is left of the token behind the spelled option, where the token
    /// starts with the option spelled with one of its prefixes; the first such
    /// prefix in the definition's order decides.
    pub open spec fn matches_prefix(self, token: Seq<u8>) -> Option<Seq<u8>> {
        match self.first_start(token, 0) {
            Some(i) => Some(token.skip(self.spelling(i).len() as int)),
            None => None,
        }
    }

    /// Whether the definition is one that a catalog holds: it has at least one
    /// prefix and its display name is not empty.
    pub open spec fn is_well_formed(self) -> bool {
        self.prefixes.len() >= 1 && self.name.len() > 0
    }

    /// Whether a token matches the definition, as its kind asks: the whole
    /// token for `Flag`, `Separate`, `MultiArg` and `RemainingArgs`, the start
    /// of the token for the joined kinds, and never for `Input` and `Unknown`.
    pub open spec fn matches(self, token: Seq<u8>) -> bool {
        ||| self.kind.matches_whole_token() && self.matches_exact(token)
        ||| self.kind.matches_token_start() && self.matches_prefix(token) is Some
    }

    /// The length of the display name in bytes.
    pub open spec fn name_len(self) -> nat {
        encode_utf8(self.name).len()
    }

    /// The catalog order: whether `self` has its place strictly before
    /// `other`.
    ///
    /// Kinds that are matched against the whole token (`Flag`, `Separate`,
    /// `MultiArg`) come before all others. Among the others the longer display
    /// name comes first. What is left is ordered by the internal name,
    /// ascending.
    pub open spec fn sorts_before(self, other: ProgramOptionView) -> bool {
        let mine = self.kind.syntax_matches_with_equals();
        let theirs = other.kind.syntax_matches_with_equals();
        if mine && !theirs {
            true
        } else if !mine && theirs {
            false
        } else if !mine && !theirs && self.name_len() != other.name_len() {
            self.name_len() > other.name_len()
        } else {
            text_less(self.option_name, other.option_name)
        }
    }
}

/// A copy of an optional string.
pub fn copy_optional_text(text: &Option<String>) -> (copy: Option<String>)
    ensures
        copy == *text,
{
    match text {
        Some(text) => Some(text.clone()),
        None => None,
    }
}

/// A copy of a list of strings.
pub fn copy_texts(list: &Vec<String>) -> (copy: Vec<String>)
    ensures
        copy@ == list@,
{
    let mut copy: Vec<String> = Vec::new();
    let mut i: usize = 0;
    while i < list.len()
        invariant
            i <= list.len(),
            copy@ == list@.subrange(0, i as int),
        decreases list.len() - i,
    {
        copy.push(list[i].clone());
        assert(copy@ =~= list@.subrange(0, i + 1));
        i += 1;
    }
    assert(copy@ =~= list@);
    copy
}

/// A copy of a list of prefixes.
pub fn copy_prefixes(list: &Vec<ArgumentPrefix>) -> (copy: Vec<ArgumentPrefix>)
    ensures
        copy@ == list@,
{
    let mut copy: Vec<ArgumentPrefix> = Vec::new();
    let mut i: usize = 0;
    while i < list.len()
        invariant
            i <= list.len(),
            copy@ == list@.subrange(0, i as int),
        decreases list.len() - i,
    {
        copy.push(list[i]);
        assert(copy@ =~= list@.subrange(0, i + 1));
        i += 1;
    }
    assert(copy@ =~= list@);
    copy
}

impl Clone for ProgramOption {
    fn clone(&self) -> (copy: Self)
        ensures
            copy@ == self@,
    {
        ProgramOption {
            option_name: self.option_name.clone(),
            name: self.name.clone(),
            kind: self.kind,
            prefixes: copy_prefixes(&self.prefixes),
            alias: copy_optional_text(&self.alias),
            flags: copy_texts(&self.flags),
            group: copy_optional_text(&self.group),
        }
    }
}

impl ProgramOption {
    /// Whether a given token matches this option's definition exactly.
    pub fn matches_exact(&self, s: &[u8]) -> (matched: bool)
        ensures
            matched == self@.matches_exact(s@),
    {
        let mut i: usize = 0;
        while i < self.prefixes.len()
            invariant
                i <= self.prefixes.len(),
                forall|j: int| 0 <= j < i ==> s@ != #[trigger] self@.spelling(j),
            decreases self.prefixes.len() - i,
        {
            let spelled = self.prefixes[i].with_name(self.name.as_str());
            if bytes_equal(s, spelled.as_str().as_bytes()) {
                assert(s@ == self@.spelling(i as int));
                return true;
            }
            i += 1;
        }
        false
    }

    /// Whether a given token matches this option with argument name prefix
    /// matching.
    ///
    /// Returns `Some` if yes, holding the remainder of the token behind the
    /// spelled option. `None` means no prefix match.
    pub fn matches_prefix<'a>(&self, s: &'a [u8]) -> (rest: Option<&'a [u8]>)
        ensures
            match rest {
                Some(rest) => self@.matches_prefix(s@) == Some(rest@),
                None => self@.matches_prefix(s@) is None,
            },
    {
        let mut i: usize = 0;
        while i < self.prefixes.len()
            invariant
                i <= self.prefixes.len(),
                self@.first_start(s@, 0) == self@.first_start(s@, i as int),
            decreases self.prefixes.len() - i,
        {
            let spelled = self.prefixes[i].with_name(self.name.as_str());
            let search = spelled.as_str().as_bytes();
            if bytes_start_with(s, search) {
                assert(search@ == self@.spelling(i as int));
                let rest = slice_subrange(s, search.len(), s.len());
                assert(rest@ =~= s@.skip(search@.len() as int));
                return Some(rest);
            }
            i += 1;
        }
        None
    }

    /// Whether this option has its place strictly before `other` in a
    /// catalog.
    pub fn sorts_before(&self, other: &ProgramOption) -> (before: bool)
        ensures
            before == self@.sorts_before(other@),
    {
        let mine = self.kind.syntax_matches_with_equals();
        let theirs = other.kind.syntax_matches_with_equals();
        let my_len: usize = self.name.as_str().as_bytes().len();
        let their_len: usize = other.name.as_str().as_bytes().len();
        if mine && !theirs {
            true
        } else if !mine && theirs {
            false
        } else if !mine && !theirs && my_len != their_len {
            my_len > their_len
        } else {
            text_precedes(self.option_name.as_str(), other.option_name.as_str())
        }
    }
}

} // verus!
