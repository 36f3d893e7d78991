//! The syntax categories of options.

use vstd::prelude::*;

verus! {

/// How an option and its values are written and consumed.
///
/// These correspond to the `KIND_*` definitions of LLVM's option tables.
#[derive(Clone, Copy, Debug, PartialEq, Eq, Structural)]
pub enum OptionKind {
    /// The input option kind. Never matched against a token.
    Input,
    /// Unknown option kind. Never matched against a token.
    Unknown,
    /// A flag with no values, e.g. `-pthread`.
    Flag,
    /// An option which prefixes its single value, e.g. `-O<value>`.
    Joined,
    /// An option which is followed by its value, e.g. `-Xpreprocessor <value>`.
    Separate,
    /// An option followed by its values, which are separated by commas, e.g.
    /// `-fno_sanitize_coverage=foo,bar`.
    CommaJoined,
    /// An option which takes so many separate arguments, e.g.
    /// `-fget-definition foo bar baz`.
    MultiArg(usize),
    /// An option which is either joined to its non-empty value or followed by
    /// its value: `-I<value>` or `-I <value>`.
    JoinedOrSeparate,
    /// An option which is both joined to its first value and followed by its
    /// second value, e.g. `-Xarch__<key> <value>`.
    JoinedAndSeparate,
    /// An option which consumes all remaining arguments if there are any.
    RemainingArgs,
    /// An option which consumes an optional joined argument and any other
    /// remaining arguments.
    RemainingArgsJoined,
}

impl OptionKind {
    /// Whether the kind is matched against the whole token, so that an equal
    /// sign inside the spelling is part of the name: `Flag`, `Separate` and
    /// `MultiArg`.
    pub open spec fn spec_syntax_matches_with_equals(&self) -> bool {
        *self is Flag || *self is Separate || *self is MultiArg
    }

    /// Whether the syntax of this kind matches if an equal sign is present.
    #[verifier::when_used_as_spec(spec_syntax_matches_with_equals)]
    pub fn syntax_matches_with_equals(&self) -> (whole: bool)
        ensures
            whole == self.spec_syntax_matches_with_equals(),
    {
        match self {
            OptionKind::Flag => true,
            OptionKind::Separate => true,
            OptionKind::MultiArg(_) => true,
            _ => false,
        }
    }

    /// Whether a token must equal the spelling as a whole to match: `Flag`,
    /// `Separate`, `MultiArg` and `RemainingArgs`.
    pub open spec fn matches_whole_token(self) -> bool {
        self is Flag || self is Separate || self is MultiArg || self is RemainingArgs
    }

    /// Whether a token matches when it begins with the spelling: `Joined`,
    /// `CommaJoined`, `JoinedOrSeparate`, `JoinedAndSeparate` and
    /// `RemainingArgsJoined`.
    pub open spec fn matches_token_start(self) -> bool {
        self is Joined || self is CommaJoined || self is JoinedOrSeparate
            || self is JoinedAndSeparate || self is RemainingArgsJoined
    }
}

} // verus!
