//! The structured results of parsing: one parsed argument per logical unit
//! of input.

use crate::definition::{ProgramOption, ProgramOptionView};
use vstd::prelude::*;
use vstd::slice::slice_to_vec;
use vstd::std_specs::slice::into_iter_elts;

verus! {

/// A parsed argument.
///
/// It can be derived from one or more tokens of the command line: that
/// depends on the kind of the option. Tokens are raw bytes.
#[derive(Debug, PartialEq)]
pub enum ParsedArgument {
    /// The token is no option that the catalog knows.
    Unknown(Vec<u8>),
    /// The token is a positional argument.
    Positional(Vec<u8>),
    /// A flag argument.
    Flag(ProgramOption),
    /// An option with a single value.
    SingleValue(ProgramOption, Vec<u8>),
    /// An option with a single value keyed to another value.
    SingleValueKeyed(ProgramOption, Vec<u8>, Vec<u8>),
    /// An option with comma joined values, not split.
    CommaValues(ProgramOption, Vec<u8>),
    /// An option with multiple values.
    MultipleValues(ProgramOption, Vec<Vec<u8>>),
    /// An option with multiple values keyed to a specific value.
    MultipleValuesKeyed(ProgramOption, Vec<u8>, Vec<Vec<u8>>),
}

/// The mathematical content of a [`ParsedArgument`].
pub enum ParsedArgumentView {
    Unknown(Seq<u8>),
    Positional(Seq<u8>),
    Flag(ProgramOptionView),
    SingleValue(ProgramOptionView, Seq<u8>),
    SingleValueKeyed(ProgramOptionView, Seq<u8>, Seq<u8>),
    CommaValues(ProgramOptionView, Seq<u8>),
    MultipleValues(ProgramOptionView, Seq<Seq<u8>>),
    MultipleValuesKeyed(ProgramOptionView, Seq<u8>, Seq<Seq<u8>>),
}

/// The contents of a list of tokens.
pub open spec fn token_views(tokens: Seq<Vec<u8>>) -> Seq<Seq<u8>> {
    tokens.map_values(|token: Vec<u8>| token@)
}

impl View for ParsedArgument {
    type V = ParsedArgumentView;

    open spec fn view(&self) -> ParsedArgumentView {
        match self {
            ParsedArgument::Unknown(token) => ParsedArgumentView::Unknown(token@),
            ParsedArgument::Positional(token) => ParsedArgumentView::Positional(token@),
            ParsedArgument::Flag(option) => ParsedArgumentView::Flag(option@),
            ParsedArgument::SingleValue(option, value) => ParsedArgumentView::SingleValue(
                option@,
                value@,
            ),
            ParsedArgument::SingleValueKeyed(option, key, value) => {
                ParsedArgumentView::SingleValueKeyed(option@, key@, value@)
            },
            ParsedArgument::CommaValues(option, value) => ParsedArgumentView::CommaValues(
                option@,
                value@,
            ),
            ParsedArgument::MultipleValues(option, values) => ParsedArgumentView::MultipleValues(
                option@,
                token_views(values@),
            ),
            ParsedArgument::MultipleValuesKeyed(option, key, values) => {
                ParsedArgumentView::MultipleValuesKeyed(option@, key@, token_views(values@))
            },
        }
    }
}

impl ParsedArgumentView {
    /// The definition that the argument was matched to, if any.
    pub open spec fn option(self) -> Option<ProgramOptionView> {
        match self {
            ParsedArgumentView::Unknown(_) => None,
            ParsedArgumentView::Positional(_) => None,
            ParsedArgumentView::Flag(option) => Some(option),
            ParsedArgumentView::SingleValue(option, _) => Some(option),
            ParsedArgumentView::SingleValueKeyed(option, _, _) => Some(option),
            ParsedArgumentView::CommaValues(option, _) => Some(option),
            ParsedArgumentView::MultipleValues(option, _) => Some(option),
            ParsedArgumentView::MultipleValuesKeyed(option, _, _) => Some(option),
        }
    }

    /// The values of the argument; a key is no value.
    pub open spec fn values(self) -> Seq<Seq<u8>> {
        match self {
            ParsedArgumentView::Unknown(_) => seq![],
            ParsedArgumentView::Positional(_) => seq![],
            ParsedArgumentView::Flag(_) => seq![],
            ParsedArgumentView::SingleValue(_, value) => seq![value],
            ParsedArgumentView::SingleValueKeyed(_, _, value) => seq![value],
            ParsedArgumentView::CommaValues(_, value) => seq![value],
            ParsedArgumentView::MultipleValues(_, values) => values,
            ParsedArgumentView::MultipleValuesKeyed(_, _, values) => values,
        }
    }

    /// The same argument under another definition: the payload stays, and an
    /// argument without a definition stays as it is.
    pub open spec fn with_option(self, option: ProgramOptionView) -> ParsedArgumentView {
        match self {
            ParsedArgumentView::Unknown(token) => ParsedArgumentView::Unknown(token),
            ParsedArgumentView::Positional(token) => ParsedArgumentView::Positional(token),
            ParsedArgumentView::Flag(_) => ParsedArgumentView::Flag(option),
            ParsedArgumentView::SingleValue(_, value) => ParsedArgumentView::SingleValue(
                option,
                value,
            ),
            ParsedArgumentView::SingleValueKeyed(_, key, value) => {
                ParsedArgumentView::SingleValueKeyed(option, key, value)
            },
            ParsedArgumentView::CommaValues(_, value) => ParsedArgumentView::CommaValues(
                option,
                value,
            ),
            ParsedArgumentView::MultipleValues(_, values) => ParsedArgumentView::MultipleValues(
                option,
                values,
            ),
            ParsedArgumentView::MultipleValuesKeyed(_, key, values) => {
                ParsedArgumentView::MultipleValuesKeyed(option, key, values)
            },
        }
    }
}

/// The contents of a list of parsed arguments.
pub open spec fn argument_views(arguments: Seq<ParsedArgument>) -> Seq<ParsedArgumentView> {
    arguments.map_values(|argument: ParsedArgument| argument@)
}

/// A collection of parsed command line arguments, in the order in which their
/// first tokens stood in the input.
#[derive(Debug)]
pub struct ParsedArguments {
    parsed: Vec<ParsedArgument>,
}

impl View for ParsedArguments {
    type V = Seq<ParsedArgumentView>;

    closed spec fn view(&self) -> Seq<ParsedArgumentView> {
        argument_views(self.parsed@)
    }
}

impl ParsedArguments {
    /// The collection that holds the given arguments in their order.
    pub fn from_parsed(parsed: Vec<ParsedArgument>) -> (arguments: ParsedArguments)
        ensures
            arguments@ == argument_views(parsed@),
    {
        ParsedArguments { parsed }
    }

    /// Obtain a reference to the raw [`ParsedArgument`] list.
    pub fn parsed(&self) -> (parsed: &Vec<ParsedArgument>)
        ensures
            argument_views(parsed@) == self@,
    {
        &self.parsed
    }

    /// Obtain an iterator over the parsed arguments, in order.
    pub fn iter_parsed(&self) -> (iter: std::slice::Iter<'_, ParsedArgument>)
        ensures
            argument_views(into_iter_elts(iter)) == self@,
    {
        let iter = self.parsed.as_slice().iter();
        proof {
            broadcast use vstd::std_specs::slice::axiom_spec_slice_iter;

            assert(into_iter_elts(iter) =~= self.parsed@);
        }
        iter
    }

    /// The arguments themselves, leaving the collection.
    pub fn into_parsed(self) -> (parsed: Vec<ParsedArgument>)
        ensures
            argument_views(parsed@) == self@,
    {
        self.parsed
    }
}

/// Copies of the tokens from `from` up to `to`.
pub fn copy_tokens(tokens: &Vec<Vec<u8>>, from: usize, to: usize) -> (copy: Vec<Vec<u8>>)
    requires
        from <= to <= tokens@.len(),
    ensures
        token_views(copy@) == token_views(tokens@).subrange(from as int, to as int),
{
    let mut copy: Vec<Vec<u8>> = Vec::new();
    let mut i: usize = from;
    while i < to
        invariant
            from <= i <= to <= tokens@.len(),
            copy@.len() == i - from,
            forall|j: int| 0 <= j < copy@.len() ==> (#[trigger] copy@[j])@ == tokens@[from + j]@,
        decreases to - i,
    {
        copy.push(slice_to_vec(tokens[i].as_slice()));
        i += 1;
    }
    assert(token_views(copy@) =~= token_views(tokens@).subrange(from as int, to as int));
    copy
}

impl Clone for ParsedArgument {
    fn clone(&self) -> (copy: Self)
        ensures
            copy@ == self@,
    {
        match self {
            ParsedArgument::Unknown(token) => ParsedArgument::Unknown(
                slice_to_vec(token.as_slice()),
            ),
            ParsedArgument::Positional(token) => ParsedArgument::Positional(
                slice_to_vec(token.as_slice()),
            ),
            ParsedArgument::Flag(option) => ParsedArgument::Flag(option.clone()),
            ParsedArgument::SingleValue(option, value) => ParsedArgument::SingleValue(
                option.clone(),
                slice_to_vec(value.as_slice()),
            ),
            ParsedArgument::SingleValueKeyed(option, key, value) => {
                ParsedArgument::SingleValueKeyed(
                    option.clone(),
                    slice_to_vec(key.as_slice()),
                    slice_to_vec(value.as_slice()),
                )
            },
            ParsedArgument::CommaValues(option, value) => ParsedArgument::CommaValues(
                option.clone(),
                slice_to_vec(value.as_slice()),
            ),
            ParsedArgument::MultipleValues(option, values) => {
                let copy = copy_tokens(values, 0, values.len());
                assert(token_views(values@).subrange(0, values@.len() as int) =~= token_views(
                    values@,
                ));
                ParsedArgument::MultipleValues(option.clone(), copy)
            },
            ParsedArgument::MultipleValuesKeyed(option, key, values) => {
                let copy = copy_tokens(values, 0, values.len());
                assert(token_views(values@).subrange(0, values@.len() as int) =~= token_views(
                    values@,
                ));
                ParsedArgument::MultipleValuesKeyed(
                    option.clone(),
                    slice_to_vec(key.as_slice()),
                    copy,
                )
            },
        }
    }
}

impl Clone for ParsedArguments {
    fn clone(&self) -> (copy: Self)
        ensures
            copy@ == self@,
    {
        let mut parsed: Vec<ParsedArgument> = Vec::new();
        let mut i: usize = 0;
        while i < self.parsed.len()
            invariant
                i <= self.parsed@.len(),
                parsed@.len() == i,
                forall|j: int| 0 <= j < i ==> (#[trigger] parsed@[j])@ == self.parsed@[j]@,
            decreases self.parsed@.len() - i,
        {
            parsed.push(self.parsed[i].clone());
            i += 1;
        }
        assert(argument_views(parsed@) =~= argument_views(self.parsed@));
        ParsedArguments { parsed }
    }
}

/// References to the tokens of a list, in order.
pub fn token_slices<'a>(tokens: &'a Vec<Vec<u8>>) -> (slices: Vec<&'a [u8]>)
    ensures
        slices@.len() == tokens@.len(),
        forall|i: int| 0 <= i < slices@.len() ==> (#[trigger] slices@[i])@ == tokens@[i]@,
{
    let mut slices: Vec<&'a [u8]> = Vec::new();
    let mut i: usize = 0;
    while i < tokens.len()
        invariant
            i <= tokens.len(),
            slices@.len() == i,
            forall|j: int| 0 <= j < i ==> (#[trigger] slices@[j])@ == tokens@[j]@,
        decreases tokens.len() - i,
    {
        slices.push(tokens[i].as_slice());
        i += 1;
    }
    slices
}

impl ParsedArgument {
    /// Obtain the [`ProgramOption`] for this parsed argument, if available.
    pub fn option(&self) -> (option: Option<&ProgramOption>)
        ensures
            match option {
                Some(option) => self@.option() == Some(option@),
                None => self@.option() is None,
            },
    {
        match self {
            ParsedArgument::Unknown(_) => None,
            ParsedArgument::Positional(_) => None,
            ParsedArgument::Flag(d) => Some(d),
            ParsedArgument::SingleValue(d, _) => Some(d),
            ParsedArgument::SingleValueKeyed(d, _, _) => Some(d),
            ParsedArgument::CommaValues(d, _) => Some(d),
            ParsedArgument::MultipleValues(d, _) => Some(d),
            ParsedArgument::MultipleValuesKeyed(d, _, _) => Some(d),
        }
    }

    /// The internal name of the option of this parsed argument, if available.
    pub fn name(&self) -> (name: Option<&str>)
        ensures
            match name {
                Some(name) => self@.option() is Some && self@.option()->0.option_name == name@,
                None => self@.option() is None,
            },
    {
        match self.option() {
            Some(option) => Some(option.option_name.as_str()),
            None => None,
        }
    }

    /// Values for this argument.
    ///
    /// Arguments without values return an empty vec.
    pub fn values(&self) -> (values: Vec<&[u8]>)
        ensures
            values@.len() == self@.values().len(),
            forall|i: int| 0 <= i < values@.len() ==> (#[trigger] values@[i])@ == self@.values()[i],
    {
        match self {
            ParsedArgument::Unknown(_) => Vec::new(),
            ParsedArgument::Positional(_) => Vec::new(),
            ParsedArgument::Flag(_) => Vec::new(),
            ParsedArgument::SingleValue(_, value) => {
                let mut values: Vec<&[u8]> = Vec::new();
                values.push(value.as_slice());
                values
            },
            ParsedArgument::SingleValueKeyed(_, _, value) => {
                let mut values: Vec<&[u8]> = Vec::new();
                values.push(value.as_slice());
                values
            },
            ParsedArgument::CommaValues(_, value) => {
                let mut values: Vec<&[u8]> = Vec::new();
                values.push(value.as_slice());
                values
            },
            ParsedArgument::MultipleValues(_, values) => token_slices(values),
            ParsedArgument::MultipleValuesKeyed(_, _, values) => token_slices(values),
        }
    }

    /// Replace the [`ProgramOption`] associated with this instance.
    pub fn with_option(self, option: ProgramOption) -> (replaced: ParsedArgument)
        ensures
            replaced@ == self@.with_option(option@),
    {
        match self {
            ParsedArgument::Unknown(token) => ParsedArgument::Unknown(token),
            ParsedArgument::Positional(token) => ParsedArgument::Positional(token),
            ParsedArgument::Flag(_) => ParsedArgument::Flag(option),
            ParsedArgument::SingleValue(_, a) => ParsedArgument::SingleValue(option, a),
            ParsedArgument::SingleValueKeyed(_, a, b) => ParsedArgument::SingleValueKeyed(
                option,
                a,
                b,
            ),
            ParsedArgument::CommaValues(_, a) => ParsedArgument::CommaValues(option, a),
            ParsedArgument::MultipleValues(_, a) => ParsedArgument::MultipleValues(option, a),
            ParsedArgument::MultipleValuesKeyed(_, a, b) => ParsedArgument::MultipleValuesKeyed(
                option,
                a,
                b,
            ),
        }
    }
}

} // verus!
