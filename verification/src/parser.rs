//! The argument parser: a state machine over a cursor of raw tokens, driven
//! by a catalog of option definitions.
//!
//! Matching is greedy: the definitions are tried in catalog order and the
//! first one that matches a token decides how many tokens are consumed.

use crate::definition::{ProgramOption, ProgramOptionView};
use crate::error::{Error, ErrorView};
use crate::kind::OptionKind;
use crate::catalog::CommandOptions;
use crate::parsed::{
    argument_views, copy_tokens, token_views, ParsedArgument, ParsedArgumentView, ParsedArguments,
};
use vstd::prelude::*;
use vstd::slice::{slice_subrange, slice_to_vec};

verus! {

/// The byte `-`.
pub const DASH: u8 = 45;

/// The byte `/`.
pub const SLASH: u8 = 47;

/// Whether a token is a positional argument: the lone `-`, the empty token,
/// and every token that begins with neither a dash nor a slash.
pub open spec fn is_positional(token: Seq<u8>) -> bool {
    token == seq![DASH] || token.len() == 0 || (token[0] != DASH && token[0] != SLASH)
}

/// What one parsing step makes of the tokens from a position on: the parsed
/// argument or the failure, and the position of the first token not consumed.
pub struct StepView {
    pub result: Result<ParsedArgumentView, ErrorView>,
    pub next: int,
}

/// The value that follows the token at `pos`, for an option that takes one:
/// the next token, or a missing-value failure that names the option when the
/// input ends at `pos`.
pub open spec fn with_next_value(
    option: ProgramOptionView,
    tokens: Seq<Seq<u8>>,
    pos: int,
    found: spec_fn(Seq<u8>) -> ParsedArgumentView,
) -> StepView {
    if pos + 1 < tokens.len() {
        StepView { result: Ok(found(tokens[pos + 1])), next: pos + 2 }
    } else {
        StepView {
            result: Err(ErrorView::ParseNoArgumentValue(option.option_name)),
            next: tokens.len() as int,
        }
    }
}

/// What a single definition makes of the token at `pos`, or `None` where the
/// token does not match it.
pub open spec fn definition_step(
    option: ProgramOptionView,
    tokens: Seq<Seq<u8>>,
    pos: int,
) -> Option<StepView> {
    let token = tokens[pos];
    let end = tokens.len() as int;
    match option.kind {
        OptionKind::Input => None,
        OptionKind::Unknown => None,
        OptionKind::Flag => if option.matches_exact(token) {
            Some(StepView { result: Ok(ParsedArgumentView::Flag(option)), next: pos + 1 })
        } else {
            None
        },
        OptionKind::Joined => match option.matches_prefix(token) {
            Some(rest) => Some(
                StepView { result: Ok(ParsedArgumentView::SingleValue(option, rest)), next: pos + 1 },
            ),
            None => None,
        },
        OptionKind::CommaJoined => match option.matches_prefix(token) {
            Some(rest) => Some(
                StepView { result: Ok(ParsedArgumentView::CommaValues(option, rest)), next: pos + 1 },
            ),
            None => None,
        },
        OptionKind::Separate => if option.matches_exact(token) {
            Some(
                with_next_value(
                    option,
                    tokens,
                    pos,
                    |value: Seq<u8>| ParsedArgumentView::SingleValue(option, value),
                ),
            )
        } else {
            None
        },
        OptionKind::JoinedOrSeparate => match option.matches_prefix(token) {
            Some(rest) => if rest.len() > 0 {
                Some(
                    StepView {
                        result: Ok(ParsedArgumentView::SingleValue(option, rest)),
                        next: pos + 1,
                    },
                )
            } else {
                Some(
                    with_next_value(
                        option,
                        tokens,
                        pos,
                        |value: Seq<u8>| ParsedArgumentView::SingleValue(option, value),
                    ),
                )
            },
            None => None,
        },
        OptionKind::JoinedAndSeparate => match option.matches_prefix(token) {
            Some(key) => Some(
                with_next_value(
                    option,
                    tokens,
                    pos,
                    |value: Seq<u8>| ParsedArgumentView::SingleValueKeyed(option, key, value),
                ),
            ),
            None => None,
        },
        OptionKind::MultiArg(count) => if option.matches_exact(token) {
            if end - pos - 1 >= count {
                Some(
                    StepView {
                        result: Ok(
                            ParsedArgumentView::MultipleValues(
                                option,
                                tokens.subrange(pos + 1, pos + 1 + count),
                            ),
                        ),
                        next: pos + 1 + count,
                    },
                )
            } else {
                Some(
                    StepView {
                        result: Err(
                            ErrorView::ParseMultipleValuesMissing(
                                option.option_name,
                                count,
                                (end - pos - 1) as usize,
                            ),
                        ),
                        next: end,
                    },
                )
            }
        } else {
            None
        },
        OptionKind::RemainingArgs => if option.matches_exact(token) {
            Some(
                StepView {
                    result: Ok(ParsedArgumentView::MultipleValues(option, tokens.skip(pos + 1))),
                    next: end,
                },
            )
        } else {
            None
        },
        OptionKind::RemainingArgsJoined => match option.matches_prefix(token) {
            Some(key) => Some(
                StepView {
                    result: Ok(
                        ParsedArgumentView::MultipleValuesKeyed(option, key, tokens.skip(pos + 1)),
                    ),
                    next: end,
                },
            ),
            None => None,
        },
    }
}

/// The step that the definitions from index `from` on make of the token at
/// `pos`: that of the first definition that matches, and an unknown argument
/// of one token where none does.
pub open spec fn scan_step(
    catalog: Seq<ProgramOptionView>,
    tokens: Seq<Seq<u8>>,
    pos: int,
    from: int,
) -> StepView
    decreases catalog.len() - from,
{
    if from < 0 || from >= catalog.len() {
        StepView { result: Ok(ParsedArgumentView::Unknown(tokens[pos])), next: pos + 1 }
    } else {
        match definition_step(catalog[from], tokens, pos) {
            Some(step) => step,
            None => scan_step(catalog, tokens, pos, from + 1),
        }
    }
}

/// One step of the parser at position `pos`, which must hold a token.
pub open spec fn parse_step(
    catalog: Seq<ProgramOptionView>,
    tokens: Seq<Seq<u8>>,
    pos: int,
) -> StepView {
    if is_positional(tokens[pos]) {
        StepView { result: Ok(ParsedArgumentView::Positional(tokens[pos])), next: pos + 1 }
    } else {
        scan_step(catalog, tokens, pos, 0)
    }
}

/// A scan of the catalog consumes at least one token and never runs past the
/// end.
pub proof fn lemma_scan_advances(
    catalog: Seq<ProgramOptionView>,
    tokens: Seq<Seq<u8>>,
    pos: int,
    from: int,
)
    requires
        0 <= pos < tokens.len(),
    ensures
        pos < scan_step(catalog, tokens, pos, from).next <= tokens.len(),
    decreases catalog.len() - from,
{
    if 0 <= from < catalog.len() {
        lemma_scan_advances(catalog, tokens, pos, from + 1);
    }
}

/// Every step consumes at least one token and never runs past the end.
pub proof fn lemma_step_advances(catalog: Seq<ProgramOptionView>, tokens: Seq<Seq<u8>>, pos: int)
    requires
        0 <= pos < tokens.len(),
    ensures
        pos < parse_step(catalog, tokens, pos).next <= tokens.len(),
{
    lemma_scan_advances(catalog, tokens, pos, 0);
}

/// The whole parse from position `pos` on: the parsed arguments in the order
/// of their first tokens, or the first failure.
pub open spec fn parse_from(
    catalog: Seq<ProgramOptionView>,
    tokens: Seq<Seq<u8>>,
    pos: int,
) -> Result<Seq<ParsedArgumentView>, ErrorView>
    decreases tokens.len() - pos,
{
    if pos < 0 || pos >= tokens.len() {
        Ok(seq![])
    } else {
        let step = parse_step(catalog, tokens, pos);
        match step.result {
            Err(error) => Err(error),
            Ok(argument) => if step.next <= pos || step.next > tokens.len() {
                Ok(seq![argument])
            } else {
                match parse_from(catalog, tokens, step.next) {
                    Ok(rest) => Ok(seq![argument] + rest),
                    Err(error) => Err(error),
                }
            },
        }
    }
}

/// A cursor over raw argument tokens. Tokens are consumed from left to right
/// and never visited again.
pub struct ArgumentCursor {
    tokens: Vec<Vec<u8>>,
    position: usize,
}

impl ArgumentCursor {
    #[verifier::type_invariant]
    spec fn in_range(&self) -> bool {
        self.position <= self.tokens@.len()
    }

    /// All tokens of the input, consumed or not.
    pub closed spec fn tokens(&self) -> Seq<Seq<u8>> {
        token_views(self.tokens@)
    }

    /// The number of tokens consumed so far.
    pub closed spec fn position(&self) -> int {
        self.position as int
    }

    /// The tokens not consumed yet.
    pub open spec fn remaining(&self) -> Seq<Seq<u8>> {
        self.tokens().skip(self.position())
    }

    /// A cursor in front of the first of the given tokens.
    pub fn new(tokens: Vec<Vec<u8>>) -> (cursor: ArgumentCursor)
        ensures
            cursor.tokens() == token_views(tokens@),
            cursor.position() == 0,
    {
        ArgumentCursor { tokens, position: 0 }
    }

    /// The number of tokens consumed so far.
    pub fn consumed(&self) -> (count: usize)
        ensures
            count == self.position(),
            count <= self.tokens().len(),
    {
        proof {
            use_type_invariant(self);
        }
        self.position
    }

    /// Whether every token has been consumed.
    pub fn is_exhausted(&self) -> (done: bool)
        ensures
            done == (self.position() >= self.tokens().len()),
    {
        proof {
            use_type_invariant(self);
        }
        self.position >= self.tokens.len()
    }

    /// The tokens that are left: those behind the last one that a step
    /// consumed, in their order.
    pub fn unconsumed(&self) -> (rest: &[Vec<u8>])
        ensures
            token_views(rest@) == self.remaining(),
    {
        proof {
            use_type_invariant(self);
        }
        let rest = slice_subrange(self.tokens.as_slice(), self.position, self.tokens.len());
        assert(token_views(rest@) =~= token_views(self.tokens@).skip(self.position as int));
        rest
    }
}

/// The content of the outcome of a step.
pub open spec fn result_view(result: Result<ParsedArgument, Error>) -> Result<
    ParsedArgumentView,
    ErrorView,
> {
    match result {
        Ok(argument) => Ok(argument@),
        Err(error) => Err(error@),
    }
}

/// The outcome of a parsing step: the result and the next position.
pub struct Step {
    pub result: Result<ParsedArgument, Error>,
    pub next: usize,
}

impl View for Step {
    type V = StepView;

    open spec fn view(&self) -> StepView {
        StepView { result: result_view(self.result), next: self.next as int }
    }
}

/// The step for an option that takes the next token as its value.
fn next_value_step(
    definition: &ProgramOption,
    tokens: &Vec<Vec<u8>>,
    pos: usize,
) -> (found: Result<Vec<u8>, Error>)
    requires
        pos < tokens@.len(),
    ensures
        match found {
            Ok(value) => pos + 1 < tokens@.len() && value@ == tokens@[pos + 1]@,
            Err(error) => pos + 1 == tokens@.len() && error@ == ErrorView::ParseNoArgumentValue(
                definition@.option_name,
            ),
        },
{
    let end: usize = tokens.len();
    if pos + 1 < end {
        Ok(slice_to_vec(tokens[pos + 1].as_slice()))
    } else {
        Err(Error::ParseNoArgumentValue(definition.option_name.clone()))
    }
}

/// What a single definition makes of the token at `pos`.
pub fn definition_step_of(
    definition: &ProgramOption,
    tokens: &Vec<Vec<u8>>,
    pos: usize,
) -> (step: Option<Step>)
    requires
        pos < tokens@.len(),
    ensures
        match step {
            Some(step) => definition_step(definition@, token_views(tokens@), pos as int) == Some(
                step@,
            ),
            None => definition_step(definition@, token_views(tokens@), pos as int) is None,
        },
{
    let ghost views = token_views(tokens@);
    let token = tokens[pos].as_slice();
    let end: usize = tokens.len();
    assert(views[pos as int] == token@);
    assert(pos + 1 < end ==> views[pos + 1] == tokens@[pos + 1]@);
    match definition.kind {
        OptionKind::Input => None,
        OptionKind::Unknown => None,
        OptionKind::Flag => {
            if definition.matches_exact(token) {
                Some(Step { result: Ok(ParsedArgument::Flag(definition.clone())), next: pos + 1 })
            } else {
                None
            }
        },
        OptionKind::Joined => {
            match definition.matches_prefix(token) {
                Some(rest) => Some(
                    Step {
                        result: Ok(
                            ParsedArgument::SingleValue(definition.clone(), slice_to_vec(rest)),
                        ),
                        next: pos + 1,
                    },
                ),
                None => None,
            }
        },
        OptionKind::CommaJoined => {
            match definition.matches_prefix(token) {
                Some(rest) => Some(
                    Step {
                        result: Ok(
                            ParsedArgument::CommaValues(definition.clone(), slice_to_vec(rest)),
                        ),
                        next: pos + 1,
                    },
                ),
                None => None,
            }
        },
        OptionKind::Separate => {
            if definition.matches_exact(token) {
                match next_value_step(definition, tokens, pos) {
                    Ok(value) => Some(
                        Step {
                            result: Ok(ParsedArgument::SingleValue(definition.clone(), value)),
                            next: pos + 2,
                        },
                    ),
                    Err(error) => Some(Step { result: Err(error), next: end }),
                }
            } else {
                None
            }
        },
        OptionKind::JoinedOrSeparate => {
            match definition.matches_prefix(token) {
                Some(rest) => {
                    if rest.len() > 0 {
                        Some(
                            Step {
                                result: Ok(
                                    ParsedArgument::SingleValue(
                                        definition.clone(),
                                        slice_to_vec(rest),
                                    ),
                                ),
                                next: pos + 1,
                            },
                        )
                    } else {
                        match next_value_step(definition, tokens, pos) {
                            Ok(value) => Some(
                                Step {
                                    result: Ok(
                                        ParsedArgument::SingleValue(definition.clone(), value),
                                    ),
                                    next: pos + 2,
                                },
                            ),
                            Err(error) => Some(Step { result: Err(error), next: end }),
                        }
                    }
                },
                None => None,
            }
        },
        OptionKind::JoinedAndSeparate => {
            match definition.matches_prefix(token) {
                Some(key) => {
                    match next_value_step(definition, tokens, pos) {
                        Ok(value) => Some(
                            Step {
                                result: Ok(
                                    ParsedArgument::SingleValueKeyed(
                                        definition.clone(),
                                        slice_to_vec(key),
                                        value,
                                    ),
                                ),
                                next: pos + 2,
                            },
                        ),
                        Err(error) => Some(Step { result: Err(error), next: end }),
                    }
                },
                None => None,
            }
        },
        OptionKind::MultiArg(count) => {
            if definition.matches_exact(token) {
                let available: usize = end - pos - 1;
                if available >= count {
                    let values = copy_tokens(tokens, pos + 1, pos + 1 + count);
                    Some(
                        Step {
                            result: Ok(ParsedArgument::MultipleValues(definition.clone(), values)),
                            next: pos + 1 + count,
                        },
                    )
                } else {
                    Some(
                        Step {
                            result: Err(
                                Error::ParseMultipleValuesMissing(
                                    definition.option_name.clone(),
                                    count,
                                    available,
                                ),
                            ),
                            next: end,
                        },
                    )
                }
            } else {
                None
            }
        },
        OptionKind::RemainingArgs => {
            if definition.matches_exact(token) {
                let values = copy_tokens(tokens, pos + 1, end);
                assert(views.skip(pos + 1) =~= views.subrange(pos + 1, end as int));
                Some(
                    Step {
                        result: Ok(ParsedArgument::MultipleValues(definition.clone(), values)),
                        next: end,
                    },
                )
            } else {
                None
            }
        },
        OptionKind::RemainingArgsJoined => {
            match definition.matches_prefix(token) {
                Some(key) => {
                    let values = copy_tokens(tokens, pos + 1, end);
                    assert(views.skip(pos + 1) =~= views.subrange(pos + 1, end as int));
                    Some(
                        Step {
                            result: Ok(
                                ParsedArgument::MultipleValuesKeyed(
                                    definition.clone(),
                                    slice_to_vec(key),
                                    values,
                                ),
                            ),
                            next: end,
                        },
                    )
                },
                None => None,
            }
        },
    }
}

/// The parsed arguments `done` followed by what the rest of a parse gives.
pub open spec fn after(
    done: Seq<ParsedArgumentView>,
    rest: Result<Seq<ParsedArgumentView>, ErrorView>,
) -> Result<Seq<ParsedArgumentView>, ErrorView> {
    match rest {
        Ok(rest) => Ok(done + rest),
        Err(error) => Err(error),
    }
}

impl CommandOptions {
    /// Parse the next argument from a cursor of tokens.
    ///
    /// Returns `Ok(None)` when no token is left, and leaves the cursor as it
    /// is. Otherwise the step is that of [`parse_step`]: `Ok(Some(..))` holds
    /// the parsed argument, `Err` the failure of an option that wanted values
    /// and did not get them, and the cursor moves behind the tokens that the
    /// step consumed.
    pub fn parse_next_argument(&self, cursor: &mut ArgumentCursor) -> (parsed: Result<
        Option<ParsedArgument>,
        Error,
    >)
        ensures
            final(cursor).tokens() == old(cursor).tokens(),
            old(cursor).position() >= old(cursor).tokens().len() ==> (parsed matches Ok(None))
                && final(cursor).position() == old(cursor).position(),
            old(cursor).position() < old(cursor).tokens().len() ==> {
                let step = parse_step(self@, old(cursor).tokens(), old(cursor).position());
                &&& final(cursor).position() == step.next
                &&& match parsed {
                    Ok(Some(argument)) => step.result == Ok::<ParsedArgumentView, ErrorView>(
                        argument@,
                    ),
                    Ok(None) => false,
                    Err(error) => step.result == Err::<ParsedArgumentView, ErrorView>(error@),
                }
            },
    {
        proof {
            use_type_invariant(&*cursor);
        }
        let pos: usize = cursor.position;
        if pos >= cursor.tokens.len() {
            return Ok(None);
        }
        let ghost views = token_views(cursor.tokens@);
        let token = cursor.tokens[pos].as_slice();
        assert(views[pos as int] == token@);
        if token.len() == 0 || (token.len() == 1 && token[0] == DASH) || (token[0] != DASH
            && token[0] != SLASH) {
            assert(token.len() == 1 && token[0] == DASH ==> token@ =~= seq![DASH]);
            assert(is_positional(token@));
            let argument = ParsedArgument::Positional(slice_to_vec(token));
            cursor.position = pos + 1;
            return Ok(Some(argument));
        }
        assert(!is_positional(token@)) by {
            if token@ == seq![DASH] {
                assert(token@.len() == 1);
            }
        }
        let mut i: usize = 0;
        while i < self.options.len()
            invariant
                i <= self.options@.len(),
                pos < cursor.tokens@.len(),
                pos == cursor.position,
                views == token_views(cursor.tokens@),
                views == old(cursor).tokens(),
                pos == old(cursor).position(),
                token@ == views[pos as int],
                !is_positional(token@),
                scan_step(self@, views, pos as int, 0) == scan_step(self@, views, pos as int, i as int),
            decreases self.options@.len() - i,
        {
            assert(self@[i as int] == self.options@[i as int]@);
            match definition_step_of(&self.options[i], &cursor.tokens, pos) {
                Some(step) => {
                    proof {
                        lemma_scan_advances(self@, views, pos as int, i as int);
                    }
                    cursor.position = step.next;
                    return match step.result {
                        Ok(argument) => Ok(Some(argument)),
                        Err(error) => Err(error),
                    };
                },
                None => {},
            }
            i += 1;
        }
        let argument = ParsedArgument::Unknown(slice_to_vec(token));
        cursor.position = pos + 1;
        Ok(Some(argument))
    }

    /// Parse a list of arguments to a series of options.
    ///
    /// The result holds the parsed arguments in the order of their first
    /// tokens. The first failure ends the parse, and nothing of what was
    /// parsed before it is returned.
    pub fn parse_arguments(&self, args: Vec<Vec<u8>>) -> (parsed: Result<ParsedArguments, Error>)
        ensures
            match parse_from(self@, token_views(args@), 0) {
                Ok(arguments) => parsed is Ok && parsed->Ok_0@ == arguments,
                Err(error) => parsed is Err && parsed->Err_0@ == error,
            },
    {
        let ghost tokens = token_views(args@);
        let mut cursor = ArgumentCursor::new(args);
        let mut parsed_args: Vec<ParsedArgument> = Vec::new();
        assert(seq![] + parse_from(self@, tokens, 0)->Ok_0 =~= parse_from(self@, tokens, 0)->Ok_0);
        loop
            invariant
                tokens == token_views(args@),
                cursor.tokens() == tokens,
                0 <= cursor.position() <= tokens.len(),
                parse_from(self@, tokens, 0) == after(
                    argument_views(parsed_args@),
                    parse_from(self@, tokens, cursor.position()),
                ),
            decreases tokens.len() - cursor.position(),
        {
            let ghost pos = cursor.position();
            let ghost done = argument_views(parsed_args@);
            proof {
                if pos < tokens.len() {
                    lemma_step_advances(self@, tokens, pos);
                }
            }
            match self.parse_next_argument(&mut cursor) {
                Err(error) => {
                    assert(pos < tokens.len());
                    assert(parse_from(self@, tokens, pos) == Err::<
                        Seq<ParsedArgumentView>,
                        ErrorView,
                    >(error@));
                    return Err(error);
                },
                Ok(None) => {
                    assert(pos >= tokens.len());
                    assert(parse_from(self@, tokens, pos) == Ok::<
                        Seq<ParsedArgumentView>,
                        ErrorView,
                    >(seq![]));
                    assert(done + seq![] =~= done);
                    return Ok(ParsedArguments::from_parsed(parsed_args));
                },
                Ok(Some(argument)) => {
                    parsed_args.push(argument);
                    proof {
                        let rest = parse_from(self@, tokens, cursor.position());
                        assert(argument_views(parsed_args@) =~= done + seq![argument@]);
                        if rest is Ok {
                            assert(done + (seq![argument@] + rest->Ok_0) =~= (done
                                + seq![argument@]) + rest->Ok_0);
                        }
                    }
                },
            }
        }
    }
}

} // verus!
