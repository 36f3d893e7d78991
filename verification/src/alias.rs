//! Alias resolution: a pass over parsed arguments that puts the canonical
//! definition in the place of each alias.

use crate::catalog::CommandOptions;
use crate::definition::{ProgramOption, ProgramOptionView};
use crate::error::{Error, ErrorView};
use crate::parsed::{argument_views, ParsedArgument, ParsedArgumentView, ParsedArguments};
use crate::parser::after;
use vstd::prelude::*;

verus! {

/// The first definition of the catalog, from index `from` on, whose internal
/// name is `name`.
pub open spec fn find_option(
    catalog: Seq<ProgramOptionView>,
    name: Seq<char>,
    from: int,
) -> Option<ProgramOptionView>
    decreases catalog.len() - from,
{
    if from < 0 || from >= catalog.len() {
        None
    } else if catalog[from].option_name == name {
        Some(catalog[from])
    } else {
        find_option(catalog, name, from + 1)
    }
}

/// One parsed argument with its alias resolved by one level.
///
/// An argument without a definition, or whose definition names no alias
/// target, stays as it is. Otherwise the target takes the definition's place
/// and the payload stays; a target that the catalog lacks is a failure that
/// names the alias and the target.
pub open spec fn resolve_argument(
    catalog: Seq<ProgramOptionView>,
    argument: ParsedArgumentView,
) -> Result<ParsedArgumentView, ErrorView> {
    match argument.option() {
        None => Ok(argument),
        Some(option) => match option.alias {
            None => Ok(argument),
            Some(target) => match find_option(catalog, target, 0) {
                Some(canonical) => Ok(argument.with_option(canonical)),
                None => Err(ErrorView::AliasMissing(option.option_name, target)),
            },
        },
    }
}

/// The arguments from index `from` on with their aliases resolved, or the
/// failure of the first one that cannot be resolved.
pub open spec fn resolve_from(
    catalog: Seq<ProgramOptionView>,
    arguments: Seq<ParsedArgumentView>,
    from: int,
) -> Result<Seq<ParsedArgumentView>, ErrorView>
    decreases arguments.len() - from,
{
    if from < 0 || from >= arguments.len() {
        Ok(seq![])
    } else {
        match resolve_argument(catalog, arguments[from]) {
            Err(error) => Err(error),
            Ok(resolved) => after(seq![resolved], resolve_from(catalog, arguments, from + 1)),
        }
    }
}

impl CommandOptions {
    /// The first definition with the given internal name.
    pub fn find_option(&self, name: &String) -> (found: Option<&ProgramOption>)
        ensures
            match found {
                Some(option) => find_option(self@, name@, 0) == Some(option@),
                None => find_option(self@, name@, 0) is None,
            },
    {
        let mut i: usize = 0;
        while i < self.options.len()
            invariant
                i <= self.options@.len(),
                find_option(self@, name@, 0) == find_option(self@, name@, i as int),
            decreases self.options@.len() - i,
        {
            assert(self@[i as int] == self.options@[i as int]@);
            if self.options[i].option_name == *name {
                return Some(&self.options[i]);
            }
            i += 1;
        }
        None
    }
}

/// One parsed argument with its alias resolved by one level.
pub fn resolve_argument_of(argument: &ParsedArgument, options: &CommandOptions) -> (resolved:
    Result<ParsedArgument, Error>)
    ensures
        match resolve_argument(options@, argument@) {
            Ok(view) => resolved is Ok && resolved->Ok_0@ == view,
            Err(error) => resolved is Err && resolved->Err_0@ == error,
        },
{
    match argument.option() {
        None => Ok(argument.clone()),
        Some(option) => match &option.alias {
            None => Ok(argument.clone()),
            Some(target) => match options.find_option(target) {
                Some(canonical) => Ok(argument.clone().with_option(canonical.clone())),
                None => Err(Error::AliasMissing(option.option_name.clone(), target.clone())),
            },
        },
    }
}

impl ParsedArguments {
    /// Resolve aliases to their canonical options.
    ///
    /// Every argument whose definition is an alias gets the definition of the
    /// alias target, looked up in `options` by internal name, with its values
    /// and keys unchanged. Resolution goes one level deep. The first alias
    /// whose target is missing fails the whole pass.
    pub fn resolve_aliases(self, options: &CommandOptions) -> (resolved: Result<
        ParsedArguments,
        Error,
    >)
        ensures
            match resolve_from(options@, self@, 0) {
                Ok(arguments) => resolved is Ok && resolved->Ok_0@ == arguments,
                Err(error) => resolved is Err && resolved->Err_0@ == error,
            },
    {
        let ghost all = self@;
        let arguments = self.into_parsed();
        let mut parsed: Vec<ParsedArgument> = Vec::new();
        let mut i: usize = 0;
        assert(seq![] + resolve_from(options@, all, 0)->Ok_0 =~= resolve_from(options@, all, 0)->Ok_0);
        while i < arguments.len()
            invariant
                i <= arguments@.len(),
                all == self@,
                all == argument_views(arguments@),
                resolve_from(options@, all, 0) == after(
                    argument_views(parsed@),
                    resolve_from(options@, all, i as int),
                ),
            decreases arguments@.len() - i,
        {
            let ghost done = argument_views(parsed@);
            assert(all[i as int] == arguments@[i as int]@);
            match resolve_argument_of(&arguments[i], options) {
                Err(error) => {
                    return Err(error);
                },
                Ok(argument) => {
                    parsed.push(argument);
                    proof {
                        let rest = resolve_from(options@, all, i + 1);
                        assert(argument_views(parsed@) =~= done + seq![argument@]);
                        if rest is Ok {
                            assert(done + (seq![argument@] + rest->Ok_0) =~= (done
                                + seq![argument@]) + rest->Ok_0);
                        }
                    }
                },
            }
            i += 1;
        }
        assert(argument_views(parsed@) + seq![] =~= argument_views(parsed@));
        Ok(ParsedArguments::from_parsed(parsed))
    }
}

} // verus!
