//! Catalogs for named commands, from a table of metadata that the caller
//! supplies.

use crate::catalog::CommandOptions;
use crate::definition::ProgramOptionView;
use crate::error::ErrorView;
use crate::metadata::{load, record_views, OptionRecord, OptionRecordView};
use crate::ordering::is_ordered;
use crate::text::same_text;
use vstd::prelude::*;

verus! {

/// The metadata of one command: its name and the records of its options.
#[derive(Debug)]
pub struct CommandMetadata {
    pub command: String,
    pub records: Vec<OptionRecord>,
}

/// The records that the table holds for a command: those of the first entry,
/// from index `from` on, with that name.
pub open spec fn records_for(table: Seq<CommandMetadata>, command: Seq<char>, from: int) -> Option<
    Seq<OptionRecordView>,
>
    decreases table.len() - from,
{
    if from < 0 || from >= table.len() {
        None
    } else if table[from].command@ == command {
        Some(record_views(table[from].records@))
    } else {
        records_for(table, command, from + 1)
    }
}

/// Whether the table can serve a command: where it holds records for the
/// command, they load.
pub open spec fn serves(table: Seq<CommandMetadata>, command: Seq<char>) -> bool {
    match records_for(table, command, 0) {
        Some(records) => load(records) is Ok,
        None => true,
    }
}

/// The entry of the table for a command.
pub fn find_command<'a>(table: &'a Vec<CommandMetadata>, command: &str) -> (found: Option<
    &'a CommandMetadata,
>)
    ensures
        match found {
            Some(entry) => records_for(table@, command@, 0) == Some(record_views(entry.records@)),
            None => records_for(table@, command@, 0) is None,
        },
{
    let mut i: usize = 0;
    while i < table.len()
        invariant
            i <= table@.len(),
            records_for(table@, command@, 0) == records_for(table@, command@, i as int),
        decreases table@.len() - i,
    {
        if same_text(table[i].command.as_str(), command) {
            return Some(&table[i]);
        }
        i += 1;
    }
    None
}

/// Obtain the catalog for a named command of LLVM version 13.
///
/// Returns `None` where the table holds nothing for the command. The
/// metadata of a command that the table holds must load.
pub fn llvm_13_options(table: &Vec<CommandMetadata>, command: &str) -> (options: Option<
    CommandOptions,
>)
    requires
        serves(table@, command@),
    ensures
        match records_for(table@, command@, 0) {
            Some(records) => options is Some && Ok::<Seq<ProgramOptionView>, ErrorView>(
                options->0@,
            ) == load(records),
            None => options is None,
        },
        options is Some ==> is_ordered(options->0@),
        options is Some ==> forall|i: int|
            0 <= i < options->0@.len() ==> (#[trigger] options->0@[i]).prefixes.len() >= 1
                && options->0@[i].name.len() > 0,
{
    match find_command(table, command) {
        None => None,
        Some(entry) => match CommandOptions::from_records(&entry.records) {
            Ok(options) => Some(options),
            Err(_) => None,
        },
    }
}

/// Obtain the option definitions of Clang version 13. The table must hold
/// the metadata of `clang`, and it must load.
pub fn clang_13_options(table: &Vec<CommandMetadata>) -> (options: CommandOptions)
    requires
        records_for(table@, "clang"@, 0) is Some,
        serves(table@, "clang"@),
    ensures
        Ok::<Seq<ProgramOptionView>, ErrorView>(options@) == load(
            records_for(table@, "clang"@, 0)->0,
        ),
        is_ordered(options@),
        forall|i: int|
            0 <= i < options@.len() ==> (#[trigger] options@[i]).prefixes.len() >= 1
                && options@[i].name.len() > 0,
{
    match llvm_13_options(table, "clang") {
        Some(options) => options,
        None => CommandOptions { options: Vec::new() },
    }
}

} // verus!
