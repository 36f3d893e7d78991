//! The definition loader: from raw metadata records to an ordered catalog.
//!
//! A record is what the tablegen metadata says about one candidate option,
//! with each field either missing, of the wrong shape, or present. Records
//! that are no options are passed over; a record that is an option and lacks
//! what an option needs fails the whole load.

use crate::catalog::{option_views, CommandOptions};
use crate::definition::{copy_texts, optional_text, ProgramOption, ProgramOptionView};
use crate::error::{Error, ErrorView};
use crate::kind::OptionKind;
use crate::ordering::{
    is_ordered, lemma_sort_holds_what_list_holds, lemma_sort_is_ordered, sort_definitions,
    sort_options,
};
use crate::prefix::ArgumentPrefix;
use crate::text::{same_text, texts};
use vstd::prelude::*;
use vstd::string::*;

verus! {

/// One field of a metadata record.
#[derive(Debug, PartialEq, Eq)]
pub enum Field<T> {
    /// The record has no such field, or the field is null.
    Missing,
    /// The field is there and does not have the shape that it should have.
    Malformed,
    /// The field with its value.
    Present(T),
}

/// What the metadata says about one candidate option.
#[derive(Debug, PartialEq, Eq)]
pub struct OptionRecord {
    /// The key under which the record stands in the metadata.
    pub key: String,
    /// `!name`: the internal name.
    pub raw_name: Field<String>,
    /// `!superclasses`: the classes that the record belongs to.
    pub super_classes: Field<Vec<String>>,
    /// `Name`: the display name.
    pub name: Field<String>,
    /// `Kind`: the tag of the option kind.
    pub kind: Field<String>,
    /// `NumArgs`: the number of values of a multi-value option.
    pub num_args: Field<usize>,
    /// `Prefixes`: the tags of the prefixes.
    pub prefixes: Field<Vec<String>>,
    /// `Alias`: the internal name of the alias target.
    pub alias: Field<String>,
    /// `Flags`: the feature tags.
    pub flags: Field<Vec<String>>,
    /// `Group`: the category.
    pub group: Field<String>,
}

/// The mathematical content of an [`OptionRecord`].
pub struct OptionRecordView {
    pub key: Seq<char>,
    pub raw_name: Field<Seq<char>>,
    pub super_classes: Field<Seq<Seq<char>>>,
    pub name: Field<Seq<char>>,
    pub kind: Field<Seq<char>>,
    pub num_args: Field<usize>,
    pub prefixes: Field<Seq<Seq<char>>>,
    pub alias: Field<Seq<char>>,
    pub flags: Field<Seq<Seq<char>>>,
    pub group: Field<Seq<char>>,
}

/// The content of a text field.
pub open spec fn text_field(field: Field<String>) -> Field<Seq<char>> {
    match field {
        Field::Missing => Field::Missing,
        Field::Malformed => Field::Malformed,
        Field::Present(text) => Field::Present(text@),
    }
}

/// The content of a field that holds a list of texts.
pub open spec fn texts_field(field: Field<Vec<String>>) -> Field<Seq<Seq<char>>> {
    match field {
        Field::Missing => Field::Missing,
        Field::Malformed => Field::Malformed,
        Field::Present(list) => Field::Present(texts(list@)),
    }
}

impl View for OptionRecord {
    type V = OptionRecordView;

    open spec fn view(&self) -> OptionRecordView {
        OptionRecordView {
            key: self.key@,
            raw_name: text_field(self.raw_name),
            super_classes: texts_field(self.super_classes),
            name: text_field(self.name),
            kind: text_field(self.kind),
            num_args: self.num_args,
            prefixes: texts_field(self.prefixes),
            alias: text_field(self.alias),
            flags: texts_field(self.flags),
            group: text_field(self.group),
        }
    }
}

/// The contents of a list of records.
pub open spec fn record_views(records: Seq<OptionRecord>) -> Seq<OptionRecordView> {
    records.map_values(|record: OptionRecord| record@)
}

/// A shape failure with the two parts of its message.
pub open spec fn shape_error(what: Seq<char>, problem: Seq<char>) -> ErrorView {
    ErrorView::JsonParse(what + problem)
}

/// The value of a field that an option must have. A missing field fails with
/// the message `missing`, a malformed one with the field's name `what`
/// followed by ` has the wrong shape`.
pub open spec fn required<T>(field: Field<T>, missing: Seq<char>, what: Seq<char>) -> Result<
    T,
    ErrorView,
> {
    match field {
        Field::Present(value) => Ok(value),
        Field::Missing => Err(ErrorView::JsonParse(missing)),
        Field::Malformed => Err(shape_error(what, " has the wrong shape"@)),
    }
}

/// The value of a field that an option may have.
pub open spec fn optional<T>(field: Field<T>, what: Seq<char>) -> Result<Option<T>, ErrorView> {
    match field {
        Field::Present(value) => Ok(Some(value)),
        Field::Missing => Ok(None),
        Field::Malformed => Err(shape_error(what, " has the wrong shape"@)),
    }
}

/// The kind that a kind tag stands for. `KIND_MULTIARG` takes its count from
/// the `NumArgs` field, which must then be there. A tag outside the
/// vocabulary is a failure that quotes it.
pub open spec fn kind_of_tag(tag: Seq<char>, num_args: Field<usize>) -> Result<
    OptionKind,
    ErrorView,
> {
    if tag == "KIND_COMMAJOINED"@ {
        Ok(OptionKind::CommaJoined)
    } else if tag == "KIND_INPUT"@ {
        Ok(OptionKind::Input)
    } else if tag == "KIND_JOINED"@ {
        Ok(OptionKind::Joined)
    } else if tag == "KIND_JOINED_AND_SEPARATE"@ {
        Ok(OptionKind::JoinedAndSeparate)
    } else if tag == "KIND_JOINED_OR_SEPARATE"@ {
        Ok(OptionKind::JoinedOrSeparate)
    } else if tag == "KIND_FLAG"@ {
        Ok(OptionKind::Flag)
    } else if tag == "KIND_MULTIARG"@ {
        match required(num_args, "NumArgs should be present when .Kind is present"@, ".NumArgs"@) {
            Ok(count) => Ok(OptionKind::MultiArg(count)),
            Err(error) => Err(error),
        }
    } else if tag == "KIND_REMAINING_ARGS"@ {
        Ok(OptionKind::RemainingArgs)
    } else if tag == "KIND_REMAINING_ARGS_JOINED"@ {
        Ok(OptionKind::RemainingArgsJoined)
    } else if tag == "KIND_SEPARATE"@ {
        Ok(OptionKind::Separate)
    } else if tag == "KIND_UNKNOWN"@ {
        Ok(OptionKind::Unknown)
    } else {
        Err(
            ErrorView::JsonParse(
                "option kind "@ + tag + " not recognized (please report this bug)"@,
            ),
        )
    }
}

/// The prefixes that the tags from index `from` on stand for, or the failure
/// of the first tag that is no prefix.
pub open spec fn prefixes_of_tags(tags: Seq<Seq<char>>, from: int) -> Result<
    Seq<ArgumentPrefix>,
    ErrorView,
>
    decreases tags.len() - from,
{
    if from < 0 || from >= tags.len() {
        Ok(seq![])
    } else {
        match ArgumentPrefix::of_tag(tags[from]) {
            None => Err(ErrorView::UnrecognizedArgumentPrefix(tags[from])),
            Some(prefix) => match prefixes_of_tags(tags, from + 1) {
                Ok(rest) => Ok(seq![prefix] + rest),
                Err(error) => Err(error),
            },
        }
    }
}

impl OptionRecordView {
    /// Whether the record counts as an option: its key is not empty and does
    /// not begin with the marker `!`, its classes are a list of texts that
    /// holds `Option`, its display name is not the empty text, and its list
    /// of prefixes is not the empty list. A record without a spelling can
    /// match no token; the metadata uses such records as markers.
    pub open spec fn is_option(self) -> bool {
        &&& self.key.len() > 0
        &&& self.key[0] != '!'
        &&& self.super_classes matches Field::Present(classes)
        &&& classes.contains("Option"@)
        &&& self.name != Field::Present(Seq::<char>::empty())
        &&& self.prefixes != Field::Present(Seq::<Seq<char>>::empty())
    }

    /// The kind of the option.
    pub open spec fn option_kind(self) -> Result<OptionKind, ErrorView> {
        match required(self.kind, ".Kind not present"@, ".Kind"@) {
            Ok(tag) => kind_of_tag(tag, self.num_args),
            Err(error) => Err(error),
        }
    }

    /// The definition that the record gives, or the first thing that is wrong
    /// with it, in this order: kind, internal name, display name, prefixes,
    /// alias, flags, group.
    pub open spec fn definition(self) -> Result<ProgramOptionView, ErrorView> {
        match self.option_kind() {
            Err(error) => Err(error),
            Ok(kind) => match required(self.raw_name, "!name should be present"@, "!name"@) {
                Err(error) => Err(error),
                Ok(option_name) => match required(
                    self.name,
                    ".Name should be present"@,
                    ".Name"@,
                ) {
                    Err(error) => Err(error),
                    Ok(name) => match required(
                        self.prefixes,
                        ".Prefixes should be present"@,
                        ".Prefixes"@,
                    ) {
                        Err(error) => Err(error),
                        Ok(tags) => match prefixes_of_tags(tags, 0) {
                            Err(error) => Err(error),
                            Ok(prefixes) => match optional(self.alias, ".Alias"@) {
                                Err(error) => Err(error),
                                Ok(alias) => match required(
                                    self.flags,
                                    ".Flags should be present"@,
                                    ".Flags"@,
                                ) {
                                    Err(error) => Err(error),
                                    Ok(flags) => match optional(self.group, ".Group"@) {
                                        Err(error) => Err(error),
                                        Ok(group) => Ok(
                                            ProgramOptionView {
                                                option_name,
                                                name,
                                                kind,
                                                prefixes,
                                                alias,
                                                flags,
                                                group,
                                            },
                                        ),
                                    },
                                },
                            },
                        },
                    },
                },
            },
        }
    }
}

/// The definitions of the records from index `from` on that are options, in
/// the order of the records, or the failure of the first such record that
/// gives no definition.
pub open spec fn definitions_from(records: Seq<OptionRecordView>, from: int) -> Result<
    Seq<ProgramOptionView>,
    ErrorView,
>
    decreases records.len() - from,
{
    if from < 0 || from >= records.len() {
        Ok(seq![])
    } else if !records[from].is_option() {
        definitions_from(records, from + 1)
    } else {
        match records[from].definition() {
            Err(error) => Err(error),
            Ok(option) => match definitions_from(records, from + 1) {
                Ok(rest) => Ok(seq![option] + rest),
                Err(error) => Err(error),
            },
        }
    }
}

/// The catalog that a list of records gives: the definitions of the records
/// that are options, sorted into catalog order, or the first failure.
pub open spec fn load(records: Seq<OptionRecordView>) -> Result<
    Seq<ProgramOptionView>,
    ErrorView,
> {
    match definitions_from(records, 0) {
        Ok(list) => Ok(sort_options(list)),
        Err(error) => Err(error),
    }
}

/// Each tag that is read gives one prefix.
pub proof fn lemma_prefixes_len(tags: Seq<Seq<char>>, from: int)
    requires
        0 <= from <= tags.len(),
        prefixes_of_tags(tags, from) is Ok,
    ensures
        prefixes_of_tags(tags, from)->Ok_0.len() == tags.len() - from,
    decreases tags.len() - from,
{
    if from < tags.len() {
        lemma_prefixes_len(tags, from + 1);
    }
}

/// The definition of a record that counts as an option has at least one
/// prefix and a display name that is not empty.
pub proof fn lemma_definition_well_formed(record: OptionRecordView)
    requires
        record.is_option(),
        record.definition() is Ok,
    ensures
        record.definition()->Ok_0.is_well_formed(),
{
    let tags = record.prefixes->Present_0;
    lemma_prefixes_len(tags, 0);
    assert(tags.len() > 0) by {
        if tags.len() == 0 {
            assert(tags =~= Seq::<Seq<char>>::empty());
        }
    }
    let name = record.name->Present_0;
    assert(name.len() > 0) by {
        if name.len() == 0 {
            assert(name =~= Seq::<char>::empty());
        }
    }
}

/// Every definition that a list of records gives has at least one prefix and
/// a display name that is not empty.
pub proof fn lemma_definitions_well_formed(records: Seq<OptionRecordView>, from: int)
    requires
        0 <= from <= records.len(),
        definitions_from(records, from) is Ok,
    ensures
        forall|i: int|
            0 <= i < definitions_from(records, from)->Ok_0.len() ==> (
            #[trigger] definitions_from(records, from)->Ok_0[i]).is_well_formed(),
    decreases records.len() - from,
{
    if from < records.len() {
        lemma_definitions_well_formed(records, from + 1);
        if records[from].is_option() {
            lemma_definition_well_formed(records[from]);
        }
    }
}

/// Every definition of a catalog that was loaded has at least one prefix and
/// a display name that is not empty.
pub proof fn lemma_load_well_formed(records: Seq<OptionRecordView>)
    requires
        load(records) is Ok,
    ensures
        forall|i: int|
            0 <= i < load(records)->Ok_0.len() ==> (#[trigger] load(
                records,
            )->Ok_0[i]).is_well_formed(),
{
    let list = definitions_from(records, 0)->Ok_0;
    lemma_definitions_well_formed(records, 0);
    assert forall|i: int| 0 <= i < sort_options(list).len() implies (#[trigger] sort_options(
        list,
    )[i]).is_well_formed() by {
        lemma_sort_holds_what_list_holds(list, i);
        let j = choose|j: int| 0 <= j < list.len() && list[j] == sort_options(list)[i];
        assert(list[j].is_well_formed());
    }
}

/// A shape failure for the field `what`.
fn wrong_shape(what: &str) -> (error: Error)
    ensures
        error@ == shape_error(what@, " has the wrong shape"@),
{
    let mut message = String::from_str(what);
    message.append(" has the wrong shape");
    Error::JsonParse(message)
}

/// The text of a field that an option must have.
fn required_text<'a>(field: &'a Field<String>, missing: &str, what: &str) -> (value: Result<
    &'a String,
    Error,
>)
    ensures
        match required(text_field(*field), missing@, what@) {
            Ok(text) => value is Ok && value->Ok_0@ == text,
            Err(error) => value is Err && value->Err_0@ == error,
        },
{
    match field {
        Field::Present(text) => Ok(text),
        Field::Missing => Err(Error::JsonParse(String::from_str(missing))),
        Field::Malformed => Err(wrong_shape(what)),
    }
}

/// The texts of a field that an option must have.
fn required_texts<'a>(field: &'a Field<Vec<String>>, missing: &str, what: &str) -> (value: Result<
    &'a Vec<String>,
    Error,
>)
    ensures
        match required(texts_field(*field), missing@, what@) {
            Ok(list) => value is Ok && texts(value->Ok_0@) == list,
            Err(error) => value is Err && value->Err_0@ == error,
        },
{
    match field {
        Field::Present(list) => Ok(list),
        Field::Missing => Err(Error::JsonParse(String::from_str(missing))),
        Field::Malformed => Err(wrong_shape(what)),
    }
}

/// The text of a field that an option may have.
fn optional_field(field: &Field<String>, what: &str) -> (value: Result<Option<String>, Error>)
    ensures
        match optional(text_field(*field), what@) {
            Ok(text) => value is Ok && optional_text(value->Ok_0) == text,
            Err(error) => value is Err && value->Err_0@ == error,
        },
{
    match field {
        Field::Present(text) => Ok(Some(text.clone())),
        Field::Missing => Ok(None),
        Field::Malformed => Err(wrong_shape(what)),
    }
}

/// Whether a list of texts holds the given text.
fn holds_text(list: &Vec<String>, text: &str) -> (holds: bool)
    ensures
        holds == texts(list@).contains(text@),
{
    let mut i: usize = 0;
    while i < list.len()
        invariant
            i <= list@.len(),
            forall|j: int| 0 <= j < i ==> texts(list@)[j] != text@,
        decreases list@.len() - i,
    {
        if same_text(list[i].as_str(), text) {
            assert(texts(list@)[i as int] == text@);
            return true;
        }
        i += 1;
    }
    false
}

/// Reads the prefix tags of a record.
pub fn parse_prefixes(tags: &Vec<String>) -> (prefixes: Result<Vec<ArgumentPrefix>, Error>)
    ensures
        match prefixes_of_tags(texts(tags@), 0) {
            Ok(list) => prefixes is Ok && prefixes->Ok_0@ == list,
            Err(error) => prefixes is Err && prefixes->Err_0@ == error,
        },
{
    let ghost all = texts(tags@);
    let mut prefixes: Vec<ArgumentPrefix> = Vec::new();
    let mut i: usize = 0;
    assert(seq![] + prefixes_of_tags(all, 0)->Ok_0 =~= prefixes_of_tags(all, 0)->Ok_0);
    while i < tags.len()
        invariant
            i <= tags@.len(),
            all == texts(tags@),
            match prefixes_of_tags(all, i as int) {
                Ok(rest) => prefixes_of_tags(all, 0) == Ok::<Seq<ArgumentPrefix>, ErrorView>(
                    prefixes@ + rest,
                ),
                Err(error) => prefixes_of_tags(all, 0) == Err::<Seq<ArgumentPrefix>, ErrorView>(
                    error,
                ),
            },
        decreases tags@.len() - i,
    {
        assert(all[i as int] == tags@[i as int]@);
        match ArgumentPrefix::from_str(tags[i].as_str()) {
            Err(error) => {
                return Err(error);
            },
            Ok(prefix) => {
                let ghost done = prefixes@;
                prefixes.push(prefix);
                proof {
                    let rest = prefixes_of_tags(all, i + 1);
                    if rest is Ok {
                        assert(done + (seq![prefix] + rest->Ok_0) =~= prefixes@ + rest->Ok_0);
                    }
                }
            },
        }
        i += 1;
    }
    assert(prefixes@ + seq![] =~= prefixes@);
    Ok(prefixes)
}

impl OptionRecord {
    /// Whether the record counts as an option.
    pub fn is_option(&self) -> (is: bool)
        ensures
            is == self@.is_option(),
    {
        if self.key.as_str().is_empty() {
            return false;
        }
        if self.key.as_str().get_char(0) == '!' {
            return false;
        }
        let declared = match &self.super_classes {
            Field::Present(classes) => holds_text(classes, "Option"),
            _ => false,
        };
        if !declared {
            return false;
        }
        let named = match &self.name {
            Field::Present(name) => {
                let empty = name.as_str().is_empty();
                assert(empty == (name@ =~= Seq::<char>::empty()));
                !empty
            },
            _ => true,
        };
        if !named {
            return false;
        }
        match &self.prefixes {
            Field::Present(tags) => {
                let none = tags.len() == 0;
                assert(none == (texts(tags@) =~= Seq::<Seq<char>>::empty()));
                !none
            },
            _ => true,
        }
    }

    /// The kind of the option that the record defines.
    pub fn option_kind(&self) -> (kind: Result<OptionKind, Error>)
        ensures
            match self@.option_kind() {
                Ok(view) => kind == Ok::<OptionKind, Error>(view),
                Err(error) => kind is Err && kind->Err_0@ == error,
            },
    {
        let tag = match required_text(&self.kind, ".Kind not present", ".Kind") {
            Ok(tag) => tag.as_str(),
            Err(error) => {
                return Err(error);
            },
        };
        if same_text(tag, "KIND_COMMAJOINED") {
            Ok(OptionKind::CommaJoined)
        } else if same_text(tag, "KIND_INPUT") {
            Ok(OptionKind::Input)
        } else if same_text(tag, "KIND_JOINED") {
            Ok(OptionKind::Joined)
        } else if same_text(tag, "KIND_JOINED_AND_SEPARATE") {
            Ok(OptionKind::JoinedAndSeparate)
        } else if same_text(tag, "KIND_JOINED_OR_SEPARATE") {
            Ok(OptionKind::JoinedOrSeparate)
        } else if same_text(tag, "KIND_FLAG") {
            Ok(OptionKind::Flag)
        } else if same_text(tag, "KIND_MULTIARG") {
            match self.num_args {
                Field::Present(count) => Ok(OptionKind::MultiArg(count)),
                Field::Missing => Err(
                    Error::JsonParse(
                        String::from_str("NumArgs should be present when .Kind is present"),
                    ),
                ),
                Field::Malformed => Err(wrong_shape(".NumArgs")),
            }
        } else if same_text(tag, "KIND_REMAINING_ARGS") {
            Ok(OptionKind::RemainingArgs)
        } else if same_text(tag, "KIND_REMAINING_ARGS_JOINED") {
            Ok(OptionKind::RemainingArgsJoined)
        } else if same_text(tag, "KIND_SEPARATE") {
            Ok(OptionKind::Separate)
        } else if same_text(tag, "KIND_UNKNOWN") {
            Ok(OptionKind::Unknown)
        } else {
            let mut message = String::from_str("option kind ");
            message.append(tag);
            message.append(" not recognized (please report this bug)");
            Err(Error::JsonParse(message))
        }
    }

    /// The definition that the record gives.
    pub fn definition(&self) -> (option: Result<ProgramOption, Error>)
        ensures
            match self@.definition() {
                Ok(view) => option is Ok && option->Ok_0@ == view,
                Err(error) => option is Err && option->Err_0@ == error,
            },
    {
        let kind = match self.option_kind() {
            Ok(kind) => kind,
            Err(error) => {
                return Err(error);
            },
        };
        let option_name = match required_text(&self.raw_name, "!name should be present", "!name") {
            Ok(text) => text.clone(),
            Err(error) => {
                return Err(error);
            },
        };
        let name = match required_text(&self.name, ".Name should be present", ".Name") {
            Ok(text) => text.clone(),
            Err(error) => {
                return Err(error);
            },
        };
        let tags = match required_texts(
            &self.prefixes,
            ".Prefixes should be present",
            ".Prefixes",
        ) {
            Ok(tags) => tags,
            Err(error) => {
                return Err(error);
            },
        };
        let prefixes = match parse_prefixes(tags) {
            Ok(prefixes) => prefixes,
            Err(error) => {
                return Err(error);
            },
        };
        let alias = match optional_field(&self.alias, ".Alias") {
            Ok(alias) => alias,
            Err(error) => {
                return Err(error);
            },
        };
        let flags = match required_texts(&self.flags, ".Flags should be present", ".Flags") {
            Ok(flags) => copy_texts(flags),
            Err(error) => {
                return Err(error);
            },
        };
        let group = match optional_field(&self.group, ".Group") {
            Ok(group) => group,
            Err(error) => {
                return Err(error);
            },
        };
        Ok(ProgramOption { option_name, name, kind, prefixes, alias, flags, group })
    }
}

impl CommandOptions {
    /// Builds the catalog from metadata records.
    ///
    /// Records that are no options are passed over. Each other record must
    /// give a definition; the first one that does not fails the load, and no
    /// partial catalog is returned. The definitions are then sorted into
    /// catalog order. Every definition of the catalog has at least one prefix
    /// and a display name that is not empty.
    pub fn from_records(records: &Vec<OptionRecord>) -> (catalog: Result<CommandOptions, Error>)
        ensures
            match load(record_views(records@)) {
                Ok(options) => catalog is Ok && catalog->Ok_0@ == options,
                Err(error) => catalog is Err && catalog->Err_0@ == error,
            },
            catalog is Ok ==> is_ordered(catalog->Ok_0@),
            catalog is Ok ==> forall|i: int|
                0 <= i < catalog->Ok_0@.len() ==> (#[trigger] catalog->Ok_0@[i]).prefixes.len() >= 1
                    && catalog->Ok_0@[i].name.len() > 0,
    {
        let ghost all = record_views(records@);
        let mut options: Vec<ProgramOption> = Vec::new();
        let mut i: usize = 0;
        assert(seq![] + definitions_from(all, 0)->Ok_0 =~= definitions_from(all, 0)->Ok_0);
        while i < records.len()
            invariant
                i <= records@.len(),
                all == record_views(records@),
                match definitions_from(all, i as int) {
                    Ok(rest) => definitions_from(all, 0) == Ok::<
                        Seq<ProgramOptionView>,
                        ErrorView,
                    >(option_views(options@) + rest),
                    Err(error) => definitions_from(all, 0) == Err::<
                        Seq<ProgramOptionView>,
                        ErrorView,
                    >(error),
                },
            decreases records@.len() - i,
        {
            assert(all[i as int] == records@[i as int]@);
            if records[i].is_option() {
                match records[i].definition() {
                    Err(error) => {
                        return Err(error);
                    },
                    Ok(option) => {
                        let ghost done = option_views(options@);
                        options.push(option);
                        proof {
                            let rest = definitions_from(all, i + 1);
                            assert(option_views(options@) =~= done + seq![option@]);
                            if rest is Ok {
                                assert(done + (seq![option@] + rest->Ok_0) =~= option_views(
                                    options@,
                                ) + rest->Ok_0);
                            }
                        }
                    },
                }
            }
            i += 1;
        }
        assert(option_views(options@) + seq![] =~= option_views(options@));
        proof {
            lemma_sort_is_ordered(option_views(options@));
            lemma_load_well_formed(all);
        }
        Ok(CommandOptions { options: sort_definitions(&options) })
    }
}

} // verus!
