use llvm_option_parser::ordering::sort_definitions;
use llvm_option_parser::{
    ArgumentPrefix, CommandOptions, Error, Field, OptionKind, OptionRecord, ProgramOption,
};

fn record(id: &str, name: &str, kind: &str) -> OptionRecord {
    OptionRecord {
        key: id.to_string(),
        raw_name: Field::Present(id.to_string()),
        super_classes: Field::Present(vec!["Option".to_string()]),
        name: Field::Present(name.to_string()),
        kind: Field::Present(kind.to_string()),
        num_args: Field::Missing,
        prefixes: Field::Present(vec!["-".to_string()]),
        alias: Field::Missing,
        flags: Field::Present(vec![]),
        group: Field::Missing,
    }
}

fn names(options: &CommandOptions) -> Vec<&str> {
    options.options.iter().map(|o| o.option_name.as_str()).collect()
}

fn parse_failure(record: OptionRecord) -> String {
    match CommandOptions::from_records(&vec![record]) {
        Err(Error::JsonParse(what)) => what,
        other => panic!("unexpected outcome: {:?}", other),
    }
}

#[test]
fn a_record_becomes_a_definition() {
    let mut full = record("target_legacy_spelling", "target", "KIND_SEPARATE");
    full.prefixes = Field::Present(vec!["-".to_string(), "--".to_string()]);
    full.alias = Field::Present("target".to_string());
    full.flags = Field::Present(vec!["CoreOption".to_string(), "NoXarchOption".to_string()]);
    full.group = Field::Present("CompileOnly_Group".to_string());
    let options = CommandOptions::from_records(&vec![full]).unwrap();
    assert_eq!(
        options.options,
        vec![ProgramOption {
            option_name: "target_legacy_spelling".to_string(),
            name: "target".to_string(),
            kind: OptionKind::Separate,
            prefixes: vec![ArgumentPrefix::SingleDash, ArgumentPrefix::DoubleDash],
            alias: Some("target".to_string()),
            flags: vec!["CoreOption".to_string(), "NoXarchOption".to_string()],
            group: Some("CompileOnly_Group".to_string()),
        }]
    );
}

#[test]
fn every_kind_tag_is_understood() {
    let tags = [
        ("KIND_FLAG", OptionKind::Flag),
        ("KIND_JOINED", OptionKind::Joined),
        ("KIND_SEPARATE", OptionKind::Separate),
        ("KIND_COMMAJOINED", OptionKind::CommaJoined),
        ("KIND_JOINED_OR_SEPARATE", OptionKind::JoinedOrSeparate),
        ("KIND_JOINED_AND_SEPARATE", OptionKind::JoinedAndSeparate),
        ("KIND_REMAINING_ARGS", OptionKind::RemainingArgs),
        ("KIND_REMAINING_ARGS_JOINED", OptionKind::RemainingArgsJoined),
        ("KIND_INPUT", OptionKind::Input),
        ("KIND_UNKNOWN", OptionKind::Unknown),
    ];
    for (tag, kind) in tags {
        assert_eq!(record("a", "a", tag).option_kind().unwrap(), kind);
    }
    let mut multi = record("a", "a", "KIND_MULTIARG");
    multi.num_args = Field::Present(4);
    assert_eq!(multi.option_kind().unwrap(), OptionKind::MultiArg(4));
    assert_eq!(multi.definition().unwrap().kind, OptionKind::MultiArg(4));
}

#[test]
fn what_an_option_lacks_fails_the_load() {
    let mut r = record("a", "a", "KIND_FLAG");
    r.kind = Field::Missing;
    assert_eq!(parse_failure(r), ".Kind not present");

    let mut r = record("a", "a", "KIND_FLAG");
    r.kind = Field::Malformed;
    assert_eq!(parse_failure(r), ".Kind has the wrong shape");

    assert_eq!(
        parse_failure(record("a", "a", "KIND_NEW")),
        "option kind KIND_NEW not recognized (please report this bug)"
    );

    assert_eq!(
        parse_failure(record("a", "a", "KIND_MULTIARG")),
        "NumArgs should be present when .Kind is present"
    );

    let mut r = record("a", "a", "KIND_MULTIARG");
    r.num_args = Field::Malformed;
    assert_eq!(parse_failure(r), ".NumArgs has the wrong shape");

    let mut r = record("a", "a", "KIND_FLAG");
    r.raw_name = Field::Missing;
    assert_eq!(parse_failure(r), "!name should be present");

    let mut r = record("a", "a", "KIND_FLAG");
    r.raw_name = Field::Malformed;
    assert_eq!(parse_failure(r), "!name has the wrong shape");

    let mut r = record("a", "a", "KIND_FLAG");
    r.name = Field::Missing;
    assert_eq!(parse_failure(r), ".Name should be present");

    let mut r = record("a", "a", "KIND_FLAG");
    r.name = Field::Malformed;
    assert_eq!(parse_failure(r), ".Name has the wrong shape");

    let mut r = record("a", "a", "KIND_FLAG");
    r.prefixes = Field::Missing;
    assert_eq!(parse_failure(r), ".Prefixes should be present");

    let mut r = record("a", "a", "KIND_FLAG");
    r.prefixes = Field::Malformed;
    assert_eq!(parse_failure(r), ".Prefixes has the wrong shape");

    let mut r = record("a", "a", "KIND_FLAG");
    r.alias = Field::Malformed;
    assert_eq!(parse_failure(r), ".Alias has the wrong shape");

    let mut r = record("a", "a", "KIND_FLAG");
    r.flags = Field::Missing;
    assert_eq!(parse_failure(r), ".Flags should be present");

    let mut r = record("a", "a", "KIND_FLAG");
    r.flags = Field::Malformed;
    assert_eq!(parse_failure(r), ".Flags has the wrong shape");

    let mut r = record("a", "a", "KIND_FLAG");
    r.group = Field::Malformed;
    assert_eq!(parse_failure(r), ".Group has the wrong shape");
}

#[test]
fn the_kind_is_looked_at_first() {
    let mut r = record("a", "a", "KIND_NEW");
    r.name = Field::Missing;
    r.prefixes = Field::Missing;
    assert_eq!(
        parse_failure(r),
        "option kind KIND_NEW not recognized (please report this bug)"
    );
    let mut r = record("a", "a", "KIND_FLAG");
    r.name = Field::Missing;
    r.prefixes = Field::Missing;
    assert_eq!(parse_failure(r), ".Name should be present");
}

#[test]
fn an_unknown_prefix_tag_fails_the_load() {
    let mut r = record("a", "a", "KIND_FLAG");
    r.prefixes = Field::Present(vec!["--".to_string(), "+".to_string(), "~".to_string()]);
    match CommandOptions::from_records(&vec![r]) {
        Err(Error::UnrecognizedArgumentPrefix(tag)) => assert_eq!(tag, "+"),
        other => panic!("unexpected outcome: {:?}", other),
    }
}

#[test]
fn the_first_bad_option_is_reported_and_nothing_is_loaded() {
    let good = record("a", "a", "KIND_FLAG");
    let mut first = record("b", "b", "KIND_FLAG");
    first.flags = Field::Missing;
    let mut second = record("c", "c", "KIND_FLAG");
    second.kind = Field::Missing;
    match CommandOptions::from_records(&vec![good, first, second]) {
        Err(Error::JsonParse(what)) => assert_eq!(what, ".Flags should be present"),
        other => panic!("unexpected outcome: {:?}", other),
    }
}

#[test]
fn records_that_are_no_options_do_not_count() {
    let mut marker = record("!x", "x", "KIND_FLAG");
    marker.kind = Field::Missing;
    let mut no_key = record("", "x", "KIND_FLAG");
    no_key.kind = Field::Missing;
    let mut other_class = record("g", "g", "KIND_FLAG");
    other_class.super_classes = Field::Present(vec!["OptionGroup".to_string()]);
    other_class.kind = Field::Malformed;
    let mut no_class = record("n", "n", "KIND_FLAG");
    no_class.super_classes = Field::Missing;
    let mut odd_class = record("o", "o", "KIND_FLAG");
    odd_class.super_classes = Field::Malformed;
    let mut empty_name = record("e", "", "KIND_FLAG");
    empty_name.prefixes = Field::Missing;
    let mut no_prefix = record("p", "<input>", "KIND_INPUT");
    no_prefix.prefixes = Field::Present(vec![]);
    no_prefix.flags = Field::Missing;
    for r in [&marker, &no_key, &other_class, &no_class, &odd_class, &empty_name, &no_prefix] {
        assert!(!r.is_option());
    }
    let kept = record("k", "k", "KIND_FLAG");
    assert!(kept.is_option());
    let mut several = record("s", "s", "KIND_FLAG");
    several.super_classes = Field::Present(vec!["Flag".to_string(), "Option".to_string()]);
    assert!(several.is_option());
    let options = CommandOptions::from_records(&vec![
        marker,
        no_key,
        other_class,
        kept,
        no_class,
        odd_class,
        empty_name,
        no_prefix,
        several,
    ])
    .unwrap();
    assert_eq!(names(&options), vec!["k", "s"]);
}

#[test]
fn whole_token_kinds_come_first_then_longer_names() {
    let mut multi = record("m", "multi", "KIND_MULTIARG");
    multi.num_args = Field::Present(2);
    let records = vec![
        record("W_Joined", "W", "KIND_JOINED"),
        record("b_flag", "b", "KIND_FLAG"),
        record("Wno", "Wno-unused-result", "KIND_JOINED"),
        record("rest", "rest", "KIND_REMAINING_ARGS"),
        record("z_sep", "z", "KIND_SEPARATE"),
        multi,
        record("I", "I", "KIND_JOINED_OR_SEPARATE"),
        record("a_flag", "a", "KIND_FLAG"),
        record("Wa", "Wa,", "KIND_COMMAJOINED"),
    ];
    let options = CommandOptions::from_records(&records).unwrap();
    assert_eq!(
        names(&options),
        vec!["a_flag", "b_flag", "m", "z_sep", "Wno", "rest", "Wa", "I", "W_Joined"]
    );
}

#[test]
fn the_order_of_the_records_does_not_matter() {
    let mut records = vec![
        record("W_Joined", "W", "KIND_JOINED"),
        record("b", "b", "KIND_FLAG"),
        record("Wno", "Wno-unused-result", "KIND_JOINED"),
        record("a", "a", "KIND_FLAG"),
        record("I", "I", "KIND_JOINED_OR_SEPARATE"),
        record("B", "b", "KIND_SEPARATE"),
    ];
    let expected = CommandOptions::from_records(&records).unwrap().options;
    assert_eq!(
        expected.iter().map(|o| o.option_name.as_str()).collect::<Vec<_>>(),
        vec!["B", "a", "b", "Wno", "I", "W_Joined"]
    );
    // every rotation and the reversal
    for _ in 0..records.len() {
        records.rotate_left(1);
        assert_eq!(CommandOptions::from_records(&records).unwrap().options, expected);
    }
    records.reverse();
    assert_eq!(CommandOptions::from_records(&records).unwrap().options, expected);
}

#[test]
fn equal_internal_names_keep_the_order_they_came_in() {
    let first = record("same", "one", "KIND_FLAG");
    let second = record("same", "two", "KIND_FLAG");
    let options = CommandOptions::from_records(&vec![first, second]).unwrap();
    assert_eq!(options.options[0].name, "one");
    assert_eq!(options.options[1].name, "two");
    let first = record("same", "one", "KIND_FLAG");
    let second = record("same", "two", "KIND_FLAG");
    let options = CommandOptions::from_records(&vec![second, first]).unwrap();
    assert_eq!(options.options[0].name, "two");
    assert_eq!(options.options[1].name, "one");
}

#[test]
fn names_are_ordered_by_their_bytes() {
    let records = vec![
        record("b", "x", "KIND_FLAG"),
        record("B", "x", "KIND_FLAG"),
        record("ab", "x", "KIND_FLAG"),
        record("a", "x", "KIND_FLAG"),
        record("\u{e9}", "x", "KIND_FLAG"),
        record("_", "x", "KIND_FLAG"),
    ];
    let options = CommandOptions::from_records(&records).unwrap();
    assert_eq!(names(&options), vec!["B", "_", "a", "ab", "b", "\u{e9}"]);
    // the length of a display name is counted in bytes
    let records = vec![
        record("two_chars", "ab", "KIND_JOINED"),
        record("one_char_two_bytes", "\u{e9}", "KIND_JOINED"),
        record("three", "abc", "KIND_JOINED"),
    ];
    let options = CommandOptions::from_records(&records).unwrap();
    assert_eq!(names(&options), vec!["three", "one_char_two_bytes", "two_chars"]);
}

#[test]
fn sorting_is_what_the_loader_does() {
    let options = CommandOptions::from_records(&vec![
        record("y", "y", "KIND_JOINED"),
        record("C", "C", "KIND_FLAG"),
    ])
    .unwrap();
    let mut reversed = options.options.clone();
    reversed.reverse();
    assert_eq!(sort_definitions(&reversed), options.options);
    assert!(options.options[0].sorts_before(&options.options[1]));
    assert!(!options.options[1].sorts_before(&options.options[0]));
    assert!(!options.options[0].sorts_before(&options.options[0]));
}

#[test]
fn options_by_flag_and_by_group() {
    let mut a = record("a", "a", "KIND_FLAG");
    a.flags = Field::Present(vec!["CC1Option".to_string(), "CoreOption".to_string()]);
    a.group = Field::Present("f_Group".to_string());
    let mut b = record("b", "b", "KIND_FLAG");
    b.flags = Field::Present(vec!["CoreOption".to_string()]);
    let mut c = record("c", "c", "KIND_FLAG");
    c.group = Field::Present("m_Group".to_string());
    let mut d = record("d", "d", "KIND_FLAG");
    d.flags = Field::Present(vec!["CC1Option".to_string(), "CC1Option".to_string()]);
    d.group = Field::Present("f_Group".to_string());
    let options = CommandOptions::from_records(&vec![d, c, b, a]).unwrap();
    assert_eq!(names(&options), vec!["a", "b", "c", "d"]);

    let by_flag: Vec<(&str, Vec<&str>)> = options
        .options_by_flag()
        .into_iter()
        .map(|(flag, list)| (flag, list.into_iter().map(|o| o.option_name.as_str()).collect()))
        .collect();
    assert_eq!(
        by_flag,
        vec![("CC1Option", vec!["a", "d", "d"]), ("CoreOption", vec!["a", "b"])]
    );

    let by_group: Vec<(&str, Vec<&str>)> = options
        .options_by_group()
        .into_iter()
        .map(|(group, list)| (group, list.into_iter().map(|o| o.option_name.as_str()).collect()))
        .collect();
    assert_eq!(by_group, vec![("f_Group", vec!["a", "d"]), ("m_Group", vec!["c"])]);

    let empty = CommandOptions { options: vec![] };
    assert!(empty.options_by_flag().is_empty());
    assert!(empty.options_by_group().is_empty());
    assert_eq!(empty.iter_options().count(), 0);
    assert_eq!(options.iter_options().count(), 4);
}

#[test]
fn find_option_takes_the_first_of_that_name() {
    let options = CommandOptions::from_records(&vec![
        record("same", "one", "KIND_FLAG"),
        record("same", "two", "KIND_FLAG"),
    ])
    .unwrap();
    assert_eq!(options.find_option(&"same".to_string()).unwrap().name, "one");
    assert!(options.find_option(&"other".to_string()).is_none());
}

#[test]
fn a_record_without_prefixes_gives_no_definition() {
    let mut none = record("INPUT", "<input>", "KIND_INPUT");
    none.prefixes = Field::Present(vec![]);
    let some = record("a", "a", "KIND_FLAG");
    let options = CommandOptions::from_records(&vec![none, some]).unwrap();
    assert_eq!(names(&options), vec!["a"]);
    for option in &options.options {
        assert!(!option.prefixes.is_empty());
        assert!(!option.name.is_empty());
    }
    // A missing list of prefixes is still a failure of an option record.
    let mut missing = record("b", "b", "KIND_FLAG");
    missing.prefixes = Field::Missing;
    assert!(missing.is_option());
    assert_eq!(parse_failure(missing), ".Prefixes should be present");
}
