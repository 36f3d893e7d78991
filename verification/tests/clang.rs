use llvm_option_parser::json::decode_metadata;
use llvm_option_parser::{
    clang_13_options, llvm_13_options, CommandMetadata, CommandOptions, Error, ParsedArgument,
};

fn def(name: &str) -> String {
    format!("{{\"def\": \"{0}\", \"kind\": \"def\", \"printable\": \"{0}\"}}", name)
}

fn record(id: &str, name: &str, kind: &str, prefixes: &[&str], alias: Option<&str>) -> String {
    let prefixes: Vec<String> = prefixes.iter().map(|p| format!("\"{}\"", p)).collect();
    let alias = match alias {
        Some(target) => def(target),
        None => "null".to_string(),
    };
    format!(
        "\"{id}\": {{\"!anonymous\": false, \"!fields\": [], \"!name\": \"{id}\", \
         \"!superclasses\": [\"Option\"], \"Alias\": {alias}, \"Flags\": [{flag}], \
         \"Group\": {group}, \"HelpText\": null, \"Kind\": {kind}, \"Name\": \"{name}\", \
         \"NumArgs\": {num}, \"Prefixes\": [{prefixes}]}}",
        id = id,
        name = name,
        alias = alias,
        flag = def("CC1Option"),
        group = def("f_Group"),
        kind = def(kind),
        num = if kind == "KIND_MULTIARG" { 3 } else { 0 },
        prefixes = prefixes.join(", "),
    )
}

/// An excerpt of the option table of clang, in the form that tablegen dumps.
fn clang_excerpt() -> Vec<u8> {
    let records = vec![
        "\"!instanceof\": {\"Option\": [\"C\", \"CC\"]}".to_string(),
        "\"!tablegen_json_version\": 1".to_string(),
        record("y", "y", "KIND_JOINED", &["-"], None),
        record("W_Joined", "W", "KIND_JOINED", &["-"], None),
        record("CC", "CC", "KIND_FLAG", &["-"], None),
        record("C", "C", "KIND_FLAG", &["-"], None),
        record("D", "D", "KIND_JOINED_OR_SEPARATE", &["-"], None),
        record("I", "I", "KIND_JOINED_OR_SEPARATE", &["-"], None),
        record("pthread", "pthread", "KIND_FLAG", &["-"], None),
        record("fvisibility_EQ", "fvisibility=", "KIND_JOINED", &["-"], None),
        record("target", "target=", "KIND_JOINED", &["--"], None),
        record("target_legacy_spelling", "target", "KIND_SEPARATE", &["-"], Some("target")),
        record("z", "z", "KIND_SEPARATE", &["-"], None),
        record("sectcreate", "sectcreate", "KIND_MULTIARG", &["-"], None),
        record("Xarch__", "Xarch_", "KIND_JOINED_AND_SEPARATE", &["-"], None),
        record("Wa_COMMA", "Wa,", "KIND_COMMAJOINED", &["-"], None),
        record("_SLASH_c", "c", "KIND_FLAG", &["/", "-"], None),
        record("_SLASH_link", "link", "KIND_REMAINING_ARGS_JOINED", &["/", "-"], None),
        record("_DASH_DASH", "", "KIND_REMAINING_ARGS", &["--"], None),
        record("INPUT", "<input>", "KIND_INPUT", &[], None),
        "\"f_Group\": {\"!name\": \"f_Group\", \"!superclasses\": [\"OptionGroup\"], \
         \"Name\": \"<f group>\", \"Flags\": []}"
            .to_string(),
        "\"KIND_FLAG\": {\"!name\": \"KIND_FLAG\", \"!superclasses\": [\"OptionKind\"], \
         \"Name\": \"Flag\", \"Precedence\": 0}"
            .to_string(),
    ];
    format!("{{{}}}", records.join(",\n")).into_bytes()
}

fn table() -> Vec<CommandMetadata> {
    vec![CommandMetadata {
        command: "clang".to_string(),
        records: decode_metadata(&clang_excerpt()).unwrap(),
    }]
}

fn tokens(args: &[&str]) -> Vec<Vec<u8>> {
    args.iter().map(|a| a.as_bytes().to_vec()).collect()
}

#[test]
fn parse_all() {
    let table = table();
    for entry in &table {
        let options = llvm_13_options(&table, &entry.command).unwrap();
        options.options_by_group();
        options.options_by_flag();
    }
    assert!(llvm_13_options(&table, "lld").is_none());
}

#[test]
fn clang_13() -> Result<(), Error> {
    let options = clang_13_options(&table());

    assert_eq!(options.options[0].option_name, "C");
    assert_eq!(options.options[1].option_name, "CC");
    assert_eq!(options.options.last().unwrap().option_name, "y");

    Ok(())
}

#[test]
fn clang_excerpt_is_in_catalog_order() {
    let options = clang_13_options(&table());
    let names: Vec<&str> = options.iter_options().map(|o| o.option_name.as_str()).collect();
    assert_eq!(
        names,
        vec![
            "C",
            "CC",
            "_SLASH_c",
            "pthread",
            "sectcreate",
            "target_legacy_spelling",
            "z",
            "fvisibility_EQ",
            "target",
            "Xarch__",
            "_SLASH_link",
            "Wa_COMMA",
            "D",
            "I",
            "W_Joined",
            "y",
        ]
    );
}

#[test]
fn every_definition_of_the_excerpt_has_a_prefix_and_a_name() {
    let options = CommandOptions::from_json(&clang_excerpt()).unwrap();
    assert_eq!(options.options.len(), 16);
    for option in &options.options {
        assert!(!option.prefixes.is_empty());
        assert!(!option.name.is_empty());
    }
    // The marker without prefixes and the option without a name are no
    // definitions of the catalog.
    assert!(options.find_option(&"INPUT".to_string()).is_none());
    assert!(options.find_option(&"_DASH_DASH".to_string()).is_none());
}

#[test]
fn from_json_gives_the_same_catalog_as_the_table() {
    let direct = CommandOptions::from_json(&clang_excerpt()).unwrap();
    let through = clang_13_options(&table());
    assert_eq!(direct.options, through.options);
}

#[test]
fn parse_arg_flavors() -> Result<(), Error> {
    let options = clang_13_options(&table());

    // Positional argument.
    let args = options.parse_arguments(tokens(&["clang"]))?;
    assert_eq!(args.parsed().len(), 1);
    assert_eq!(args.parsed()[0], ParsedArgument::Positional(b"clang".to_vec()));

    // A flag argument with a single dash.
    let args = options.parse_arguments(tokens(&["-pthread"]))?;
    assert_eq!(args.parsed().len(), 1);
    assert_eq!(args.parsed()[0].name(), Some("pthread"));

    // Joined with a single dash.
    let args = options.parse_arguments(tokens(&["-Wno-unused-result"]))?;
    assert_eq!(args.parsed().len(), 1);
    assert_eq!(args.parsed()[0].name(), Some("W_Joined"));
    assert!(matches!(args.parsed()[0], ParsedArgument::SingleValue(_, _)));
    assert_eq!(args.parsed()[0].values(), vec![&b"no-unused-result"[..]]);

    // Joined with equals value.
    let args = options.parse_arguments(tokens(&["-fvisibility=hidden"]))?;
    assert_eq!(args.parsed().len(), 1);
    assert_eq!(args.parsed()[0].name(), Some("fvisibility_EQ"));
    assert!(matches!(args.parsed()[0], ParsedArgument::SingleValue(_, _)));
    assert_eq!(args.parsed()[0].values(), vec![&b"hidden"[..]]);

    // Joined or separate joined flavor.
    let args = options.parse_arguments(tokens(&["-DDEBUG"]))?;
    assert_eq!(args.parsed().len(), 1);
    assert_eq!(args.parsed()[0].name(), Some("D"));
    assert!(matches!(args.parsed()[0], ParsedArgument::SingleValue(_, _)));
    assert_eq!(args.parsed()[0].values(), vec![&b"DEBUG"[..]]);

    // Joined or separate separate flavor.
    let args = options.parse_arguments(tokens(&["-D", "DEBUG"]))?;
    assert_eq!(args.parsed().len(), 1);
    assert_eq!(args.parsed()[0].name(), Some("D"));
    assert!(matches!(args.parsed()[0], ParsedArgument::SingleValue(_, _)));
    assert_eq!(args.parsed()[0].values(), vec![&b"DEBUG"[..]]);

    // Separate.
    let args = options.parse_arguments(tokens(&["-target", "value"]))?;
    assert_eq!(args.parsed().len(), 1);
    assert_eq!(args.parsed()[0].name(), Some("target_legacy_spelling"));
    assert!(matches!(args.parsed()[0], ParsedArgument::SingleValue(_, _)));
    assert_eq!(args.parsed()[0].values(), vec![&b"value"[..]]);
    // -target is an alias. Check that it resolves.
    let args = args.resolve_aliases(&options)?;
    assert_eq!(args.parsed().len(), 1);
    assert_eq!(args.parsed()[0].name(), Some("target"));
    assert!(matches!(args.parsed()[0], ParsedArgument::SingleValue(_, _)));
    assert_eq!(args.parsed()[0].values(), vec![&b"value"[..]]);

    Ok(())
}

#[test]
fn missing_value_names_the_option() {
    let options = clang_13_options(&table());
    match options.parse_arguments(tokens(&["-target"])) {
        Err(Error::ParseNoArgumentValue(name)) => assert_eq!(name, "target_legacy_spelling"),
        other => panic!("unexpected outcome: {:?}", other),
    }
}

#[test]
fn multi_arg_shortfall_reports_both_counts() {
    let options = clang_13_options(&table());
    match options.parse_arguments(tokens(&["-sectcreate", "a", "b"])) {
        Err(Error::ParseMultipleValuesMissing(name, expected, got)) => {
            assert_eq!(name, "sectcreate");
            assert_eq!(expected, 3);
            assert_eq!(got, 2);
        }
        other => panic!("unexpected outcome: {:?}", other),
    }
    let args = options.parse_arguments(tokens(&["-sectcreate", "a", "b", "c", "rest"])).unwrap();
    assert_eq!(args.parsed().len(), 2);
    assert_eq!(args.parsed()[0].values(), vec![&b"a"[..], &b"b"[..], &b"c"[..]]);
    assert_eq!(args.parsed()[1], ParsedArgument::Positional(b"rest".to_vec()));
}

#[test]
fn malformed_json_is_reported() {
    assert!(matches!(CommandOptions::from_json(b"{\"a\": "), Err(Error::Json(_))));
    match CommandOptions::from_json(b"[1, 2]") {
        Err(Error::JsonParse(what)) => assert_eq!(what, "JSON input should be an Object"),
        other => panic!("unexpected outcome: {:?}", other),
    }
}

#[test]
fn wrong_shapes_fail_the_load() {
    let kind_as_text = b"{\"a\": {\"!name\": \"a\", \"!superclasses\": [\"Option\"], \
        \"Name\": \"a\", \"Kind\": \"KIND_FLAG\", \"Prefixes\": [\"-\"], \"Flags\": []}}";
    match CommandOptions::from_json(kind_as_text) {
        Err(Error::JsonParse(what)) => assert_eq!(what, ".Kind has the wrong shape"),
        other => panic!("unexpected outcome: {:?}", other),
    }
    let name_as_number = b"{\"a\": {\"!name\": \"a\", \"!superclasses\": [\"Option\"], \
        \"Name\": 5, \"Kind\": {\"def\": \"KIND_FLAG\"}, \"Prefixes\": [\"-\"], \"Flags\": []}}";
    match CommandOptions::from_json(name_as_number) {
        Err(Error::JsonParse(what)) => assert_eq!(what, ".Name has the wrong shape"),
        other => panic!("unexpected outcome: {:?}", other),
    }
    let count_negative = b"{\"a\": {\"!name\": \"a\", \"!superclasses\": [\"Option\"], \
        \"Name\": \"a\", \"Kind\": {\"def\": \"KIND_MULTIARG\"}, \"NumArgs\": -1, \
        \"Prefixes\": [\"-\"], \"Flags\": []}}";
    match CommandOptions::from_json(count_negative) {
        Err(Error::JsonParse(what)) => assert_eq!(what, ".NumArgs has the wrong shape"),
        other => panic!("unexpected outcome: {:?}", other),
    }
}

#[test]
fn records_that_are_no_options_are_passed_over() {
    let data = b"{\"!x\": 5, \"\": {\"!superclasses\": [\"Option\"]}, \"n\": 7, \
        \"g\": {\"!name\": \"g\", \"!superclasses\": [\"OptionGroup\"], \"Name\": 3}, \
        \"e\": {\"!name\": \"e\", \"!superclasses\": [\"Option\"], \"Name\": \"\"}, \
        \"m\": {\"!name\": \"m\", \"!superclasses\": [\"Option\", 1], \"Name\": \"m\"}}";
    let options = CommandOptions::from_json(data).unwrap();
    assert!(options.options.is_empty());
}

#[test]
fn decoded_records_keep_what_the_document_says() {
    let records = decode_metadata(&clang_excerpt()).unwrap();
    let target = records.iter().find(|r| r.key == "target_legacy_spelling").unwrap();
    assert_eq!(target.raw_name, llvm_option_parser::Field::Present("target_legacy_spelling".to_string()));
    assert_eq!(target.alias, llvm_option_parser::Field::Present("target".to_string()));
    assert_eq!(target.kind, llvm_option_parser::Field::Present("KIND_SEPARATE".to_string()));
    assert_eq!(target.num_args, llvm_option_parser::Field::Present(0));
    assert_eq!(target.prefixes, llvm_option_parser::Field::Present(vec!["-".to_string()]));
    assert_eq!(target.flags, llvm_option_parser::Field::Present(vec!["CC1Option".to_string()]));
    assert_eq!(target.group, llvm_option_parser::Field::Present("f_Group".to_string()));
    let c = records.iter().find(|r| r.key == "C").unwrap();
    assert_eq!(c.alias, llvm_option_parser::Field::Missing);
    let version = records.iter().find(|r| r.key == "!tablegen_json_version").unwrap();
    assert_eq!(version.name, llvm_option_parser::Field::Missing);
}
