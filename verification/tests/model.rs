use llvm_option_parser::sdk::{
    command_line_tools_sdks_directory, default_xcode_developer_directory, developer_directory_of,
    find_developer_platforms, find_system_xcode_applications, find_xcode_apps, is_xcode_app,
    platform_from_name, platform_from_path, platforms_directory_of, sdks_directory_of,
    COMMAND_LINE_TOOLS_DEFAULT_PATH, XCODE_APP_DEFAULT_PATH, XCODE_APP_RELATIVE_PATH_DEVELOPER,
};
use llvm_option_parser::text::{
    bytes_end_with, bytes_equal, bytes_precede, bytes_start_with, same_text, sorted_texts,
    text_precedes,
};
use llvm_option_parser::{ArgumentPrefix, Error, OptionKind};

#[test]
fn prefixes_read_and_write_their_tags() {
    let all = [
        (ArgumentPrefix::SingleDash, "-"),
        (ArgumentPrefix::DoubleDash, "--"),
        (ArgumentPrefix::SingleDashQuestion, "-?"),
        (ArgumentPrefix::Slash, "/"),
        (ArgumentPrefix::SlashQuestion, "/?"),
    ];
    for (prefix, tag) in all {
        assert_eq!(prefix.as_str(), tag);
        assert_eq!(prefix.to_string(), tag);
        assert_eq!(ArgumentPrefix::from_str(tag).unwrap(), prefix);
    }
    for tag in ["", "?", "---", "-/", "//", "?-", "- ", "\u{2014}", "-\u{e9}", "-?x"] {
        match ArgumentPrefix::from_str(tag) {
            Err(Error::UnrecognizedArgumentPrefix(text)) => assert_eq!(text, tag),
            other => panic!("unexpected outcome: {:?}", other),
        }
    }
}

#[test]
fn with_name_puts_the_prefix_in_front() {
    assert_eq!(ArgumentPrefix::SingleDash.with_name("I"), "-I");
    assert_eq!(ArgumentPrefix::DoubleDash.with_name("target="), "--target=");
    assert_eq!(ArgumentPrefix::SingleDashQuestion.with_name(""), "-?");
    assert_eq!(ArgumentPrefix::Slash.with_name("c"), "/c");
    assert_eq!(ArgumentPrefix::SlashQuestion.with_name("x"), "/?x");
}

#[test]
fn kinds_that_match_with_equals() {
    assert!(OptionKind::Flag.syntax_matches_with_equals());
    assert!(OptionKind::Separate.syntax_matches_with_equals());
    assert!(OptionKind::MultiArg(2).syntax_matches_with_equals());
    for kind in [
        OptionKind::Input,
        OptionKind::Unknown,
        OptionKind::Joined,
        OptionKind::CommaJoined,
        OptionKind::JoinedOrSeparate,
        OptionKind::JoinedAndSeparate,
        OptionKind::RemainingArgs,
        OptionKind::RemainingArgsJoined,
    ] {
        assert!(!kind.syntax_matches_with_equals());
    }
}

#[test]
fn byte_comparisons() {
    assert!(bytes_equal(b"", b""));
    assert!(bytes_equal(b"abc", b"abc"));
    assert!(!bytes_equal(b"abc", b"abd"));
    assert!(!bytes_equal(b"abc", b"ab"));
    assert!(bytes_start_with(b"abc", b""));
    assert!(bytes_start_with(b"abc", b"ab"));
    assert!(bytes_start_with(b"abc", b"abc"));
    assert!(!bytes_start_with(b"abc", b"abcd"));
    assert!(!bytes_start_with(b"abc", b"b"));
    assert!(bytes_precede(b"", b"a"));
    assert!(bytes_precede(b"a", b"ab"));
    assert!(bytes_precede(b"ab", b"b"));
    assert!(bytes_precede(b"a\x7f", b"a\x80"));
    assert!(!bytes_precede(b"", b""));
    assert!(!bytes_precede(b"a", b"a"));
    assert!(!bytes_precede(b"b", b"ab"));
    assert!(!bytes_precede(b"ab", b"a"));
}

#[test]
fn text_comparisons_agree_with_str() {
    let samples = ["", "a", "A", "ab", "b", "\u{e9}", "z", "\u{1F600}", "a\u{e9}", "~"];
    for a in samples {
        for b in samples {
            assert_eq!(same_text(a, b), a == b);
            assert_eq!(text_precedes(a, b), a < b);
        }
    }
}

#[test]
fn default_xcode_developer_directory_depends_on_presence() {
    assert_eq!(
        default_xcode_developer_directory(true),
        Some("/Applications/Xcode.app/Contents/Developer".to_string())
    );
    assert_eq!(default_xcode_developer_directory(false), None);
    assert_eq!(XCODE_APP_DEFAULT_PATH, "/Applications/Xcode.app");
    assert_eq!(XCODE_APP_RELATIVE_PATH_DEVELOPER, "Contents/Developer");
    assert_eq!(COMMAND_LINE_TOOLS_DEFAULT_PATH, "/Library/Developer/CommandLineTools");
}

fn strings(list: &[&str]) -> Vec<String> {
    list.iter().map(|s| s.to_string()).collect()
}

#[test]
fn suffixes_and_sorting() {
    assert!(bytes_end_with(b"Xcode.app", b".app"));
    assert!(bytes_end_with(b"Xcode.app", b""));
    assert!(bytes_end_with(b".app", b".app"));
    assert!(!bytes_end_with(b"app", b".app"));
    assert!(!bytes_end_with(b"Xcode.apps", b".app"));
    assert_eq!(
        sorted_texts(&strings(&["b", "a", "", "ab", "B", "a"])),
        strings(&["", "B", "a", "a", "ab", "b"])
    );
    assert!(sorted_texts(&vec![]).is_empty());
}

#[test]
fn xcode_applications_are_picked_and_sorted() {
    assert!(is_xcode_app("Xcode.app"));
    assert!(is_xcode_app("Xcode_13.2.1.app"));
    assert!(is_xcode_app("Xcode-beta.app"));
    assert!(!is_xcode_app("Xcode"));
    assert!(!is_xcode_app("xcode.app"));
    assert!(!is_xcode_app("Safari.app"));
    assert!(!is_xcode_app("Xcode.app.bak"));
    assert!(!is_xcode_app(".app"));
    let names = strings(&["Xcode_13.app", "Safari.app", "Xcode.app", "Xcode-beta.app", "Xcode"]);
    assert_eq!(
        find_system_xcode_applications(&names),
        strings(&[
            "/Applications/Xcode-beta.app",
            "/Applications/Xcode.app",
            "/Applications/Xcode_13.app",
        ])
    );
    assert_eq!(
        find_xcode_apps("/Users/me/Applications", &strings(&["Xcode.app"])),
        strings(&["/Users/me/Applications/Xcode.app"])
    );
    assert!(find_xcode_apps("/Applications", &vec![]).is_empty());
}

#[test]
fn platforms_are_named_by_their_directories() {
    assert_eq!(platform_from_name("MacOSX.platform"), Some("MacOSX".to_string()));
    assert_eq!(platform_from_name(".platform"), Some("".to_string()));
    assert_eq!(platform_from_name("MacOSX"), None);
    assert_eq!(platform_from_name("MacOSX.sdk"), None);
    assert_eq!(platform_from_name("MacOSX.platform.bak"), None);
    assert_eq!(platform_from_name("Mac.OSX.platform"), None);
    assert_eq!(platform_from_name("MacOSX.platforms"), None);
    assert_eq!(platform_from_name(""), None);
    assert_eq!(
        platform_from_path("/Applications/Xcode.app/Contents/Developer/Platforms/iPhoneOS.platform"),
        Some("iPhoneOS".to_string())
    );
    assert_eq!(platform_from_path("/a/MacOSX.platform/"), Some("MacOSX".to_string()));
    assert_eq!(platform_from_path("/a/MacOSX.platform/SDKs"), None);
    assert_eq!(platform_from_path("/"), None);
    assert_eq!(platform_from_path("/a/.."), None);
    assert_eq!(
        find_developer_platforms(
            "/D",
            &strings(&["WatchOS.platform", "notes.txt", "MacOSX.platform", "x.y.platform"])
        ),
        vec![
            ("WatchOS".to_string(), "/D/Platforms/WatchOS.platform".to_string()),
            ("MacOSX".to_string(), "/D/Platforms/MacOSX.platform".to_string()),
        ]
    );
}

#[test]
fn directories_of_the_layout() {
    assert_eq!(
        developer_directory_of("/Applications/Xcode_13.app"),
        "/Applications/Xcode_13.app/Contents/Developer"
    );
    assert_eq!(platforms_directory_of("/D"), "/D/Platforms");
    assert_eq!(sdks_directory_of("/D/Platforms/MacOSX.platform"), "/D/Platforms/MacOSX.platform/Developer/SDKs");
    assert_eq!(command_line_tools_sdks_directory(), "/Library/Developer/CommandLineTools/SDKs");
}
