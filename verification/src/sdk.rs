//! Where Apple SDKs and developer tools are looked for on a host.
//!
//! The functions here decide which paths count and how they are named;
//! looking at the file system is left to the caller, who hands in the names
//! that a directory holds.

use crate::text::{
    bytes_end_with, bytes_start_with, same_text, sort_texts, sorted_texts, texts,
};
use vstd::prelude::*;
use vstd::string::*;
use vstd::utf8::*;

verus! {

/// Default install path for the Xcode command line tools.
pub const COMMAND_LINE_TOOLS_DEFAULT_PATH: &'static str = "/Library/Developer/CommandLineTools";

/// Default path to Xcode application.
pub const XCODE_APP_DEFAULT_PATH: &'static str = "/Applications/Xcode.app";

/// Relative path under Xcode.app directories defining a `Developer`
/// directory, which contains platforms, toolchains, etc.
pub const XCODE_APP_RELATIVE_PATH_DEVELOPER: &'static str = "Contents/Developer";

/// The path that `Path::join` makes of a base path and a further part.
pub uninterp spec fn joined_path(base: Seq<char>, part: Seq<char>) -> Seq<char>;

/// The final component of a path that `Path::file_name` gives, or `None`
/// where the path has none.
pub uninterp spec fn path_file_name(path: Seq<char>) -> Option<Seq<char>>;

/// Calls `Path::join` on text paths. The contract names the outcome as
/// `joined_path` of the base and the part.
#[verifier::external_body]
fn join_path(base: &str, part: &str) -> (path: String)
    ensures
        path@ == joined_path(base@, part@),
{
    std::path::Path::new(base).join(part).to_string_lossy().into_owned()
}

/// Calls `Path::file_name` on a text path. The contract names the outcome as
/// `path_file_name` of the path.
#[verifier::external_body]
fn file_name_of(path: &str) -> (name: Option<String>)
    ensures
        match name {
            Some(found) => path_file_name(path@) == Some(found@),
            None => path_file_name(path@) is None,
        },
{
    std::path::Path::new(path).file_name().map(|name| name.to_string_lossy().into_owned())
}

/// Obtain the path to the `Developer` directory in the default Xcode app.
///
/// `present` says whether that directory exists on the host. Returns `Some`
/// with the path if it does and `None` if not.
pub fn default_xcode_developer_directory(present: bool) -> (directory: Option<String>)
    ensures
        match directory {
            Some(path) => present && path@ == joined_path(
                XCODE_APP_DEFAULT_PATH@,
                XCODE_APP_RELATIVE_PATH_DEVELOPER@,
            ),
            None => !present,
        },
{
    if present {
        Some(join_path(XCODE_APP_DEFAULT_PATH, XCODE_APP_RELATIVE_PATH_DEVELOPER))
    } else {
        None
    }
}

/// The `Developer` directory of an Xcode application.
pub fn developer_directory_of(application: &str) -> (directory: String)
    ensures
        directory@ == joined_path(application@, XCODE_APP_RELATIVE_PATH_DEVELOPER@),
{
    join_path(application, XCODE_APP_RELATIVE_PATH_DEVELOPER)
}

/// The directory that holds the platforms of a developer directory.
pub fn platforms_directory_of(developer_dir: &str) -> (directory: String)
    ensures
        directory@ == joined_path(developer_dir@, "Platforms"@),
{
    join_path(developer_dir, "Platforms")
}

/// The directory that holds the SDKs of a platform directory.
pub fn sdks_directory_of(platform_dir: &str) -> (directory: String)
    ensures
        directory@ == joined_path(joined_path(platform_dir@, "Developer"@), "SDKs"@),
{
    let developer = join_path(platform_dir, "Developer");
    join_path(developer.as_str(), "SDKs")
}

/// The directory that holds the SDKs of the Xcode command line tools.
pub fn command_line_tools_sdks_directory() -> (directory: String)
    ensures
        directory@ == joined_path(COMMAND_LINE_TOOLS_DEFAULT_PATH@, "SDKs"@),
{
    join_path(COMMAND_LINE_TOOLS_DEFAULT_PATH, "SDKs")
}

/// Whether a file name is that of an Xcode application: it begins with
/// `Xcode` and ends with `.app`.
pub open spec fn is_xcode_app_name(name: Seq<char>) -> bool {
    encode_utf8("Xcode"@).is_prefix_of(encode_utf8(name)) && encode_utf8(".app"@).is_suffix_of(
        encode_utf8(name),
    )
}

/// The paths of the Xcode applications among the first `count` names of a
/// directory, in the order of the names.
pub open spec fn xcode_app_paths(dir: Seq<char>, names: Seq<Seq<char>>, count: int) -> Seq<
    Seq<char>,
>
    decreases count,
{
    if count <= 0 {
        seq![]
    } else {
        let before = xcode_app_paths(dir, names, count - 1);
        if is_xcode_app_name(names[count - 1]) {
            before.push(joined_path(dir, names[count - 1]))
        } else {
            before
        }
    }
}

/// Whether a file name is that of an Xcode application.
pub fn is_xcode_app(name: &str) -> (is: bool)
    ensures
        is == is_xcode_app_name(name@),
{
    let bytes = name.as_bytes();
    bytes_start_with(bytes, "Xcode".as_bytes()) && bytes_end_with(bytes, ".app".as_bytes())
}

/// Resolve the Xcode applications in an `Applications` directory.
///
/// `names` are the file names that the directory holds. The result has the
/// paths of the `Xcode*.app` entries, sorted. No guarantee is made about
/// whether an entry constitutes a working Xcode application.
pub fn find_xcode_apps(applications_dir: &str, names: &Vec<String>) -> (apps: Vec<String>)
    ensures
        texts(apps@) == sort_texts(
            xcode_app_paths(applications_dir@, texts(names@), names@.len() as int),
        ),
{
    let mut found: Vec<String> = Vec::new();
    let mut i: usize = 0;
    while i < names.len()
        invariant
            i <= names@.len(),
            texts(found@) == xcode_app_paths(applications_dir@, texts(names@), i as int),
        decreases names@.len() - i,
    {
        let ghost before = texts(found@);
        assert(texts(names@)[i as int] == names@[i as int]@);
        if is_xcode_app(names[i].as_str()) {
            found.push(join_path(applications_dir, names[i].as_str()));
            assert(texts(found@) =~= before.push(
                joined_path(applications_dir@, names@[i as int]@),
            ));
        }
        i += 1;
    }
    sorted_texts(&found)
}

/// Find all system installed Xcode applications.
///
/// `names` are the file names that `/Applications` holds, which is where
/// Xcode is typically installed.
pub fn find_system_xcode_applications(names: &Vec<String>) -> (apps: Vec<String>)
    ensures
        texts(apps@) == sort_texts(
            xcode_app_paths("/Applications"@, texts(names@), names@.len() as int),
        ),
{
    find_xcode_apps("/Applications", names)
}

/// The index of the first `.` of a name from index `from` on.
pub open spec fn first_dot(name: Seq<char>, from: int) -> Option<int>
    decreases name.len() - from,
{
    if from < 0 || from >= name.len() {
        None
    } else if name[from] == '.' {
        Some(from)
    } else {
        first_dot(name, from + 1)
    }
}

/// The platform that a file name stands for: what is in front of the first
/// `.`, where `platform` and nothing else follows that `.`.
pub open spec fn platform_of_name(name: Seq<char>) -> Option<Seq<char>> {
    match first_dot(name, 0) {
        Some(dot) => if name.subrange(dot + 1, name.len() as int) == "platform"@ {
            Some(name.subrange(0, dot))
        } else {
            None
        },
        None => None,
    }
}

/// The platform that a path stands for, by its final component.
pub open spec fn platform_of_path(path: Seq<char>) -> Option<Seq<char>> {
    match path_file_name(path) {
        Some(name) => platform_of_name(name),
        None => None,
    }
}

/// The platform that a file name stands for.
pub fn platform_from_name(name: &str) -> (platform: Option<String>)
    ensures
        match platform {
            Some(found) => platform_of_name(name@) == Some(found@),
            None => platform_of_name(name@) is None,
        },
{
    let n: usize = name.unicode_len();
    let mut i: usize = 0;
    while i < n
        invariant
            i <= n,
            n == name@.len(),
            first_dot(name@, 0) == first_dot(name@, i as int),
        decreases n - i,
    {
        if name.get_char(i) == '.' {
            let rest = name.substring_char(i + 1, n);
            if same_text(rest, "platform") {
                return Some(name.substring_char(0, i).to_owned());
            } else {
                return None;
            }
        }
        i += 1;
    }
    None
}

/// Attempt to derive the name of a platform from a directory path.
///
/// Returns `Some(platform)` if the directory represents a platform or `None`
/// otherwise.
pub fn platform_from_path(path: &str) -> (platform: Option<String>)
    ensures
        match platform {
            Some(found) => platform_of_path(path@) == Some(found@),
            None => platform_of_path(path@) is None,
        },
{
    match file_name_of(path) {
        Some(name) => platform_from_name(name.as_str()),
        None => None,
    }
}

/// The platforms among the first `count` names of a directory, each with its
/// path, in the order of the names.
pub open spec fn platform_entries(dir: Seq<char>, names: Seq<Seq<char>>, count: int) -> Seq<
    (Seq<char>, Seq<char>),
>
    decreases count,
{
    if count <= 0 {
        seq![]
    } else {
        let before = platform_entries(dir, names, count - 1);
        let path = joined_path(dir, names[count - 1]);
        match platform_of_path(path) {
            Some(platform) => before.push((platform, path)),
            None => before,
        }
    }
}

/// The contents of a list of platforms.
pub open spec fn platform_views(list: Seq<(String, String)>) -> Seq<(Seq<char>, Seq<char>)> {
    list.map_values(|entry: (String, String)| (entry.0@, entry.1@))
}

/// Find "platforms" given a developer directory.
///
/// Platforms are the `*.platform` entries of the `Platforms` directory under
/// the developer directory; `names` are the file names that this directory
/// holds. Returns (platform, path) pairs denoting the platform name and its
/// base directory, in the order of the names.
pub fn find_developer_platforms(developer_dir: &str, names: &Vec<String>) -> (platforms: Vec<
    (String, String),
>)
    ensures
        platform_views(platforms@) == platform_entries(
            joined_path(developer_dir@, "Platforms"@),
            texts(names@),
            names@.len() as int,
        ),
{
    let platforms_path = platforms_directory_of(developer_dir);
    let mut res: Vec<(String, String)> = Vec::new();
    let mut i: usize = 0;
    while i < names.len()
        invariant
            i <= names@.len(),
            platforms_path@ == joined_path(developer_dir@, "Platforms"@),
            platform_views(res@) == platform_entries(platforms_path@, texts(names@), i as int),
        decreases names@.len() - i,
    {
        let ghost before = platform_views(res@);
        assert(texts(names@)[i as int] == names@[i as int]@);
        let path = join_path(platforms_path.as_str(), names[i].as_str());
        match platform_from_path(path.as_str()) {
            Some(platform) => {
                res.push((platform, path));
                assert(platform_views(res@) =~= before.push((platform@, path@)));
            },
            None => {},
        }
        i += 1;
    }
    res
}

} // verus!
