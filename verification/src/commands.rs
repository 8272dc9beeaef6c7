//! The computing part of the commands the user interface calls: the
//! greeting, the interface language, the downloads folder, and undo.

use vstd::prelude::*;
use vstd::string::*;
use crate::text::{chars_eq, lowercase, split_on, split_str, to_lowercase, lemma_split_on_nonempty};

verus! {

/// `directories::UserDirs`, the user's standard folders, carried opaquely.
#[verifier::external_type_specification]
#[verifier::external_body]
pub struct ExUserDirs(directories::UserDirs);

/// The greeting for a name.
pub open spec fn greeting(name: Seq<char>) -> Seq<char> {
    "Hello, "@ + name + "! You've been greeted from Rust!"@
}

/// Greets a name.
pub fn greet(name: &str) -> (res: String)
    ensures
        res@ == greeting(name@),
{
    let mut s = String::from_str("Hello, ");
    s.append(name);
    s.append("! You've been greeted from Rust!");
    s
}

/// Whether a language code is one the interface is available in.
pub open spec fn is_supported_language(lang: Seq<char>) -> bool {
    lang == "pl"@ || lang == "it"@ || lang == "de"@ || lang == "fr"@
}

/// The interface language for a language code: the code itself when it is
/// supported, English otherwise.
pub open spec fn language_code(lang: Seq<char>) -> Seq<char> {
    if is_supported_language(lang) {
        lang
    } else {
        "en"@
    }
}

/// The interface language for a system locale such as "pl-PL": the part
/// before the first '-', lowercased; English when there is no locale.
pub open spec fn language_for_locale(locale: Option<Seq<char>>) -> Seq<char> {
    match locale {
        Some(l) => language_code(lowercase(split_on(l, '-')[0])),
        None => "en"@,
    }
}

/// Picks the interface language for a system locale.
pub fn language_from_locale(locale: Option<String>) -> (res: String)
    ensures
        res@ == language_for_locale(locale.deep_view()),
{
    let text = match locale {
        Some(l) => l,
        None => {
            return String::from_str("en");
        },
    };
    let pieces = split_str(text.as_str(), '-');
    proof {
        lemma_split_on_nonempty(text@, '-');
    }
    let lang = to_lowercase(pieces[0].as_str());
    let s = lang.as_str();
    if chars_eq(s, "pl") || chars_eq(s, "it") || chars_eq(s, "de") || chars_eq(s, "fr") {
        lang
    } else {
        String::from_str("en")
    }
}

/// Calls `sys_locale::get_locale`: the system's preferred locale, if it has
/// one. What it returns depends on the system, so nothing is stated of it.
#[verifier::external_body]
fn system_locale() -> (res: Option<String>) {
    sys_locale::get_locale()
}

/// The interface language for the system's locale.
pub fn get_system_language() -> (res: String)
    ensures
        exists|locale: Option<Seq<char>>| res@ == #[trigger] language_for_locale(locale),
{
    let locale = system_locale();
    let res = language_from_locale(locale);
    assert(res@ == language_for_locale(locale.deep_view()));
    res
}

/// Calls `directories::UserDirs::new`: the user's standard folders, if a
/// home folder can be found. This depends on the system; nothing is stated.
#[verifier::external_body]
fn user_dirs() -> (res: Option<directories::UserDirs>) {
    directories::UserDirs::new()
}

/// Calls `UserDirs::download_dir` and writes the path as text
/// (`to_string_lossy`). This depends on the system; nothing is stated.
#[verifier::external_body]
fn user_download_dir(dirs: &directories::UserDirs) -> (res: Option<String>) {
    dirs.download_dir().map(|p| p.to_string_lossy().to_string())
}

/// The folder used when the system names no downloads folder.
pub open spec fn fallback_downloads_folder() -> Seq<char> {
    "C:/Users"@
}

/// The downloads folder: the one found, or the fallback.
pub open spec fn downloads_folder_for(found: Option<Seq<char>>) -> Seq<char> {
    match found {
        Some(f) => f,
        None => fallback_downloads_folder(),
    }
}

/// The downloads folder found, or the fallback.
pub fn downloads_folder_or_default(found: Option<String>) -> (res: String)
    ensures
        res@ == downloads_folder_for(found.deep_view()),
{
    match found {
        Some(f) => f,
        None => String::from_str("C:/Users"),
    }
}

/// The user's downloads folder, or the fallback when there is none.
pub fn get_downloads_folder() -> (res: String)
    ensures
        exists|found: Option<Seq<char>>| res@ == #[trigger] downloads_folder_for(found),
{
    let found = match user_dirs() {
        Some(dirs) => user_download_dir(&dirs),
        None => None,
    };
    let res = downloads_folder_or_default(found);
    assert(res@ == downloads_folder_for(found.deep_view()));
    res
}

/// What undoing a history entry comes to.
#[derive(Debug)]
pub struct UndoPlan {
    /// Move the file from the first path back to the second.
    pub restore: Option<(String, String)>,
    /// Mark the entry as undone.
    pub mark_undone: bool,
}

/// Plans the undo of a history entry that is `(source, destination)` when
/// it exists and is not undone yet: the file goes back when the
/// destination is known and still exists, and the entry is marked undone.
/// Nothing happens for a missing entry.
pub fn plan_undo(entry: Option<(String, String)>, destination_exists: bool) -> (res: UndoPlan)
    ensures
        entry is None ==> res.restore is None && !res.mark_undone,
        entry matches Some((source, dest)) ==> res.mark_undone && (if dest@.len() > 0
            && destination_exists {
            res.restore matches Some((from, to)) && from@ == dest@ && to@ == source@
        } else {
            res.restore is None
        }),
{
    match entry {
        None => UndoPlan { restore: None, mark_undone: false },
        Some((source, dest)) => {
            if dest.as_str().unicode_len() > 0 && destination_exists {
                UndoPlan { restore: Some((dest, source)), mark_undone: true }
            } else {
                UndoPlan { restore: None, mark_undone: true }
            }
        },
    }
}

} // verus!
