//! The records the organizer stores: rules, watched folders, the action
//! history and the settings, and the text form in which a rule's
//! extensions are stored.

use vstd::prelude::*;
use vstd::string::*;
use crate::clock::Timestamp;
use crate::text::{join_strings, join_with, lowercase, split_on, split_str, to_lowercase, trim, trim_str};

verus! {

/// A sorting rule: which files it takes (extensions and an optional
/// regular expression on the file name) and where it sends them.
#[derive(Debug)]
pub struct Rule {
    pub id: Option<i64>,
    pub name: String,
    pub priority: i32,
    pub enabled: bool,
    pub extensions: Vec<String>,
    pub pattern: Option<String>,
    pub destination: String,
    /// "move", "rename", "delete" or "ignore".
    pub action: String,
    pub folder_id: i64,
}

/// A rule as plain values.
#[verifier::ext_equal]
pub struct RuleView {
    pub id: Option<i64>,
    pub name: Seq<char>,
    pub priority: i32,
    pub enabled: bool,
    pub extensions: Seq<Seq<char>>,
    pub pattern: Option<Seq<char>>,
    pub destination: Seq<char>,
    pub action: Seq<char>,
    pub folder_id: i64,
}

impl View for Rule {
    type V = RuleView;

    open spec fn view(&self) -> RuleView {
        RuleView {
            id: self.id,
            name: self.name@,
            priority: self.priority,
            enabled: self.enabled,
            extensions: self.extensions.deep_view(),
            pattern: self.pattern.deep_view(),
            destination: self.destination@,
            action: self.action@,
            folder_id: self.folder_id,
        }
    }
}

/// A folder the watcher observes.
#[derive(Debug)]
pub struct WatchedFolder {
    pub id: Option<i64>,
    pub path: String,
    pub enabled: bool,
    /// "silent" or "suggest".
    pub mode: String,
}

/// One entry of the action history.
#[derive(Debug)]
pub struct ActionLog {
    pub id: Option<i64>,
    pub timestamp: Timestamp,
    pub source_path: String,
    pub destination_path: Option<String>,
    pub action: String,
    pub file_name: String,
    pub file_type: String,
    pub undone: bool,
}

/// The application settings.
#[derive(Debug)]
pub struct AppSettings {
    pub id: Option<i64>,
    pub language: String,
    pub theme: String,
    pub telemetry_enabled: bool,
    pub first_run: bool,
}

/// The comma the stored form puts between extensions.
pub open spec fn comma() -> Seq<char> {
    seq![',']
}

/// The stored text of an extension list: the extensions joined by commas.
pub open spec fn extensions_text(exts: Seq<Seq<char>>) -> Seq<char> {
    join_with(exts, comma())
}

/// One stored extension as it is read back: trimmed, then lowercased.
pub open spec fn normalize_extension(e: Seq<char>) -> Seq<char> {
    lowercase(trim(e))
}

/// The extension list read back from its stored text: the text split at
/// every comma, each piece normalized.
pub open spec fn parsed_extensions(s: Seq<char>) -> Seq<Seq<char>> {
    split_on(s, ',').map_values(|p: Seq<char>| normalize_extension(p))
}

/// Writes an extension list in its stored form.
pub fn join_extensions(exts: &Vec<String>) -> (res: String)
    ensures
        res@ == extensions_text(exts.deep_view()),
{
    proof {
        reveal_strlit(",");
        assert(","@ =~= comma());
    }
    join_strings(exts, ",")
}

/// Reads an extension list from its stored form.
pub fn parse_extensions(s: &str) -> (res: Vec<String>)
    ensures
        res.deep_view() == parsed_extensions(s@),
{
    let pieces = split_str(s, ',');
    let mut out: Vec<String> = Vec::new();
    let n = pieces.len();
    let mut i: usize = 0;
    while i < n
        invariant
            n == pieces.len(),
            pieces.deep_view() == split_on(s@, ','),
            i <= n,
            out.deep_view() =~= split_on(s@, ',').take(i as int).map_values(
                |p: Seq<char>| normalize_extension(p),
            ),
        decreases n - i,
    {
        let piece = trim_str(pieces[i].as_str());
        let lowered = to_lowercase(piece);
        let ghost before = out.deep_view();
        out.push(lowered);
        proof {
            assert(out.deep_view() =~= before.push(lowered@));
            assert(split_on(s@, ',').take(i + 1) =~= split_on(s@, ',').take(i as int).push(
                pieces.deep_view()[i as int],
            ));
        }
        i = i + 1;
    }
    assert(split_on(s@, ',').take(n as int) =~= split_on(s@, ','));
    out
}

/// A default rule for a folder: enabled, no pattern, moving matching files
/// into `folder + "/" + dir`.
pub open spec fn default_rule_view(
    folder: Seq<char>,
    name: Seq<char>,
    priority: i32,
    extensions: Seq<Seq<char>>,
    dir: Seq<char>,
) -> RuleView {
    RuleView {
        id: None,
        name,
        priority,
        enabled: true,
        extensions,
        pattern: None,
        destination: folder + seq!['/'] + dir,
        action: "move"@,
        folder_id: 0,
    }
}

/// The views of a list of string literals.
pub open spec fn literal_views(items: Seq<&str>) -> Seq<Seq<char>> {
    items.map_values(|s: &str| s@)
}

/// The rules installed for a folder on first run, in priority order:
/// images, documents, archives, installers, music, videos, and a
/// catch-all "*" rule.
pub open spec fn default_rules_view(folder: Seq<char>) -> Seq<RuleView> {
    seq![
        default_rule_view(folder, "Images"@, 1, literal_views(seq!["jpg", "jpeg", "png", "gif", "webp", "bmp", "svg", "ico"]), "Images"@),
        default_rule_view(folder, "Documents"@, 2, literal_views(seq!["pdf", "doc", "docx", "xls", "xlsx", "ppt", "pptx", "txt", "rtf", "odt"]), "Documents"@),
        default_rule_view(folder, "Archives"@, 3, literal_views(seq!["zip", "rar", "7z", "tar", "gz", "bz2"]), "Archives"@),
        default_rule_view(folder, "Installers"@, 4, literal_views(seq!["exe", "msi", "msix", "appx"]), "Installers"@),
        default_rule_view(folder, "Music"@, 5, literal_views(seq!["mp3", "wav", "flac", "aac", "ogg", "wma", "m4a"]), "Music"@),
        default_rule_view(folder, "Videos"@, 6, literal_views(seq!["mp4", "avi", "mkv", "mov", "wmv", "flv", "webm"]), "Videos"@),
        default_rule_view(folder, "Others"@, 99, literal_views(seq!["*"]), "Others"@),
    ]
}

fn strings_of(items: &[&str]) -> (res: Vec<String>)
    ensures
        res.deep_view() == literal_views(items@),
{
    let n = items.len();
    let mut out: Vec<String> = Vec::new();
    let mut i: usize = 0;
    while i < n
        invariant
            n == items@.len(),
            i <= n,
            out.deep_view() =~= literal_views(items@.take(i as int)),
        decreases n - i,
    {
        let ghost before = out.deep_view();
        out.push(String::from_str(items[i]));
        assert(out.deep_view() =~= before.push(items@[i as int]@));
        assert(items@.take(i + 1) =~= items@.take(i as int).push(items@[i as int]));
        i = i + 1;
    }
    assert(items@.take(n as int) =~= items@);
    out
}

fn default_rule(folder: &str, name: &str, priority: i32, items: &[&str], dir: &str) -> (res: Rule)
    ensures
        res@ =~= default_rule_view(folder@, name@, priority, literal_views(items@), dir@),
{
    proof {
        reveal_strlit("/");
        assert("/"@ =~= seq!['/']);
    }
    let mut destination = String::from_str(folder);
    destination.append("/");
    destination.append(dir);
    Rule {
        id: None,
        name: String::from_str(name),
        priority,
        enabled: true,
        extensions: strings_of(items),
        pattern: None,
        destination,
        action: String::from_str("move"),
        folder_id: 0,
    }
}

/// The rules installed for a folder on first run.
pub fn default_rules(folder: &str) -> (res: Vec<Rule>)
    ensures
        res.len() == default_rules_view(folder@).len(),
        forall|i: int| 0 <= i < res.len() ==> #[trigger] res@[i]@ == default_rules_view(folder@)[i],
{
    let images = ["jpg", "jpeg", "png", "gif", "webp", "bmp", "svg", "ico"];
    let documents = ["pdf", "doc", "docx", "xls", "xlsx", "ppt", "pptx", "txt", "rtf", "odt"];
    let archives = ["zip", "rar", "7z", "tar", "gz", "bz2"];
    let installers = ["exe", "msi", "msix", "appx"];
    let music = ["mp3", "wav", "flac", "aac", "ogg", "wma", "m4a"];
    let videos = ["mp4", "avi", "mkv", "mov", "wmv", "flv", "webm"];
    let others = ["*"];
    assert(images@ =~= seq!["jpg", "jpeg", "png", "gif", "webp", "bmp", "svg", "ico"]);
    assert(documents@ =~= seq!["pdf", "doc", "docx", "xls", "xlsx", "ppt", "pptx", "txt", "rtf", "odt"]);
    assert(archives@ =~= seq!["zip", "rar", "7z", "tar", "gz", "bz2"]);
    assert(installers@ =~= seq!["exe", "msi", "msix", "appx"]);
    assert(music@ =~= seq!["mp3", "wav", "flac", "aac", "ogg", "wma", "m4a"]);
    assert(videos@ =~= seq!["mp4", "avi", "mkv", "mov", "wmv", "flv", "webm"]);
    assert(others@ =~= seq!["*"]);
    let mut rules: Vec<Rule> = Vec::new();
    rules.push(default_rule(folder, "Images", 1, &images, "Images"));
    rules.push(default_rule(folder, "Documents", 2, &documents, "Documents"));
    rules.push(default_rule(folder, "Archives", 3, &archives, "Archives"));
    rules.push(default_rule(folder, "Installers", 4, &installers, "Installers"));
    rules.push(default_rule(folder, "Music", 5, &music, "Music"));
    rules.push(default_rule(folder, "Videos", 6, &videos, "Videos"));
    rules.push(default_rule(folder, "Others", 99, &others, "Others"));
    rules
}

} // verus!
