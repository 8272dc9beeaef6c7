//! The rules engine: which rule takes a file, where the file goes, and
//! what is recorded of it.

use vstd::prelude::*;
use vstd::string::*;
use crate::clock::{
    chrono_represents, date_parts, day_text, is_valid_timestamp, month_text, utc_now, year_text,
    Timestamp,
};
use crate::model::{ActionLog, Rule, RuleView};
use crate::pattern::{is_plain_literal, pattern_finds, regex_compiles, regex_finds};
use crate::text::{
    chars_eq, contains_str, i64_to_decimal, lemma_replace_absent, lowercase, occurs_in, replace_all,
    replace_str, signed_decimal, to_lowercase,
};

verus! {

/// A file seen in a watched folder.
#[derive(Debug)]
pub struct FileInfo {
    pub path: String,
    pub name: String,
    /// The extension, lowercased ("" when the file has none).
    pub extension: String,
    pub size: u64,
}

/// A file as plain values.
pub struct FileInfoView {
    pub path: Seq<char>,
    pub name: Seq<char>,
    pub extension: Seq<char>,
    pub size: u64,
}

impl View for FileInfo {
    type V = FileInfoView;

    open spec fn view(&self) -> FileInfoView {
        FileInfoView {
            path: self.path@,
            name: self.name@,
            extension: self.extension@,
            size: self.size,
        }
    }
}

/// The position of the last '.' in a file name, or -1 when there is none.
pub open spec fn last_dot(name: Seq<char>) -> int
    decreases name.len(),
{
    if name.len() == 0 {
        -1
    } else if name.last() == '.' {
        name.len() - 1
    } else {
        last_dot(name.drop_last())
    }
}

/// The extension of a file name as `Path::extension` reads it: what follows
/// the last '.', when that '.' is not the first character; otherwise none
/// (here the empty text).
pub open spec fn file_extension(name: Seq<char>) -> Seq<char> {
    if last_dot(name) > 0 {
        name.skip(last_dot(name) + 1)
    } else {
        Seq::empty()
    }
}

/// The stem of a file name as `Path::file_stem` reads it: what precedes the
/// last '.', when that '.' is not the first character; otherwise the whole
/// name.
pub open spec fn file_stem(name: Seq<char>) -> Seq<char> {
    if last_dot(name) > 0 {
        name.take(last_dot(name))
    } else {
        name
    }
}

fn last_dot_index(name: &str) -> (res: usize)
    ensures
        last_dot(name@) > 0 ==> res == last_dot(name@),
        last_dot(name@) <= 0 ==> res == 0,
        res == 0 || res < name@.len(),
{
    let n = name.unicode_len();
    let mut j: usize = n;
    assert(name@.take(n as int) =~= name@);
    while j > 0 && name.get_char(j - 1) != '.'
        invariant
            n == name@.len(),
            j <= n,
            last_dot(name@) == last_dot(name@.take(j as int)),
        decreases j,
    {
        let ghost t = name@.take(j as int);
        assert(t.last() == name@[j - 1]);
        assert(t.drop_last() =~= name@.take(j - 1));
        j = j - 1;
    }
    proof {
        let t = name@.take(j as int);
        if j > 0 {
            assert(t.last() == name@[j - 1]);
        }
    }
    if j > 0 { j - 1 } else { 0 }
}

/// The extension of a file name (see `file_extension`).
pub fn file_extension_of(name: &str) -> (res: &str)
    ensures
        res@ == file_extension(name@),
{
    let i = last_dot_index(name);
    if i > 0 {
        let n = name.unicode_len();
        let res = name.substring_char(i + 1, n);
        assert(res@ =~= name@.skip(i + 1));
        res
    } else {
        let res = name.substring_char(0, 0);
        assert(res@ =~= Seq::<char>::empty());
        res
    }
}

/// The stem of a file name (see `file_stem`).
pub fn file_stem_of(name: &str) -> (res: &str)
    ensures
        res@ == file_stem(name@),
{
    let i = last_dot_index(name);
    if i > 0 {
        let res = name.substring_char(0, i);
        assert(res@ =~= name@.take(i as int));
        res
    } else {
        let n = name.unicode_len();
        let res = name.substring_char(0, n);
        assert(res@ =~= name@);
        res
    }
}

/// Builds the record of a file from its path, its file name (the last
/// component of the path, if it has one) and its size: no record without a
/// file name; otherwise the extension is the name's, lowercased.
pub fn file_info_from_path(path: String, file_name: Option<String>, size: u64) -> (res: Option<FileInfo>)
    ensures
        res is Some <==> file_name is Some,
        res matches Some(f) ==> (file_name matches Some(name) && f.path@ == path@ && f.name@ == name@
            && f.extension@ == lowercase(file_extension(name@)) && f.size == size),
{
    match file_name {
        None => None,
        Some(name) => {
            let extension = to_lowercase(file_extension_of(name.as_str()));
            Some(FileInfo { path, name, extension, size })
        },
    }
}

/// The extension entry that admits every file.
pub open spec fn wildcard() -> Seq<char> {
    seq!['*']
}

/// Whether an extension list admits an extension: it holds "*" or the
/// extension itself.
pub open spec fn extension_listed(exts: Seq<Seq<char>>, ext: Seq<char>) -> bool {
    exts.contains(wildcard()) || exts.contains(ext)
}

/// Whether a rule's pattern admits a file name: no pattern or an empty one
/// admits all; otherwise the pattern must compile and find a match.
pub open spec fn pattern_admits(pattern: Option<Seq<char>>, name: Seq<char>) -> bool {
    match pattern {
        None => true,
        Some(p) => p.len() == 0 || (regex_compiles(p) && regex_finds(p, name)),
    }
}

/// Whether a rule takes a file: it is enabled, lists the file's extension
/// (or "*"), and its pattern admits the file name.
pub open spec fn rule_matches(rule: RuleView, file: FileInfoView) -> bool {
    &&& rule.enabled
    &&& extension_listed(rule.extensions, file.extension)
    &&& pattern_admits(rule.pattern, file.name)
}

/// Whether rule `i` is the first rule of the list that takes the file.
pub open spec fn is_first_match(rules: Seq<Rule>, file: FileInfoView, i: int) -> bool {
    &&& 0 <= i < rules.len()
    &&& rule_matches(rules[i]@, file)
    &&& forall|j: int| 0 <= j < i ==> !rule_matches(#[trigger] rules[j]@, file)
}

/// Whether no rule of the list takes the file.
pub open spec fn no_rule_matches(rules: Seq<Rule>, file: FileInfoView) -> bool {
    forall|j: int| 0 <= j < rules.len() ==> !rule_matches(#[trigger] rules[j]@, file)
}

fn list_contains(list: &Vec<String>, item: &str) -> (res: bool)
    ensures
        res == list.deep_view().contains(item@),
{
    let n = list.len();
    let mut i: usize = 0;
    while i < n
        invariant
            n == list.len(),
            i <= n,
            forall|j: int| 0 <= j < i ==> list.deep_view()[j] != item@,
        decreases n - i,
    {
        if chars_eq(list[i].as_str(), item) {
            assert(list.deep_view()[i as int] == item@);
            return true;
        }
        i = i + 1;
    }
    proof {
        if list.deep_view().contains(item@) {
            let k = choose|k: int| 0 <= k < list.deep_view().len() && list.deep_view()[k] == item@;
            assert(list.deep_view()[k] != item@);
        }
    }
    false
}

/// Whether a rule takes a file.
pub fn matches_rule(file: &FileInfo, rule: &Rule) -> (res: bool)
    ensures
        res == rule_matches(rule@, file@),
        rule@.pattern matches Some(p) ==> (is_plain_literal(p) && p.len() <= 100 ==> res == (
        rule.enabled && extension_listed(rule@.extensions, file.extension@) && occurs_in(p, file.name@))),
{
    if !rule.enabled {
        return false;
    }
    proof {
        reveal_strlit("*");
        assert("*"@ =~= wildcard());
    }
    let ext_matches = list_contains(&rule.extensions, "*")
        || list_contains(&rule.extensions, file.extension.as_str());
    let pattern_matches = match &rule.pattern {
        Some(pattern) => {
            if pattern.as_str().unicode_len() == 0 {
                assert(file.name@.subrange(0int, 0int + pattern@.len()) =~= pattern@);
                true
            } else {
                pattern_finds(pattern.as_str(), file.name.as_str())
            }
        },
        None => true,
    };
    ext_matches && pattern_matches
}

/// The first rule of the list (the list is in priority order) that takes
/// the file; `None` when no rule does.
pub fn find_matching_rule(file: &FileInfo, rules: Vec<Rule>) -> (res: Option<Rule>)
    ensures
        res is None <==> no_rule_matches(rules@, file@),
        res matches Some(r) ==> exists|i: int| is_first_match(rules@, file@, i) && r == rules@[i],
{
    let mut list = rules;
    let ghost all = list@;
    let n = list.len();
    let mut i: usize = 0;
    while i < n
        invariant
            list@ == all,
            all == rules@,
            n == list.len(),
            i <= n,
            forall|j: int| 0 <= j < i ==> !rule_matches(#[trigger] all[j]@, file@),
        decreases n - i,
    {
        if matches_rule(file, &list[i]) {
            let r = list.remove(i);
            assert(r == all[i as int]);
            assert(is_first_match(all, file@, i as int));
            assert(rule_matches(all[i as int]@, file@));
            return Some(r);
        }
        i = i + 1;
    }
    None
}

/// The destination template with its placeholders filled in, in the order
/// "{year}", "{month}", "{day}", "{extension}", "{filename}".
pub open spec fn substituted(
    destination: Seq<char>,
    year: Seq<char>,
    month: Seq<char>,
    day: Seq<char>,
    extension: Seq<char>,
    file_name: Seq<char>,
) -> Seq<char> {
    let a = replace_all(destination, "{year}"@, year);
    let b = replace_all(a, "{month}"@, month);
    let c = replace_all(b, "{day}"@, day);
    let d = replace_all(c, "{extension}"@, extension);
    replace_all(d, "{filename}"@, file_name)
}

/// Fills the placeholders of a destination template with the given date
/// parts and the file's extension and name.
pub fn substitute_placeholders(
    destination: &str,
    year: &str,
    month: &str,
    day: &str,
    extension: &str,
    file_name: &str,
) -> (res: String)
    ensures
        res@ == substituted(destination@, year@, month@, day@, extension@, file_name@),
{
    proof {
        reveal_strlit("{year}");
        reveal_strlit("{month}");
        reveal_strlit("{day}");
        reveal_strlit("{extension}");
        reveal_strlit("{filename}");
    }
    let a = replace_str(destination, "{year}", year);
    let b = replace_str(a.as_str(), "{month}", month);
    let c = replace_str(b.as_str(), "{day}", day);
    let d = replace_str(c.as_str(), "{extension}", extension);
    replace_str(d.as_str(), "{filename}", file_name)
}

/// The destination template of a rule resolved for a file at instant `now`.
pub open spec fn destination_at(destination: Seq<char>, file: FileInfoView, now: Timestamp) -> Seq<char> {
    substituted(destination, year_text(now), month_text(now), day_text(now), file.extension, file.name)
}

/// Resolves a destination template for a file at an instant.
pub fn resolve_destination_at(destination: &str, file: &FileInfo, now: &Timestamp) -> (res: String)
    requires
        is_valid_timestamp(*now),
    ensures
        res@ == destination_at(destination@, file@, *now),
{
    let (year, month, day) = date_parts(now);
    substitute_placeholders(
        destination,
        year.as_str(),
        month.as_str(),
        day.as_str(),
        file.extension.as_str(),
        file.name.as_str(),
    )
}

/// Whether a destination template holds a date placeholder.
pub open spec fn has_date_placeholder(destination: Seq<char>) -> bool {
    occurs_in("{year}"@, destination) || occurs_in("{month}"@, destination) || occurs_in(
        "{day}"@,
        destination,
    )
}

/// A destination template without date placeholders, resolved for a file:
/// "{extension}" and then "{filename}" filled in.
pub open spec fn undated_destination(destination: Seq<char>, extension: Seq<char>, file_name: Seq<char>) -> Seq<char> {
    replace_all(replace_all(destination, "{extension}"@, extension), "{filename}"@, file_name)
}

/// Without date placeholders, a destination resolves the same at every
/// instant.
pub proof fn lemma_undated_destination(destination: Seq<char>, file: FileInfoView, now: Timestamp)
    requires
        !has_date_placeholder(destination),
    ensures
        destination_at(destination, file, now) == undated_destination(destination, file.extension, file.name),
{
    reveal_strlit("{year}");
    reveal_strlit("{month}");
    reveal_strlit("{day}");
    lemma_replace_absent(destination, "{year}"@, year_text(now));
    lemma_replace_absent(destination, "{month}"@, month_text(now));
    lemma_replace_absent(destination, "{day}"@, day_text(now));
}

/// Resolves a destination template for a file with today's date (UTC). A
/// template without date placeholders needs no clock and always resolves;
/// one with them gives `None` when the system clock cannot be read as a
/// date.
pub fn resolve_destination(destination: &str, file: &FileInfo) -> (res: Option<String>)
    ensures
        res matches Some(d) ==> exists|now: Timestamp|
            is_valid_timestamp(now) && d@ == #[trigger] destination_at(destination@, file@, now),
        !has_date_placeholder(destination@) ==> (res matches Some(d) && d@ == undated_destination(
            destination@,
            file.extension@,
            file.name@,
        )),
{
    if !contains_str(destination, "{year}") && !contains_str(destination, "{month}")
        && !contains_str(destination, "{day}") {
        proof {
            reveal_strlit("{extension}");
            reveal_strlit("{filename}");
        }
        let a = replace_str(destination, "{extension}", file.extension.as_str());
        let res = replace_str(a.as_str(), "{filename}", file.name.as_str());
        proof {
            let epoch = Timestamp { secs: 0, nanos: 0 };
            assert(chrono_represents(0, 0));
            assert(is_valid_timestamp(epoch));
            lemma_undated_destination(destination@, file@, epoch);
            assert(res@ == destination_at(destination@, file@, epoch));
        }
        return Some(res);
    }
    match utc_now() {
        None => None,
        Some(now) => {
            let res = resolve_destination_at(destination, file, &now);
            assert(is_valid_timestamp(now) && res@ == destination_at(destination@, file@, now));
            Some(res)
        },
    }
}

/// The error given when the system clock cannot be read as a date.
pub open spec fn clock_error() -> Seq<char> {
    "Cannot read the system clock"@
}

/// What carrying out a rule's action comes to.
#[derive(Debug)]
pub enum RulePlan {
    /// Move the file into this directory.
    Move { directory: String },
    /// Leave the file where it is, at this path.
    Stay { path: String },
}

/// Whether `plan` is what a rule's action asks for a file whose resolved
/// destination is `destination`: "move" moves it there, "ignore" leaves it
/// in place, and any other action is refused as unknown.
pub open spec fn plan_follows(
    plan: Result<RulePlan, String>,
    file: FileInfoView,
    rule: RuleView,
    destination: Seq<char>,
) -> bool {
    if rule.action == "move"@ {
        plan matches Ok(RulePlan::Move { directory }) && directory@ == destination
    } else if rule.action == "ignore"@ {
        plan matches Ok(RulePlan::Stay { path }) && path@ == file.path
    } else {
        plan matches Err(e) && e@ == "Unknown action: "@ + rule.action
    }
}

/// Decides what a rule does with a file, given its resolved destination.
pub fn plan_with_destination(file: &FileInfo, rule: &Rule, destination: String) -> (res: Result<
    RulePlan,
    String,
>)
    ensures
        plan_follows(res, file@, rule@, destination@),
{
    if chars_eq(rule.action.as_str(), "move") {
        Ok(RulePlan::Move { directory: destination })
    } else if chars_eq(rule.action.as_str(), "ignore") {
        Ok(RulePlan::Stay { path: file.path.clone() })
    } else {
        let mut message = String::from_str("Unknown action: ");
        message.append(rule.action.as_str());
        Err(message)
    }
}

/// Decides what a rule does with a file, resolving its destination with
/// today's date; an error when the system clock cannot be read.
pub fn plan_rule(file: &FileInfo, rule: &Rule) -> (res: Result<RulePlan, String>)
    ensures
        (res matches Err(e) && e@ == clock_error()) || exists|now: Timestamp|
            is_valid_timestamp(now) && #[trigger] plan_follows(
                res,
                file@,
                rule@,
                destination_at(rule.destination@, file@, now),
            ),
        !has_date_placeholder(rule.destination@) ==> plan_follows(
            res,
            file@,
            rule@,
            undated_destination(rule.destination@, file.extension@, file.name@),
        ),
{
    match resolve_destination(rule.destination.as_str(), file) {
        None => Err(String::from_str("Cannot read the system clock")),
        Some(destination) => {
            let ghost d = destination@;
            let res = plan_with_destination(file, rule, destination);
            proof {
                let now = choose|now: Timestamp|
                    is_valid_timestamp(now) && d == #[trigger] destination_at(rule.destination@, file@, now);
                assert(plan_follows(res, file@, rule@, destination_at(rule.destination@, file@, now)));
            }
            res
        },
    }
}

/// The name a moved file takes when its own name is already taken in the
/// destination: stem, "_", the Unix time in seconds, ".", extension.
pub open spec fn collision_name(stem: Seq<char>, timestamp: int, extension: Seq<char>) -> Seq<char> {
    stem + seq!['_'] + signed_decimal(timestamp) + seq!['.'] + extension
}

/// Builds the name a moved file takes when its own name is taken.
pub fn collision_file_name(stem: &str, timestamp: i64, extension: &str) -> (res: String)
    ensures
        res@ == collision_name(stem@, timestamp as int, extension@),
{
    proof {
        reveal_strlit("_");
        reveal_strlit(".");
    }
    let mut name = String::from_str(stem);
    name.append("_");
    let digits = i64_to_decimal(timestamp);
    name.append(digits.as_str());
    name.append(".");
    name.append(extension);
    proof {
        assert("_"@ =~= seq!['_']);
        assert("."@ =~= seq!['.']);
    }
    name
}

/// The name under which a file is moved: its own name, or, when that name
/// is taken in the destination, its stem stamped with the current time
/// (`None` when the system clock cannot be read then).
pub fn target_file_name(file: &FileInfo, name_taken: bool) -> (res: Option<String>)
    ensures
        !name_taken ==> (res matches Some(n) && n@ == file.name@),
        name_taken ==> (res matches Some(n) ==> exists|now: Timestamp|
            is_valid_timestamp(now) && n@ == #[trigger] collision_name(
                file_stem(file.name@),
                now.secs as int,
                file.extension@,
            )),
{
    if name_taken {
        match utc_now() {
            None => None,
            Some(now) => {
                let stem = file_stem_of(file.name.as_str());
                let res = collision_file_name(stem, now.secs, file.extension.as_str());
                assert(is_valid_timestamp(now) && res@ == collision_name(
                    file_stem(file.name@),
                    now.secs as int,
                    file.extension@,
                ));
                Some(res)
            },
        }
    } else {
        Some(file.name.clone())
    }
}

/// The names of the operating systems' own files, which are never touched.
pub open spec fn is_system_file_name(name: Seq<char>) -> bool {
    name == "desktop.ini"@ || name == "Thumbs.db"@ || name == ".DS_Store"@
}

/// Whether a file name is one of the operating systems' own files.
pub fn is_system_file(name: &str) -> (res: bool)
    ensures
        res == is_system_file_name(name@),
{
    chars_eq(name, "desktop.ini") || chars_eq(name, "Thumbs.db") || chars_eq(name, ".DS_Store")
}

/// The rule a file is handled by: nothing for a system file, an error when
/// no rule takes it, nothing when the first rule that takes it ignores it,
/// otherwise that rule.
pub fn select_rule(file: &FileInfo, rules: Vec<Rule>) -> (res: Result<Option<Rule>, String>)
    ensures
        is_system_file_name(file.name@) ==> (res matches Ok(None)),
        res is Err <==> !is_system_file_name(file.name@) && no_rule_matches(rules@, file@),
        res matches Err(e) ==> e@ == "No matching rule"@,
        res matches Ok(None) ==> is_system_file_name(file.name@) || exists|i: int|
            is_first_match(rules@, file@, i) && rules@[i].action@ == "ignore"@,
        res matches Ok(Some(r)) ==> !is_system_file_name(file.name@) && exists|i: int|
            is_first_match(rules@, file@, i) && r == rules@[i] && r.action@ != "ignore"@,
{
    if is_system_file(file.name.as_str()) {
        return Ok(None);
    }
    match find_matching_rule(file, rules) {
        None => Err(String::from_str("No matching rule")),
        Some(rule) => {
            if chars_eq(rule.action.as_str(), "ignore") {
                Ok(None)
            } else {
                Ok(Some(rule))
            }
        },
    }
}

/// The history entry for a file that a rule has handled, stamped with the
/// current time; `None` when the system clock cannot be read.
pub fn make_action_log(file: &FileInfo, rule: &Rule, destination: String) -> (res: Option<ActionLog>)
    ensures
        res matches Some(log) ==> {
            &&& log.id is None
            &&& is_valid_timestamp(log.timestamp)
            &&& log.source_path@ == file.path@
            &&& log.destination_path matches Some(d) && d@ == destination@
            &&& log.action@ == rule.action@
            &&& log.file_name@ == file.name@
            &&& log.file_type@ == rule.name@
            &&& !log.undone
        },
{
    match utc_now() {
        None => None,
        Some(now) => Some(ActionLog {
            id: None,
            timestamp: now,
            source_path: file.path.clone(),
            destination_path: Some(destination),
            action: rule.action.clone(),
            file_name: file.name.clone(),
            file_type: rule.name.clone(),
            undone: false,
        }),
    }
}

} // verus!
