//! Properties of the organizer as a whole, each proved from the
//! specifications the functions above meet.

use vstd::prelude::*;
use crate::commands::{is_supported_language, language_code, language_for_locale};
use crate::model::{
    comma, default_rules_view, extensions_text, normalize_extension, parsed_extensions, Rule,
    RuleView,
};
use crate::clock::Timestamp;
use crate::rules::{
    destination_at, has_date_placeholder, lemma_undated_destination, undated_destination,
    extension_listed, is_first_match, no_rule_matches, pattern_admits, rule_matches, substituted,
    wildcard, FileInfoView,
};
use crate::text::{join_with, lemma_replace_absent, occurs_in, replace_all, split_on};
use crate::watcher::{
    after_restore, elapsed, entry_paths, event_ignored, keep_where, lemma_keep_where_distinct, lemma_keep_where_sub, lemma_keep_where_partition,
    lemma_other_path_excludes, other_path, paths_distinct, settled, unsettled, Entry,
    IGNORE_DURATION_NANOS, SETTLE_NANOS,
};

verus! {

/// A disabled rule takes no file.
pub proof fn law_disabled_rule_takes_nothing(rule: RuleView, file: FileInfoView)
    requires
        !rule.enabled,
    ensures
        !rule_matches(rule, file),
{
}

/// An enabled rule that lists "*" takes every file its pattern admits,
/// whatever the file's extension.
pub proof fn law_wildcard_takes_every_extension(rule: RuleView, file: FileInfoView)
    requires
        rule.enabled,
        rule.extensions.contains(wildcard()),
        pattern_admits(rule.pattern, file.name),
    ensures
        rule_matches(rule, file),
{
}

/// Rules are tried top to bottom and the first that takes a file wins:
/// there is at most one first match.
pub proof fn law_first_match_is_unique(rules: Seq<Rule>, file: FileInfoView, i: int, j: int)
    requires
        is_first_match(rules, file, i),
        is_first_match(rules, file, j),
    ensures
        i == j,
{
    if i < j {
        assert(!rule_matches(rules[i]@, file));
    }
    if j < i {
        assert(!rule_matches(rules[j]@, file));
    }
}

/// With the default rules every file is taken by some rule: the last,
/// "Others", lists "*" and has no pattern.
pub proof fn law_default_rules_take_every_file(folder: Seq<char>, rules: Seq<Rule>, file: FileInfoView)
    requires
        rules.len() == default_rules_view(folder).len(),
        forall|i: int| 0 <= i < rules.len() ==> #[trigger] rules[i]@ == default_rules_view(folder)[i],
    ensures
        !no_rule_matches(rules, file),
{
    reveal_strlit("*");
    let others = default_rules_view(folder)[6];
    assert(rules[6]@ == others);
    assert(others.extensions[0] == "*"@);
    assert("*"@ =~= wildcard());
    assert(others.extensions.contains(wildcard()));
    assert(extension_listed(others.extensions, file.extension));
    assert(rule_matches(rules[6]@, file));
}

/// Splitting text that ends in characters other than the separator: the
/// last piece grows by those characters.
pub proof fn lemma_split_on_append(p: Seq<char>, b: Seq<char>, sep: char)
    requires
        !b.contains(sep),
    ensures
        split_on(p + b, sep) == split_on(p, sep).update(
            split_on(p, sep).len() - 1,
            split_on(p, sep).last() + b,
        ),
    decreases b.len(),
{
    crate::text::lemma_split_on_nonempty(p, sep);
    let sp = split_on(p, sep);
    if b.len() == 0 {
        assert(p + b =~= p);
        assert(sp.last() + b =~= sp.last());
        assert(sp.update(sp.len() - 1, sp.last() + b) =~= sp);
    } else {
        let b1 = b.drop_last();
        let c = b.last();
        assert(!b1.contains(sep)) by {
            if b1.contains(sep) {
                let k = choose|k: int| 0 <= k < b1.len() && b1[k] == sep;
                assert(b[k] == sep);
            }
        }
        assert(c != sep) by {
            assert(b[b.len() - 1] == c);
        }
        lemma_split_on_append(p, b1, sep);
        crate::text::lemma_split_on_nonempty(p + b1, sep);
        assert((p + b).drop_last() =~= p + b1);
        assert((p + b).last() == c);
        let pre = split_on(p + b1, sep);
        assert(pre.last() =~= sp.last() + b1);
        assert(pre == sp.update(sp.len() - 1, sp.last() + b1));
        assert(pre.len() == sp.len());
        assert(pre.last() == sp.last() + b1);
        assert(pre.last().push(c) =~= sp.last() + b);
        assert(pre.update(pre.len() - 1, pre.last().push(c)) =~= sp.update(sp.len() - 1, sp.last() + b));
    }
}

/// Splitting a join of pieces that hold no separator gives the pieces back.
pub proof fn lemma_split_join(parts: Seq<Seq<char>>, sep: char)
    requires
        parts.len() >= 1,
        forall|i: int| 0 <= i < parts.len() ==> !(#[trigger] parts[i]).contains(sep),
    ensures
        split_on(join_with(parts, seq![sep]), sep) == parts,
    decreases parts.len(),
{
    if parts.len() == 1 {
        lemma_split_on_append(Seq::<char>::empty(), parts[0], sep);
        assert(Seq::<char>::empty() + parts[0] =~= parts[0]);
        let sp = split_on(Seq::<char>::empty(), sep);
        assert(sp.update(0, sp.last() + parts[0]) =~= parts);
    } else {
        let front = parts.drop_last();
        let last = parts.last();
        assert forall|i: int| 0 <= i < front.len() implies !(#[trigger] front[i]).contains(sep) by {
            assert(front[i] == parts[i]);
        }
        lemma_split_join(front, sep);
        let j = join_with(front, seq![sep]);
        assert(!last.contains(sep)) by {
            assert(parts[parts.len() - 1] == last);
        }
        assert(j + seq![sep] + last =~= j.push(sep) + last);
        lemma_split_on_append(j.push(sep), last, sep);
        assert(j.push(sep).drop_last() =~= j);
        let sp = split_on(j.push(sep), sep);
        assert(sp == front.push(Seq::<char>::empty()));
        assert(Seq::<char>::empty() + last =~= last);
        assert(sp.update(sp.len() - 1, sp.last() + last) =~= parts);
    }
}

/// An extension list written in its stored form and read back is the same
/// list, when it is not empty and each extension is already normalized
/// (trimmed, lowercase) and holds no comma.
pub proof fn law_extensions_round_trip(exts: Seq<Seq<char>>)
    requires
        exts.len() >= 1,
        forall|i: int| 0 <= i < exts.len() ==> !(#[trigger] exts[i]).contains(','),
        forall|i: int| 0 <= i < exts.len() ==> normalize_extension(#[trigger] exts[i]) == exts[i],
    ensures
        parsed_extensions(extensions_text(exts)) == exts,
{
    assert(comma() == seq![',']);
    lemma_split_join(exts, ',');
    assert(parsed_extensions(extensions_text(exts)) =~= exts);
}

/// A destination that holds none of the five placeholders is used as it is.
pub proof fn law_plain_destination_unchanged(
    destination: Seq<char>,
    year: Seq<char>,
    month: Seq<char>,
    day: Seq<char>,
    extension: Seq<char>,
    file_name: Seq<char>,
)
    requires
        !occurs_in("{year}"@, destination),
        !occurs_in("{month}"@, destination),
        !occurs_in("{day}"@, destination),
        !occurs_in("{extension}"@, destination),
        !occurs_in("{filename}"@, destination),
    ensures
        substituted(destination, year, month, day, extension, file_name) == destination,
{
    reveal_strlit("{year}");
    reveal_strlit("{month}");
    reveal_strlit("{day}");
    reveal_strlit("{extension}");
    reveal_strlit("{filename}");
    lemma_replace_absent(destination, "{year}"@, year);
    lemma_replace_absent(destination, "{month}"@, month);
    lemma_replace_absent(destination, "{day}"@, day);
    lemma_replace_absent(destination, "{extension}"@, extension);
    lemma_replace_absent(destination, "{filename}"@, file_name);
}

/// A destination without date placeholders resolves the same at every
/// instant, to the template with only the extension and file name filled
/// in: it does not depend on the clock (and `resolve_destination` and
/// `plan_rule` need no clock for it).
pub proof fn law_undated_destination_ignores_the_clock(
    destination: Seq<char>,
    file: FileInfoView,
    t1: Timestamp,
    t2: Timestamp,
)
    requires
        !has_date_placeholder(destination),
    ensures
        destination_at(destination, file, t1) == destination_at(destination, file, t2),
        destination_at(destination, file, t1) == undated_destination(destination, file.extension, file.name),
{
    lemma_undated_destination(destination, file, t1);
    lemma_undated_destination(destination, file, t2);
}

/// A letter-and-digit pattern occurring in a file name also occurs in any
/// longer name around it: what `pattern_finds` and `matches_rule` state of
/// such patterns holds wherever in the name the text stands, not only at
/// its start.
pub proof fn law_literal_occurs_anywhere(pattern: Seq<char>, before: Seq<char>, name: Seq<char>, after: Seq<char>)
    requires
        occurs_in(pattern, name),
    ensures
        occurs_in(pattern, before + name + after),
{
    let i = choose|i: int| 0 <= i && i + pattern.len() <= name.len() && #[trigger] name.subrange(i, i + pattern.len()) == pattern;
    let j = i + before.len();
    assert((before + name + after).subrange(j, j + pattern.len()) =~= name.subrange(i, i + pattern.len()));
}

/// Scheduling a file leaves exactly one pending entry for it, the newest
/// one, and no path pending twice.
pub proof fn law_schedule_keeps_one_entry(queue: Seq<Entry>, path: Seq<char>, now: u64)
    requires
        paths_distinct(queue),
    ensures
        ({
            let r = keep_where(queue, other_path(path)).push((path, now));
            &&& paths_distinct(r)
            &&& r.last() == (path, now)
            &&& forall|k: int| 0 <= k < r.len() - 1 ==> (#[trigger] r[k]).0 != path
        }),
{
    let kept = keep_where(queue, other_path(path));
    lemma_keep_where_distinct(queue, other_path(path));
    lemma_other_path_excludes(queue, path);
    let r = kept.push((path, now));
    assert forall|k: int| 0 <= k < r.len() - 1 implies (#[trigger] r[k]).0 != path by {
        assert(r[k] == kept[k]);
    }
    assert forall|i: int, j: int| 0 <= i < j < r.len() implies #[trigger] r[i].0 != #[trigger] r[j].0 by {
        if j == r.len() - 1 {
            assert(r[i] == kept[i]);
        } else {
            assert(kept[i].0 != kept[j].0);
        }
    }
}

/// A file scheduled at `t` is handed out by the first `take_ready` at or
/// after `t` plus the settle time, and not before.
pub proof fn law_scheduled_file_settles(queue: Seq<Entry>, path: Seq<char>, t: u64, now: u64)
    requires
        paths_distinct(queue),
    ensures
        ({
            let r = keep_where(queue, other_path(path)).push((path, t));
            &&& elapsed(now, t) >= SETTLE_NANOS ==> entry_paths(keep_where(r, settled(now))).contains(path)
            &&& elapsed(now, t) < SETTLE_NANOS ==> !entry_paths(keep_where(r, settled(now))).contains(path)
                && keep_where(r, unsettled(now)).contains((path, t))
        }),
{
    let kept = keep_where(queue, other_path(path));
    let e = (path, t);
    let r = kept.push(e);
    law_schedule_keeps_one_entry(queue, path, t);
    assert(r.drop_last() =~= kept);
    assert(r.last() == e);
    let ready = keep_where(r, settled(now));
    if elapsed(now, t) >= SETTLE_NANOS {
        assert(ready == keep_where(kept, settled(now)).push(e));
        assert(ready[ready.len() - 1] == e);
        assert(entry_paths(ready)[ready.len() - 1] == path);
    } else {
        let waiting = keep_where(r, unsettled(now));
        assert(waiting == keep_where(kept, unsettled(now)).push(e));
        assert(waiting[waiting.len() - 1] == e);
        lemma_keep_where_sub(r, settled(now));
        if entry_paths(ready).contains(path) {
            let k = choose|k: int| 0 <= k < entry_paths(ready).len() && entry_paths(ready)[k] == path;
            let x = ready[k];
            assert(x.0 == path);
            assert(r.contains(x));
            let m = choose|m: int| 0 <= m < r.len() && r[m] == x;
            if m < r.len() - 1 {
                assert(r[m].0 != path);
            }
            assert(x == e);
            assert(settled(now)(x));
        }
    }
}

/// Taking the settled files out of the queue loses none and duplicates
/// none: the taken and the remaining together are as many as were queued.
pub proof fn law_take_ready_partitions(queue: Seq<Entry>, now: u64)
    ensures
        keep_where(queue, settled(now)).len() + keep_where(queue, unsettled(now)).len() == queue.len(),
{
    lemma_keep_where_partition(queue, settled(now), unsettled(now));
}

/// A file that an undo restored at `t` (`IgnoreList::insert`) has its
/// change events dropped (`IgnoreList::check_event`, `on_file_event`)
/// while less than `IGNORE_DURATION_SECS` have passed, and no longer after.
pub proof fn law_restored_file_is_left_alone(
    ignored: Map<Seq<char>, u64>,
    path: Seq<char>,
    t: u64,
    t2: u64,
)
    ensures
        event_ignored(after_restore(ignored, path, t), path, t2) <==> elapsed(t2, t)
            < IGNORE_DURATION_NANOS,
{
    assert(after_restore(ignored, path, t)[path] == t);
}

/// The interface language is always a supported one or English.
pub proof fn law_language_is_supported_or_english(locale: Option<Seq<char>>)
    ensures
        is_supported_language(language_for_locale(locale)) || language_for_locale(locale) == "en"@,
{
}

/// Without a system locale the interface is in English.
pub proof fn law_no_locale_gives_english()
    ensures
        language_for_locale(None) == "en"@,
{
}

/// A supported language code is kept as it is.
pub proof fn law_supported_language_kept(lang: Seq<char>)
    requires
        is_supported_language(lang),
    ensures
        language_code(lang) == lang,
{
}

} // verus!
