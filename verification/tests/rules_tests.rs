use mouzi::model::Rule;
use mouzi::pattern::{compile_pattern, pattern_finds};
use mouzi::rules::{
    collision_file_name, file_extension_of, file_info_from_path, file_stem_of, find_matching_rule,
    is_system_file, make_action_log, matches_rule, plan_rule, plan_with_destination,
    resolve_destination, resolve_destination_at, select_rule, substitute_placeholders,
    target_file_name, FileInfo, RulePlan,
};
use mouzi::clock::{timestamp_from_text, timestamp_to_text, Timestamp};
use mouzi::model::default_rules;

fn rule(name: &str, exts: &[&str], pattern: Option<&str>, action: &str) -> Rule {
    Rule {
        id: Some(1),
        name: name.to_string(),
        priority: 1,
        enabled: true,
        extensions: exts.iter().map(|e| e.to_string()).collect(),
        pattern: pattern.map(|p| p.to_string()),
        destination: format!("D:/{}", name),
        action: action.to_string(),
        folder_id: 0,
    }
}

fn file(name: &str, ext: &str) -> FileInfo {
    FileInfo {
        path: format!("C:/Downloads/{}", name),
        name: name.to_string(),
        extension: ext.to_string(),
        size: 10,
    }
}

#[test]
fn regex_from_readme_matches_invoice() {
    assert!(pattern_finds(".*faktura.*", "faktura_2025.pdf"));
    assert!(!pattern_finds(".*faktura.*", "invoice.pdf"));
}

#[test]
fn invalid_regex_matches_nothing() {
    assert!(compile_pattern("foo(bar").is_none());
    assert!(compile_pattern("foo").is_some());
    assert!(!pattern_finds("foo(bar", "foo(bar"));
}

#[test]
fn file_info_lowercases_extension() {
    let f = file_info_from_path("C:/x/A.JPG".to_string(), Some("A.JPG".to_string()), 7).unwrap();
    assert_eq!(f.extension, "jpg");
    assert_eq!(f.name, "A.JPG");
    assert_eq!(f.path, "C:/x/A.JPG");
    assert_eq!(f.size, 7);
    let g = file_info_from_path("C:/x/été.ÉTÉ".to_string(), Some("été.ÉTÉ".to_string()), 1).unwrap();
    assert_eq!(g.extension, "été");
    assert!(file_info_from_path("C:/x/..".to_string(), None, 1).is_none());
}

#[test]
fn extension_and_stem_as_path_reads_them() {
    for name in ["a.tar.gz", "report.pdf", "noext", ".bashrc", "..x", "a.", ".x.y", ""] {
        let p = std::path::Path::new(name);
        assert_eq!(file_extension_of(name), p.extension().and_then(|e| e.to_str()).unwrap_or(""), "{}", name);
        if !name.is_empty() {
            assert_eq!(file_stem_of(name), p.file_stem().unwrap().to_str().unwrap(), "{}", name);
        }
    }
}

#[test]
fn system_files_are_never_handled() {
    assert!(is_system_file("desktop.ini"));
    assert!(is_system_file("Thumbs.db"));
    assert!(is_system_file(".DS_Store"));
    assert!(!is_system_file("notes.ini"));
    for name in ["desktop.ini", "Thumbs.db", ".DS_Store"] {
        let f = file_info_from_path(format!("C:/Downloads/{}", name), Some(name.to_string()), 1).unwrap();
        assert!(select_rule(&f, default_rules("C:/Downloads")).unwrap().is_none());
    }
}

#[test]
fn timestamps_as_rfc3339_text() {
    let t = Timestamp { secs: 1431648000, nanos: 0 };
    let text = timestamp_to_text(&t).unwrap();
    assert_eq!(text, "2015-05-15T00:00:00+00:00");
    assert_eq!(timestamp_from_text(&text), Some(t));
    assert_eq!(
        timestamp_from_text("1996-12-19T16:39:57-08:00"),
        Some(Timestamp { secs: 851042397, nanos: 0 })
    );
    assert_eq!(timestamp_from_text("not a date"), None);
    assert_eq!(timestamp_to_text(&Timestamp { secs: i64::MAX, nanos: 0 }), None);
}

#[test]
fn disabled_rule_takes_nothing() {
    let mut r = rule("Images", &["jpg"], None, "move");
    r.enabled = false;
    assert!(!matches_rule(&file("a.jpg", "jpg"), &r));
}

#[test]
fn extension_and_wildcard_matching() {
    let images = rule("Images", &["jpg", "png"], None, "move");
    assert!(matches_rule(&file("a.jpg", "jpg"), &images));
    assert!(!matches_rule(&file("a.pdf", "pdf"), &images));
    let others = rule("Others", &["*"], None, "move");
    assert!(matches_rule(&file("a.pdf", "pdf"), &others));
    assert!(matches_rule(&file("noext", ""), &others));
}

#[test]
fn pattern_must_also_match() {
    let invoices = rule("Invoices", &["pdf"], Some(".*faktura.*"), "move");
    assert!(matches_rule(&file("faktura_2025.pdf", "pdf"), &invoices));
    assert!(!matches_rule(&file("report.pdf", "pdf"), &invoices));
    let empty_pattern = rule("Docs", &["pdf"], Some(""), "move");
    assert!(matches_rule(&file("report.pdf", "pdf"), &empty_pattern));
    let broken = rule("Broken", &["pdf"], Some("(unclosed"), "move");
    assert!(!matches_rule(&file("report.pdf", "pdf"), &broken));
}

#[test]
fn first_matching_rule_wins() {
    let rules = vec![
        rule("Invoices", &["pdf"], Some("faktura"), "move"),
        rule("Documents", &["pdf", "docx"], None, "move"),
        rule("Others", &["*"], None, "move"),
    ];
    let found = find_matching_rule(&file("faktura_1.pdf", "pdf"), rules).unwrap();
    assert_eq!(found.name, "Invoices");
    let rules = vec![
        rule("Invoices", &["pdf"], Some("faktura"), "move"),
        rule("Documents", &["pdf", "docx"], None, "move"),
        rule("Others", &["*"], None, "move"),
    ];
    let found = find_matching_rule(&file("cv.pdf", "pdf"), rules).unwrap();
    assert_eq!(found.name, "Documents");
}

#[test]
fn no_rule_found() {
    let rules = vec![rule("Images", &["jpg"], None, "move")];
    assert!(find_matching_rule(&file("a.pdf", "pdf"), rules).is_none());
    assert!(find_matching_rule(&file("a.pdf", "pdf"), Vec::new()).is_none());
}

#[test]
fn placeholders_from_readme() {
    let res = substitute_placeholders(
        "Downloads/Documents/{year}/{month}/",
        "2026",
        "05",
        "09",
        "pdf",
        "a.pdf",
    );
    assert_eq!(res, "Downloads/Documents/2026/05/");
}

#[test]
fn all_placeholders_are_filled() {
    let res = substitute_placeholders("{year}-{month}-{day}/{extension}/{filename}", "2025", "12", "31", "zip", "x.zip");
    assert_eq!(res, "2025-12-31/zip/x.zip");
}

#[test]
fn plain_destination_is_kept() {
    assert_eq!(substitute_placeholders("C:/Sorted/Images", "2025", "01", "02", "jpg", "a.jpg"), "C:/Sorted/Images");
}

#[test]
fn file_name_is_filled_last() {
    // a file name that looks like a placeholder is not filled again
    assert_eq!(substitute_placeholders("{filename}", "2025", "01", "02", "txt", "{year}.txt"), "{year}.txt");
    assert_eq!(substitute_placeholders("{extension}", "2025", "01", "02", "{day}", "a"), "{day}");
}

#[test]
fn destination_at_a_known_instant() {
    // 2015-05-15 00:00:00 UTC
    let t = Timestamp { secs: 1431648000, nanos: 0 };
    let res = resolve_destination_at("Docs/{year}/{month}/{day}", &file("a.pdf", "pdf"), &t);
    assert_eq!(res, "Docs/2015/05/15");
}

#[test]
fn destination_uses_today() {
    let f = file("a.pdf", "pdf");
    let before = chrono::Utc::now().format("%Y/%m/%d").to_string();
    let res = resolve_destination("Docs/{year}/{month}/{day}", &f).unwrap();
    let after = chrono::Utc::now().format("%Y/%m/%d").to_string();
    assert!(res == format!("Docs/{}", before) || res == format!("Docs/{}", after));
}

#[test]
fn move_plan_goes_to_destination() {
    let f = file("a.jpg", "jpg");
    match plan_with_destination(&f, &rule("Images", &["jpg"], None, "move"), "D:/Images".to_string()) {
        Ok(RulePlan::Move { directory }) => assert_eq!(directory, "D:/Images"),
        other => panic!("unexpected {:?}", other),
    }
}

#[test]
fn ignore_plan_stays() {
    let f = file("a.jpg", "jpg");
    match plan_with_destination(&f, &rule("Keep", &["jpg"], None, "ignore"), "D:/Keep".to_string()) {
        Ok(RulePlan::Stay { path }) => assert_eq!(path, "C:/Downloads/a.jpg"),
        other => panic!("unexpected {:?}", other),
    }
}

#[test]
fn unknown_action_is_refused() {
    let f = file("a.jpg", "jpg");
    match plan_with_destination(&f, &rule("Del", &["jpg"], None, "delete"), "D:/x".to_string()) {
        Err(e) => assert_eq!(e, "Unknown action: delete"),
        other => panic!("unexpected {:?}", other),
    }
}

#[test]
fn plan_rule_resolves_destination() {
    let mut r = rule("Images", &["jpg"], None, "move");
    r.destination = "D:/Images/{extension}".to_string();
    match plan_rule(&file("a.jpg", "jpg"), &r) {
        Ok(RulePlan::Move { directory }) => assert_eq!(directory, "D:/Images/jpg"),
        other => panic!("unexpected {:?}", other),
    }
}

#[test]
fn collision_name_is_stamped() {
    assert_eq!(collision_file_name("report", 1700000000, "pdf"), "report_1700000000.pdf");
    assert_eq!(collision_file_name("x", 0, ""), "x_0.");
}

#[test]
fn target_name_when_free_or_taken() {
    let f = file("report.pdf", "pdf");
    assert_eq!(target_file_name(&f, false).unwrap(), "report.pdf");
    let stamped = target_file_name(&f, true).unwrap();
    assert!(stamped.starts_with("report_"));
    assert!(stamped.ends_with(".pdf"));
    let digits = &stamped["report_".len()..stamped.len() - ".pdf".len()];
    let secs: i64 = digits.parse().unwrap();
    assert!((secs - chrono::Utc::now().timestamp()).abs() < 60);
}

#[test]
fn select_rule_outcomes() {
    let rules = vec![rule("Images", &["jpg"], None, "move")];
    assert_eq!(select_rule(&file("a.pdf", "pdf"), rules).unwrap_err(), "No matching rule");
    let rules = vec![rule("Keep", &["jpg"], None, "ignore"), rule("Images", &["jpg"], None, "move")];
    assert!(select_rule(&file("a.jpg", "jpg"), rules).unwrap().is_none());
    let rules = vec![rule("Images", &["jpg"], None, "move"), rule("Keep", &["jpg"], None, "ignore")];
    let chosen = select_rule(&file("a.jpg", "jpg"), rules).unwrap().unwrap();
    assert_eq!(chosen.name, "Images");
}

#[test]
fn action_log_records_the_move() {
    let f = file("a.jpg", "jpg");
    let r = rule("Images", &["jpg"], None, "move");
    let log = make_action_log(&f, &r, "D:/Images/a.jpg".to_string()).unwrap();
    assert_eq!(log.id, None);
    assert_eq!(log.source_path, "C:/Downloads/a.jpg");
    assert_eq!(log.destination_path.as_deref(), Some("D:/Images/a.jpg"));
    assert_eq!(log.action, "move");
    assert_eq!(log.file_name, "a.jpg");
    assert_eq!(log.file_type, "Images");
    assert!(!log.undone);
    assert!((log.timestamp.secs - chrono::Utc::now().timestamp()).abs() < 60);
}
