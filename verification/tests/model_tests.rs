use mouzi::model::{default_rules, join_extensions, parse_extensions};
use mouzi::rules::{find_matching_rule, FileInfo};

fn file(name: &str, ext: &str) -> FileInfo {
    FileInfo { path: format!("C:/Downloads/{}", name), name: name.to_string(), extension: ext.to_string(), size: 1 }
}

#[test]
fn extensions_are_joined_with_commas() {
    let exts = vec!["jpg".to_string(), "png".to_string()];
    assert_eq!(join_extensions(&exts), "jpg,png");
}

#[test]
fn extensions_are_trimmed_and_lowercased_when_read() {
    assert_eq!(parse_extensions(" JPG, Png ,gif"), vec!["jpg", "png", "gif"]);
    assert_eq!(parse_extensions(""), vec![""]);
    assert_eq!(parse_extensions("*"), vec!["*"]);
}

#[test]
fn extensions_round_trip() {
    let exts = vec!["mp4".to_string(), "mkv".to_string(), "webm".to_string()];
    assert_eq!(parse_extensions(&join_extensions(&exts)), exts);
}

#[test]
fn default_rules_for_a_folder() {
    let rules = default_rules("C:/Users/me/Downloads");
    let names: Vec<&str> = rules.iter().map(|r| r.name.as_str()).collect();
    assert_eq!(names, vec!["Images", "Documents", "Archives", "Installers", "Music", "Videos", "Others"]);
    let priorities: Vec<i32> = rules.iter().map(|r| r.priority).collect();
    assert_eq!(priorities, vec![1, 2, 3, 4, 5, 6, 99]);
    assert_eq!(rules[0].destination, "C:/Users/me/Downloads/Images");
    assert_eq!(rules[0].extensions, vec!["jpg", "jpeg", "png", "gif", "webp", "bmp", "svg", "ico"]);
    assert_eq!(rules[6].extensions, vec!["*"]);
    for r in &rules {
        assert!(r.enabled);
        assert!(r.pattern.is_none());
        assert_eq!(r.action, "move");
        assert_eq!(r.folder_id, 0);
        assert_eq!(r.id, None);
    }
}

#[test]
fn default_rules_sort_by_kind() {
    let pick = |name: &str, ext: &str| {
        find_matching_rule(&file(name, ext), default_rules("D")).unwrap().name
    };
    assert_eq!(pick("a.jpg", "jpg"), "Images");
    assert_eq!(pick("a.pdf", "pdf"), "Documents");
    assert_eq!(pick("a.7z", "7z"), "Archives");
    assert_eq!(pick("setup.msi", "msi"), "Installers");
    assert_eq!(pick("song.flac", "flac"), "Music");
    assert_eq!(pick("clip.webm", "webm"), "Videos");
}

#[test]
fn default_rules_take_every_file() {
    let r = find_matching_rule(&file("strange.xyz", "xyz"), default_rules("D")).unwrap();
    assert_eq!(r.name, "Others");
    let r = find_matching_rule(&file("README", ""), default_rules("D")).unwrap();
    assert_eq!(r.name, "Others");
}
