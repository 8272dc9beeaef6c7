use mouzi::commands::{
    downloads_folder_or_default, get_downloads_folder, get_system_language, greet,
    language_from_locale, plan_undo,
};

#[test]
fn greeting() {
    assert_eq!(greet("Ala"), "Hello, Ala! You've been greeted from Rust!");
}

#[test]
fn language_from_system_locale() {
    assert_eq!(language_from_locale(Some("pl-PL".to_string())), "pl");
    assert_eq!(language_from_locale(Some("DE".to_string())), "de");
    assert_eq!(language_from_locale(Some("fr-CA".to_string())), "fr");
    assert_eq!(language_from_locale(Some("it".to_string())), "it");
    assert_eq!(language_from_locale(Some("ru-RU".to_string())), "en");
    assert_eq!(language_from_locale(Some("es-ES".to_string())), "en");
    assert_eq!(language_from_locale(Some("".to_string())), "en");
    assert_eq!(language_from_locale(None), "en");
}

#[test]
fn system_language_is_supported() {
    let lang = get_system_language();
    assert!(["pl", "it", "de", "fr", "en"].contains(&lang.as_str()));
}

#[test]
fn downloads_folder_fallback() {
    assert_eq!(downloads_folder_or_default(None), "C:/Users");
    assert_eq!(downloads_folder_or_default(Some("/home/a/Downloads".to_string())), "/home/a/Downloads");
    assert!(!get_downloads_folder().is_empty());
}

#[test]
fn undo_of_a_missing_entry_does_nothing() {
    let plan = plan_undo(None, true);
    assert!(plan.restore.is_none());
    assert!(!plan.mark_undone);
}

#[test]
fn undo_moves_the_file_back() {
    let plan = plan_undo(Some(("C:/d/a.pdf".to_string(), "C:/d/Documents/a.pdf".to_string())), true);
    assert_eq!(plan.restore, Some(("C:/d/Documents/a.pdf".to_string(), "C:/d/a.pdf".to_string())));
    assert!(plan.mark_undone);
}

#[test]
fn undo_of_a_vanished_file_only_marks_the_entry() {
    let plan = plan_undo(Some(("C:/d/a.pdf".to_string(), "C:/d/Documents/a.pdf".to_string())), false);
    assert!(plan.restore.is_none());
    assert!(plan.mark_undone);
    let plan = plan_undo(Some(("C:/d/a.pdf".to_string(), String::new())), true);
    assert!(plan.restore.is_none());
    assert!(plan.mark_undone);
}
