use heq_core::storage::library::{pick_folder, prompt_text, row_label, Selection};
use heq_core::storage::PresetRef;

fn names(v: &[&str]) -> Vec<String> {
    v.iter().map(|s| s.to_string()).collect()
}

fn loaded(folder: &str, current: &str) -> Selection {
    let mut s = Selection::new(Some(folder.to_string()), Some(current.to_string()));
    s.baseline_folder = Some(folder.to_string());
    s
}

#[test]
fn folder_asked_for_is_picked_ignoring_case() {
    let fs = names(&["Jazz", "Rock", "Pop"]);
    assert_eq!(pick_folder(&fs, Some("rock")), Some("Rock".to_string()));
    assert_eq!(pick_folder(&fs, Some("Metal")), Some("Jazz".to_string()));
    assert_eq!(pick_folder(&fs, None), Some("Jazz".to_string()));
    assert_eq!(pick_folder(&Vec::new(), Some("Rock")), None);
}

#[test]
fn prompts_take_trimmed_names() {
    assert_eq!(prompt_text("  Warm  ", false), Some("Warm".to_string()));
    assert_eq!(prompt_text("   ", false), None);
    assert_eq!(prompt_text("", true), Some(String::new()));
}

#[test]
fn row_labels() {
    assert_eq!(row_label("Warm", false, false), "Warm");
    assert_eq!(row_label("Warm", true, false), "Warm  ·B");
    assert_eq!(row_label("Warm", true, true), "Warm  ·B  ·");
    assert_eq!(row_label("Warm", false, true), "Warm  ·");
}

#[test]
fn the_loaded_preset_is_marked_only_in_its_folder() {
    let mut s = loaded("Rock", "Loud");
    assert!(s.owns_folder());
    assert!(s.is_current("loud"));
    assert!(s.loaded_here());
    s.folder = Some("Jazz".to_string());
    assert!(!s.owns_folder());
    assert!(!s.is_current("Loud"));
    assert!(!s.loaded_here());
}

#[test]
fn save_proposes_the_loaded_name() {
    assert_eq!(loaded("Rock", "Loud").save_name(), "Loud");
    assert_eq!(Selection::new(None, None).save_name(), "New preset");
}

#[test]
fn renaming_the_loaded_preset_follows_it() {
    let mut s = loaded("Rock", "Loud");
    s.preset_renamed("LOUD", "Louder".to_string());
    assert_eq!(s.current.as_deref(), Some("Louder"));
    s.preset_renamed("Quiet", "Whisper".to_string());
    assert_eq!(s.current.as_deref(), Some("Louder"));
}

#[test]
fn deleting_presets() {
    let mut s = loaded("Rock", "Loud");
    s.ab_source = Some(PresetRef::new("Rock".to_string(), "Quiet".to_string()));
    assert!(s.is_b("rock", "quiet"));

    assert_eq!(s.preset_deleted("Rock", "Quiet"), (false, true));
    assert_eq!(s.ab_source, None);
    assert_eq!(s.current.as_deref(), Some("Loud"));

    assert_eq!(s.preset_deleted("Rock", "loud"), (true, false));
    assert_eq!(s.current, None);
    assert_eq!(s.baseline_folder, None);
    assert_eq!(s.folder.as_deref(), Some("Rock"));
}

#[test]
fn renaming_and_deleting_folders() {
    let mut s = loaded("Rock", "Loud");
    s.folder_renamed("ROCK", "Metal".to_string());
    assert_eq!(s.baseline_folder.as_deref(), Some("Metal"));
    s.folder_renamed("Jazz", "Blues".to_string());
    assert_eq!(s.baseline_folder.as_deref(), Some("Metal"));

    assert!(!s.folder_deleted("Jazz"));
    assert_eq!(s.folder, None);
    assert_eq!(s.current.as_deref(), Some("Loud"));

    assert!(s.folder_deleted("metal"));
    assert_eq!(s.current, None);
    assert_eq!(s.baseline_folder, None);
}

#[test]
fn forgetting_the_loaded_preset() {
    let mut s = loaded("Rock", "Loud");
    s.forget_current();
    assert_eq!(s.current, None);
    assert_eq!(s.baseline_folder, None);
    assert_eq!(s.folder.as_deref(), Some("Rock"));
}
