use heq_core::paths::{root_dir_from, Os};
use std::path::PathBuf;
use heq_core::backend::pipewire::default_path_from;
use heq_core::model::band::ChannelTarget;
use heq_core::storage::correction::{correction_side, summary};
use heq_core::storage::store::{
    correction_file_name, is_reserved, list_folders, list_presets, preset_file_name, same,
    sanitize, CORRECTION_FILE, MIGRATED_FOLDER,
};
use heq_core::storage::PresetRef;

fn names(v: &[&str]) -> Vec<String> {
    v.iter().map(|s| s.to_string()).collect()
}

#[test]
fn sanitize_trims_and_replaces_hostile_characters() {
    assert_eq!(sanitize("  My Preset  "), "My Preset");
    assert_eq!(sanitize("a/b\\c:d*e?f\"g<h>i|j"), "a_b_c_d_e_f_g_h_i_j");
    assert_eq!(sanitize("tab\there"), "tab_here");
}

#[test]
fn sanitize_empty_is_untitled() {
    assert_eq!(sanitize(""), "untitled");
    assert_eq!(sanitize("   "), "untitled");
}

#[test]
fn sanitize_never_yields_the_reserved_name() {
    assert_eq!(sanitize("_correction"), "_correction (preset)");
    assert_eq!(sanitize("_CORRECTION"), "_CORRECTION (preset)");
    assert!(!is_reserved(&sanitize("_Correction")));
}

#[test]
fn sanitize_keeps_folders_one_level_down() {
    assert_eq!(sanitize("."), "_");
    assert_eq!(sanitize(" .. "), "__");
    assert_eq!(sanitize("..."), "...");
    assert_eq!(sanitize("a.."), "a..");
}

#[test]
fn sanitize_is_idempotent_on_examples() {
    for s in ["  a/b  ", "", "_correction", "x\u{1}y", " ok ", ".", ".."] {
        let once = sanitize(s);
        assert_eq!(sanitize(&once), once);
    }
}

#[test]
fn sanitize_trims_again_after_cleaning() {
    // a control character at the edge becomes `_`, which is kept
    assert_eq!(sanitize("\u{7f}name"), "_name");
}

#[test]
fn reserved_name_ignores_ascii_case() {
    assert!(is_reserved("_correction"));
    assert!(is_reserved("_Correction"));
    assert!(!is_reserved("correction"));
    assert!(!is_reserved("_correction.json"));
    assert_eq!(CORRECTION_FILE, "_correction");
    assert_eq!(MIGRATED_FOLDER, "Unsorted");
}

#[test]
fn file_names() {
    assert_eq!(preset_file_name("Warm / bright"), "Warm _ bright.json");
    assert_eq!(preset_file_name("_correction"), "_correction (preset).json");
    assert_eq!(correction_file_name(), "_correction.json");
}

#[test]
fn names_compare_ignoring_ascii_case() {
    assert!(same("Rock", "rOCK"));
    assert!(!same("Rock", "Rocks"));
    assert!(!same("é", "É"));
}

#[test]
fn presets_listed_case_insensitively_without_the_correction() {
    let listed = list_presets(&names(&["beta", "_correction", "Alpha", "gamma", "_CORRECTION"]));
    assert_eq!(listed, names(&["Alpha", "beta", "gamma"]));
}

#[test]
fn listing_keeps_the_order_of_equal_keys() {
    let listed = list_folders(&names(&["b", "B", "a", "A"]));
    assert_eq!(listed, names(&["a", "A", "b", "B"]));
}

#[test]
fn listing_orders_by_code_point_after_lowering() {
    let listed = list_folders(&names(&["Zed", "apple", "Émile", "10", "2", "Mango"]));
    assert_eq!(listed, names(&["10", "2", "apple", "Mango", "Zed", "Émile"]));
}

#[test]
fn listing_nothing() {
    assert_eq!(list_presets(&Vec::new()), Vec::<String>::new());
    assert_eq!(list_presets(&names(&["_correction"])), Vec::<String>::new());
}

#[test]
fn preset_refs() {
    let r = PresetRef::new("Rock".to_string(), "Loud".to_string());
    assert_eq!(r.display(), "Rock / Loud");
    assert!(r.matches("rock", "LOUD"));
    assert!(!r.matches("Rock", "Quiet"));
    assert!(!r.matches("Jazz", "Loud"));
}

#[test]
fn correction_bands_for_both_ears_act_on_the_left() {
    assert_eq!(correction_side(ChannelTarget::Both), ChannelTarget::Left);
    assert_eq!(correction_side(ChannelTarget::Left), ChannelTarget::Left);
    assert_eq!(correction_side(ChannelTarget::Right), ChannelTarget::Right);
}

#[test]
fn correction_summaries() {
    assert_eq!(summary(&[]), "no correction");
    assert_eq!(
        summary(&[ChannelTarget::Left, ChannelTarget::Right, ChannelTarget::Both]),
        "2 left · 1 right"
    );
    assert_eq!(summary(&[ChannelTarget::Right]), "0 left · 1 right");
}

use heq_core::storage::store::{correction_path, folder_dir, path_for, preset_dir, settings_path};

#[test]
fn where_things_are_stored() {
    let root = std::path::PathBuf::from("/home/u/.config/heq");
    assert_eq!(preset_dir(&root), std::path::PathBuf::from("/home/u/.config/heq/presets"));
    assert_eq!(settings_path(&root), std::path::PathBuf::from("/home/u/.config/heq/settings.json"));
    assert_eq!(folder_dir(&root, " Rock/Pop "), std::path::PathBuf::from("/home/u/.config/heq/presets/Rock_Pop"));
    assert_eq!(
        path_for(&root, "Rock", "_correction"),
        std::path::PathBuf::from("/home/u/.config/heq/presets/Rock/_correction (preset).json")
    );
    assert_eq!(
        path_for(&root, "..", "x"),
        std::path::PathBuf::from("/home/u/.config/heq/presets/__/x.json")
    );
    assert_eq!(folder_dir(&root, "."), std::path::PathBuf::from("/home/u/.config/heq/presets/_"));
    assert_eq!(
        correction_path(&root, "Rock"),
        std::path::PathBuf::from("/home/u/.config/heq/presets/Rock/_correction.json")
    );
}

#[test]
fn heq_root_from_the_environment() {
    assert_eq!(
        root_dir_from(Some("/tmp/h"), Some("C:/AppData"), Some("/home/u"), None, Os::Windows),
        PathBuf::from("/tmp/h")
    );
    assert_eq!(root_dir_from(None, Some("C:/AppData"), None, None, Os::Windows), PathBuf::from("C:/AppData/heq"));
    assert_eq!(root_dir_from(None, None, Some("/home/u"), None, Os::Windows), PathBuf::from("/home/u/.config/heq"));
    assert_eq!(
        root_dir_from(None, None, Some("/Users/u"), Some("/x"), Os::MacOs),
        PathBuf::from("/Users/u/Library/Application Support/heq")
    );
    assert_eq!(root_dir_from(None, Some("C:/AppData"), Some("/home/u"), None, Os::Other), PathBuf::from("/home/u/.config/heq"));
    assert_eq!(root_dir_from(None, None, Some("/home/u"), Some("/xdg"), Os::Other), PathBuf::from("/xdg/heq"));
    assert_eq!(root_dir_from(None, None, None, None, Os::Other), PathBuf::from(".config/heq"));
}

#[test]
fn pipewire_drop_in_location() {
    assert_eq!(
        default_path_from(Some("/home/u"), None),
        PathBuf::from("/home/u/.config/pipewire/pipewire.conf.d/99-heq.conf")
    );
    assert_eq!(
        default_path_from(Some("/home/u"), Some("/xdg")),
        PathBuf::from("/xdg/pipewire/pipewire.conf.d/99-heq.conf")
    );
}
