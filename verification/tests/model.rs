use heq_core::model::pointer::{double_click, press, stepped_slope, Press};
use heq_core::model::ab::{side_name, AbSides};
use heq_core::model::band::{
    butterworth_order, cut_order, cut_sections, normalized_slope, BandId, ChannelTarget, FilterKind,
};
use heq_core::model::tracker::{BandIds, ChangeTracker};

#[test]
fn filter_kinds_in_picker_order() {
    let all = FilterKind::all();
    assert_eq!(
        all,
        vec![
            FilterKind::Bell,
            FilterKind::LowShelf,
            FilterKind::HighShelf,
            FilterKind::LowCut,
            FilterKind::HighCut,
            FilterKind::Notch,
            FilterKind::BandPass,
            FilterKind::AllPass,
        ]
    );
}

#[test]
fn filter_kind_names() {
    let names: Vec<&str> = FilterKind::all().into_iter().map(|k| k.display_name()).collect();
    assert_eq!(
        names,
        vec!["Bell", "Low Shelf", "High Shelf", "Low Cut", "High Cut", "Notch", "Band Pass", "All Pass"]
    );
}

#[test]
fn only_bells_and_shelves_use_gain() {
    for k in FilterKind::all() {
        let expected = matches!(k, FilterKind::Bell | FilterKind::LowShelf | FilterKind::HighShelf);
        assert_eq!(k.uses_gain(), expected);
    }
}

#[test]
fn only_cuts_use_slope() {
    for k in FilterKind::all() {
        let expected = matches!(k, FilterKind::LowCut | FilterKind::HighCut);
        assert_eq!(k.uses_slope(), expected);
    }
}

#[test]
fn channel_targets_and_ears() {
    assert_eq!(
        ChannelTarget::all(),
        vec![ChannelTarget::Both, ChannelTarget::Left, ChannelTarget::Right]
    );
    assert_eq!(ChannelTarget::Left.ear_name(), "Left only");
    assert_eq!(ChannelTarget::Right.ear_name(), "Right only");
    assert_eq!(ChannelTarget::Both.ear_name(), "Both ears");
    assert_eq!(ChannelTarget::default(), ChannelTarget::Both);
}

#[test]
fn both_applies_everywhere_sides_only_to_themselves() {
    assert!(ChannelTarget::Both.applies_to(ChannelTarget::Left));
    assert!(ChannelTarget::Both.applies_to(ChannelTarget::Right));
    assert!(ChannelTarget::Left.applies_to(ChannelTarget::Left));
    assert!(!ChannelTarget::Left.applies_to(ChannelTarget::Right));
    assert!(!ChannelTarget::Right.applies_to(ChannelTarget::Left));
    assert!(!ChannelTarget::Left.applies_to(ChannelTarget::Both));
}

#[test]
fn slopes_fall_back_to_twelve() {
    assert_eq!(normalized_slope(0), 12);
    assert_eq!(normalized_slope(-6), 12);
    assert_eq!(normalized_slope(24), 24);
}

#[test]
fn cut_orders_and_sections() {
    assert_eq!(cut_order(6), 2);
    assert_eq!(cut_order(12), 2);
    assert_eq!(cut_order(18), 3);
    assert_eq!(cut_order(48), 8);
    assert_eq!(butterworth_order(0), 2);
    assert_eq!(butterworth_order(3), 4);
    assert_eq!(butterworth_order(8), 8);
    assert_eq!(cut_sections(12), 1);
    assert_eq!(cut_sections(18), 2);
    assert_eq!(cut_sections(24), 2);
    assert_eq!(cut_sections(36), 3);
    assert_eq!(cut_sections(48), 4);
}

#[test]
fn revision_moves_once_per_batch() {
    let mut t = ChangeTracker::new();
    assert_eq!(t.revision(), 0);
    t.touch();
    assert_eq!(t.revision(), 1);
    assert_eq!(t.edits(), 1);
    t.begin_batch();
    t.touch();
    t.touch();
    t.touch();
    assert!(t.holding());
    assert_eq!(t.revision(), 1);
    assert_eq!(t.edits(), 4);
    t.end_batch();
    assert!(!t.holding());
    assert_eq!(t.revision(), 2);
}

#[test]
fn inner_batch_defers_to_the_outer() {
    let mut t = ChangeTracker::new();
    t.begin_batch();
    t.begin_batch();
    t.touch();
    t.end_batch();
    assert_eq!(t.revision(), 0);
    t.end_batch();
    assert_eq!(t.revision(), 1);
}

#[test]
fn empty_batch_leaves_revision() {
    let mut t = ChangeTracker::new();
    t.touch();
    t.begin_batch();
    t.end_batch();
    assert_eq!(t.revision(), 1);
    assert_eq!(t.edits(), 1);
}

#[test]
fn band_ids_count_up_from_one() {
    let mut ids = BandIds::new();
    assert_eq!(ids.issue(), BandId(1));
    assert_eq!(ids.issue(), BandId(2));
    assert_eq!(ids.issue(), BandId(3));
}

#[test]
fn ab_starts_inactive() {
    let ab: AbSides<u32> = AbSides::new();
    assert!(!ab.active());
    assert!(!ab.on_b());
    assert_eq!(ab.a_name(), None);
    assert_eq!(ab.b_name(), None);
    assert_eq!(ab.parked(), None);
}

#[test]
fn ab_switch_and_back() {
    let mut ab: AbSides<u32> = AbSides::new();
    ab.name_current(Some("Mine".to_string()));
    ab.park_b(7, Some("Theirs".to_string()));
    assert!(ab.active());
    assert_eq!(ab.live_label(), "A");
    assert_eq!(ab.a_name().map(|s| s.as_str()), Some("Mine"));
    assert_eq!(ab.b_name().map(|s| s.as_str()), Some("Theirs"));

    // switching to B hands back B and parks the live A
    let got = ab.switch_to(true, 1);
    assert_eq!(got, Some(7));
    assert!(ab.on_b());
    assert_eq!(ab.live_label(), "B");
    assert_eq!(ab.current_name().map(|s| s.as_str()), Some("Theirs"));
    assert_eq!(ab.a_name().map(|s| s.as_str()), Some("Mine"));
    assert_eq!(ab.b_name().map(|s| s.as_str()), Some("Theirs"));
    assert_eq!(ab.parked(), Some(&1));

    // switching to B again does nothing
    assert_eq!(ab.switch_to(true, 99), None);
    assert_eq!(ab.parked(), Some(&1));

    // and back: the snapshot of A comes back
    assert_eq!(ab.switch_to(false, 8), Some(1));
    assert!(!ab.on_b());
    assert_eq!(ab.current_name().map(|s| s.as_str()), Some("Mine"));
    assert_eq!(ab.parked(), Some(&8));
}

#[test]
fn ab_clear_drops_b() {
    let mut ab: AbSides<u32> = AbSides::new();
    ab.park_b(3, None);
    assert!(ab.active());
    ab.clear();
    assert!(!ab.active());
    assert_eq!(ab.switch_to(true, 5), None);
}

#[test]
fn sides_without_a_name_are_the_working_eq() {
    assert_eq!(side_name(Some("Warm")), "Warm");
    assert_eq!(side_name(Some("")), "working EQ");
    assert_eq!(side_name(None), "working EQ");
}

#[test]
fn batch_depth_and_next_id() {
    let mut t = ChangeTracker::new();
    assert_eq!(t.batch_depth(), 0);
    t.begin_batch();
    t.begin_batch();
    assert_eq!(t.batch_depth(), 2);
    t.end_batch();
    assert_eq!(t.batch_depth(), 1);
    let mut ids = BandIds::new();
    assert_eq!(ids.peek(), 1);
    ids.issue();
    assert_eq!(ids.peek(), 2);
}

use heq_core::model::bands::BandList;

#[test]
fn band_list_hands_out_fresh_ids() {
    let mut l: BandList<&str> = BandList::new();
    assert_eq!(l.next_id(), 1);
    let a = l.push("a");
    let b = l.push("b");
    let c = l.push("c");
    assert_eq!((a, b, c), (BandId(1), BandId(2), BandId(3)));
    assert_eq!(l.ids(), &vec![a, b, c]);
    assert_eq!(l.index_of(b), Some(1));

    assert!(l.remove(b));
    assert!(!l.remove(b));
    assert_eq!(l.ids(), &vec![a, c]);
    assert_eq!(l.items(), &vec!["a", "c"]);
    assert_eq!(l.index_of(b), None);

    // a removed id is not handed out again
    let d = l.push("d");
    assert_eq!(d, BandId(4));

    l.set(0, "A");
    assert_eq!(l.items(), &vec!["A", "c", "d"]);
    assert_eq!(l.ids(), &vec![a, c, d]);

    l.clear();
    assert!(l.items().is_empty());
    assert_eq!(l.push("e"), BandId(5));
}

#[test]
fn nested_batches_move_the_revision_once() {
    let mut t = ChangeTracker::new();
    t.begin_batch();
    t.touch();
    t.begin_batch();
    t.touch();
    t.begin_batch();
    t.end_batch();
    t.end_batch();
    t.touch();
    assert_eq!(t.revision(), 0);
    t.end_batch();
    assert_eq!(t.revision(), 1);
    assert_eq!(t.edits(), 3);
}

#[test]
fn clicks_on_the_curve() {
    let a = BandId(1);
    let b = BandId(2);
    assert_eq!(press(Some(a), false, false), Press::Drag { band: a, q: false });
    assert_eq!(press(Some(a), false, true), Press::Drag { band: a, q: true });
    assert_eq!(press(Some(a), true, true), Press::Toggle(a));
    assert_eq!(press(None, true, false), Press::Add { q: false });
    assert_eq!(press(None, false, true), Press::Add { q: true });
    assert_eq!(double_click(Some(a), None), Some(a));
    assert_eq!(double_click(Some(a), Some(b)), Some(a));
    assert_eq!(double_click(Some(a), Some(a)), None);
    assert_eq!(double_click(None, Some(a)), None);
}

#[test]
fn scrolling_steps_the_slope() {
    assert_eq!(stepped_slope(12, 1), 24);
    assert_eq!(stepped_slope(24, 2), 48);
    assert_eq!(stepped_slope(36, 5), 48);
    assert_eq!(stepped_slope(48, -1), 36);
    assert_eq!(stepped_slope(24, -7), 12);
    assert_eq!(stepped_slope(18, 1), 24);
    assert_eq!(stepped_slope(18, 0), 12);
    assert_eq!(stepped_slope(36, i32::MIN), 12);
    assert_eq!(stepped_slope(24, -1), 12);
    assert_eq!(stepped_slope(stepped_slope(24, 2), -2), 24);
}
