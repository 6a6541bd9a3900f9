use ui_draw::transform::{TransformSet, UiTransform};
use ui_draw::order::DrawUi;

fn tf(z: i64) -> UiTransform {
    UiTransform { x: 0, y: 0, width: 10, height: 10, z }
}

fn ids(ui: &DrawUi) -> Vec<u32> {
    ui.ordered().iter().map(|e| e.id).collect()
}

fn zs(ui: &DrawUi) -> Vec<i64> {
    ui.ordered().iter().map(|e| e.z).collect()
}

#[test]
fn two_frame_insert_keeps_order_and_uniqueness() {
    let mut ui = DrawUi::new(7);
    let mut ts = TransformSet::new();
    ts.insert(1, tf(5));
    ts.insert(2, tf(1));
    ui.maintain(&ts);
    assert_eq!(zs(&ui), vec![5, 1]);
    assert_eq!(ids(&ui), vec![1, 2]);

    ts.insert(3, tf(5));
    ui.maintain(&ts);
    let ids2 = ids(&ui);
    let zs2 = zs(&ui);
    assert_eq!(zs2, vec![5, 5, 1]);
    // ids 1 and 3 share z = 5 and are adjacent, each present exactly once.
    assert_eq!(ids2.len(), 3);
    assert!(ids2[0] == 1 || ids2[0] == 3);
    assert!(ids2[1] == 1 || ids2[1] == 3);
    assert_ne!(ids2[0], ids2[1]);
    assert_eq!(ids2[2], 2);
}

#[test]
fn removal_between_frames_prunes_entry() {
    let mut ui = DrawUi::new(0);
    let mut ts = TransformSet::new();
    ts.insert(1, tf(5));
    ts.insert(2, tf(1));
    ui.maintain(&ts);
    assert!(ids(&ui).contains(&2));

    ts.remove(2);
    ui.maintain(&ts);
    assert_eq!(ids(&ui), vec![1]);
    assert!(!ids(&ui).contains(&2));
}

#[test]
fn membership_equals_transform_set() {
    let mut ui = DrawUi::new(0);
    let mut ts = TransformSet::new();
    for (id, z) in [(4u32, 9i64), (9, -3), (2, 0), (7, 9)] {
        ts.insert(id, tf(z));
    }
    ui.maintain(&ts);
    let got = ids(&ui);
    assert_eq!(got.len(), 4);
    for id in [4u32, 9, 2, 7] {
        assert_eq!(got.iter().filter(|&&x| x == id).count(), 1);
    }
}

#[test]
fn adjacent_pairs_descend() {
    let mut ui = DrawUi::new(0);
    let mut ts = TransformSet::new();
    for (id, z) in [(1u32, 3i64), (2, 8), (3, -5), (4, 8), (5, 0)] {
        ts.insert(id, tf(z));
    }
    ui.maintain(&ts);
    let zlist = zs(&ui);
    for w in zlist.windows(2) {
        assert!(w[0] >= w[1]);
    }
}

#[test]
fn second_pass_is_identical() {
    let mut ui = DrawUi::new(0);
    let mut ts = TransformSet::new();
    for (id, z) in [(1u32, 3i64), (2, 8), (3, -5), (4, 8), (5, 0)] {
        ts.insert(id, tf(z));
    }
    ui.maintain(&ts);
    let first = ui.ordered().clone();
    ui.maintain(&ts);
    assert_eq!(*ui.ordered(), first);
}

#[test]
fn empty_set_empties_cache() {
    let mut ui = DrawUi::new(0);
    let mut ts = TransformSet::new();
    ts.insert(1, tf(5));
    ui.maintain(&ts);
    assert_eq!(ids(&ui).len(), 1);
    ts.remove(1);
    ui.maintain(&ts);
    assert!(ui.ordered().is_empty());
}

#[test]
fn depth_change_reorders_existing_members() {
    let mut ui = DrawUi::new(0);
    let mut ts = TransformSet::new();
    ts.insert(1, tf(5));
    ts.insert(2, tf(1));
    ui.maintain(&ts);
    assert_eq!(ids(&ui), vec![1, 2]);
    // Mutate depth in place between frames; the pass must not read
    // stale keys.
    ts.insert(2, tf(9));
    ui.maintain(&ts);
    assert_eq!(ids(&ui), vec![2, 1]);
    assert_eq!(zs(&ui), vec![9, 5]);
}

#[test]
fn mesh_handle_is_kept() {
    let mut ui = DrawUi::new(42);
    assert_eq!(ui.mesh(), 42);
    let ts = TransformSet::new();
    ui.maintain(&ts);
    assert_eq!(ui.mesh(), 42);
}
