use orbits::schedule::UpdateQueue;
use orbits::settings::{Gui, TimeScale};

#[test]
fn queue_refuses_duplicates() {
    let mut q = UpdateQueue::new();
    assert!(q.push_back(7));
    assert!(q.push_back(3));
    assert!(!q.push_back(7));
    assert_eq!(q.len(), 2);
    assert!(q.contains(3));
    assert!(!q.contains(4));
}

#[test]
fn empty_queue_rebuilds_nothing() {
    let mut q = UpdateQueue::new();
    assert_eq!(q.next_to_rebuild(), None);
    assert_eq!(q.len(), 0);
}

#[test]
fn each_body_is_rebuilt_once_per_round() {
    let mut q = UpdateQueue::new();
    let ids = [11u64, 4, 27, 9, 13];
    for id in ids {
        assert!(q.push_back(id));
    }
    let mut served = Vec::new();
    for _ in 0..ids.len() {
        served.push(q.next_to_rebuild().unwrap());
    }
    assert_eq!(served, ids.to_vec());
    // the next round starts over in the same order
    assert_eq!(q.next_to_rebuild(), Some(11));
    assert_eq!(q.next_to_rebuild(), Some(4));
    assert_eq!(q.len(), 5);
}

#[test]
fn time_scales_in_seconds() {
    assert_eq!(TimeScale::Day.to_seconds(), 86_400);
    assert_eq!(TimeScale::Month.to_seconds(), 2_629_800);
    assert_eq!(TimeScale::Year.to_seconds(), 31_557_600);
}

#[test]
fn default_settings() {
    let g = Gui::default();
    assert!(g.open);
    assert!(!g.show_performance);
    assert_eq!(g.time_scale, TimeScale::Day);
    assert!(g.show_orbits);
}
