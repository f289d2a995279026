use sysmon::dashboard::{
    cards_from_entries, default_layout, drag_order, drag_step, entries_from_cards, position_of_id, reinsert, Card, WidgetEntry,
};
use sysmon::widgets::{WidgetKind, WidgetSize};

#[test]
fn default_layout_is_cpu_memory_network_uptime() {
    let entries = default_layout();
    let summary: Vec<(String, u64, WidgetSize)> =
        entries.iter().map(|e| (e.kind.clone(), e.id, e.size)).collect();
    assert_eq!(
        summary,
        vec![
            ("cpu".to_string(), 1, WidgetSize::Small),
            ("memory".to_string(), 2, WidgetSize::Small),
            ("network".to_string(), 3, WidgetSize::Medium),
            ("system".to_string(), 4, WidgetSize::Small),
        ]
    );
    assert!(entries.iter().all(|e| e.config.is_null()));
}

fn entry(kind: &str, id: u64) -> WidgetEntry {
    WidgetEntry { kind: kind.to_string(), id, size: WidgetSize::Small, config: serde_json::Value::Null }
}

#[test]
fn unknown_kinds_are_skipped_in_order() {
    let entries = vec![entry("clock", 1), entry("cpu", 2), entry("weather", 3), entry("system", 4)];
    assert_eq!(
        cards_from_entries(&entries),
        vec![
            (1, Card { id: 2, kind: WidgetKind::Cpu, size: WidgetSize::Small }),
            (3, Card { id: 4, kind: WidgetKind::System, size: WidgetSize::Small }),
        ]
    );
    assert!(cards_from_entries(&[]).is_empty());
}

#[test]
fn cards_round_trip_to_the_known_entries() {
    let mut entries = vec![entry("network", 7), entry("clock", 1), entry("memory", 3)];
    entries[0].size = WidgetSize::Medium;
    entries[2].config = serde_json::Value::Bool(true);
    let cards = cards_from_entries(&entries);
    let configs: Vec<serde_json::Value> = cards.iter().map(|(i, _)| entries[*i].config.clone()).collect();
    let plain: Vec<Card> = cards.iter().map(|(_, c)| *c).collect();
    let back = entries_from_cards(&plain, configs);
    let summary: Vec<(String, u64, WidgetSize, serde_json::Value)> =
        back.iter().map(|e| (e.kind.clone(), e.id, e.size, e.config.clone())).collect();
    assert_eq!(
        summary,
        vec![
            ("network".to_string(), 7, WidgetSize::Medium, serde_json::Value::Null),
            ("memory".to_string(), 3, WidgetSize::Small, serde_json::Value::Bool(true)),
        ]
    );
}

#[test]
fn reinsert_moves_an_item() {
    let mut v = vec!['a', 'b', 'c', 'd'];
    reinsert(&mut v, 0, 2);
    assert_eq!(v, vec!['b', 'c', 'a', 'd']);
    reinsert(&mut v, 3, 0);
    assert_eq!(v, vec!['d', 'b', 'c', 'a']);
    reinsert(&mut v, 1, 99);
    assert_eq!(v, vec!['d', 'c', 'a', 'b']);
}

#[test]
fn drag_order_places_dragged_card_at_slot() {
    assert_eq!(drag_order(4, 1, 0), vec![1, 0, 2, 3]);
    assert_eq!(drag_order(4, 1, 2), vec![0, 2, 1, 3]);
    assert_eq!(drag_order(4, 0, 10), vec![1, 2, 3, 0]);
    assert_eq!(drag_order(1, 0, 0), vec![0]);
}

#[test]
fn finds_first_card_with_id() {
    assert_eq!(position_of_id(&[5, 7, 7], 7), Some(1));
    assert_eq!(position_of_id(&[5, 7], 9), None);
    assert_eq!(position_of_id(&[], 1), None);
}

#[test]
fn drag_lifecycle_steps() {
    // A drag starts, goes on, then drops the held card at its slot.
    assert_eq!(drag_step(None, Some(7), false, None, None), (Some(7), None));
    assert_eq!(drag_step(Some(7), None, false, Some(2), Some(0)), (Some(7), None));
    assert_eq!(drag_step(Some(7), None, true, Some(2), Some(0)), (None, Some((2, 0))));
    // A drop with no slot commits nothing; nothing happening keeps no drag.
    assert_eq!(drag_step(Some(7), None, true, Some(2), None), (None, None));
    assert_eq!(drag_step(None, None, false, None, None), (None, None));
}
