use sysmon::tabs::{is_hidden, move_tab, resolve_active, saved_order, set_shown, should_refresh, visible_indices};

fn strings(v: &[&str]) -> Vec<String> {
    v.iter().map(|s| s.to_string()).collect()
}

#[test]
fn hiding_and_showing_panels() {
    let mut hidden = strings(&["GPU"]);
    assert!(is_hidden(&hidden, "GPU"));
    assert!(!is_hidden(&hidden, "CPU"));
    set_shown(&mut hidden, "CPU".to_string(), false);
    assert_eq!(hidden, strings(&["GPU", "CPU"]));
    set_shown(&mut hidden, "CPU".to_string(), false);
    set_shown(&mut hidden, "CPU".to_string(), true);
    assert_eq!(hidden, strings(&["GPU"]));
}

#[test]
fn visible_panels_skip_hidden_ones() {
    let names = strings(&["System", "CPU", "Memory", "GPU"]);
    assert_eq!(visible_indices(&names, &strings(&["CPU", "GPU"])), vec![0, 2]);
    assert_eq!(visible_indices(&names, &[]), vec![0, 1, 2, 3]);
}

#[test]
fn active_tab_falls_back_to_first_visible() {
    let visible = strings(&["System", "CPU"]);
    assert_eq!(resolve_active(Some("CPU".to_string()), &visible), Some("CPU".to_string()));
    assert_eq!(resolve_active(Some("GPU".to_string()), &visible), Some("System".to_string()));
    assert_eq!(resolve_active(None, &visible), Some("System".to_string()));
    assert_eq!(resolve_active(Some("CPU".to_string()), &[]), None);
}

#[test]
fn dropping_a_tab_moves_it_before_the_target() {
    let mut tabs = vec!['a', 'b', 'c', 'd'];
    assert!(move_tab(&mut tabs, 0, 2)); // drop before 'c'
    assert_eq!(tabs, vec!['b', 'a', 'c', 'd']);
    assert!(move_tab(&mut tabs, 3, 0)); // drop before 'b'
    assert_eq!(tabs, vec!['d', 'b', 'a', 'c']);
    assert!(move_tab(&mut tabs, 0, 4)); // drop after the last
    assert_eq!(tabs, vec!['b', 'a', 'c', 'd']);
    assert!(!move_tab(&mut tabs, 4, 0));
    assert_eq!(tabs, vec!['b', 'a', 'c', 'd']);
}

#[test]
fn saved_order_puts_mentioned_panels_first() {
    let names = strings(&["System", "CPU", "Memory", "Network", "GPU"]);
    let order = strings(&["GPU", "Unknown", "CPU", "GPU"]);
    assert_eq!(saved_order(&names, &order), vec![4, 1, 0, 2, 3]);
    assert_eq!(saved_order(&names, &[]), vec![0, 1, 2, 3, 4]);
}

#[test]
fn refresh_waits_for_interval_unless_paused() {
    assert!(should_refresh(false, 1_500_000_000, 1500));
    assert!(!should_refresh(false, 1_499_999_999, 1500));
    assert!(!should_refresh(true, 9_000_000_000, 1500));
}
