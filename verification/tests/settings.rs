use sysmon::settings::{dashboard_tab, Settings};

#[test]
fn defaults_refresh_every_one_and_a_half_seconds() {
    let s = Settings::default();
    assert_eq!(s.refresh_ms, 1500);
    assert!(!s.paused);
    assert!(s.hidden.is_empty() && s.panel_order.is_empty() && s.widgets.is_empty());
    assert!(s.active_tab.is_none());
    assert!(!s.dashboard_active());
}

#[test]
fn fresh_install_opens_on_default_dashboard() {
    let mut s = Settings::default();
    s.seed_first_run();
    assert_eq!(s.widgets.len(), 4);
    assert_eq!(s.active_tab.as_deref(), Some("Dashboard"));
    assert!(s.dashboard_active());
    assert_eq!(dashboard_tab(), "Dashboard");
}

#[test]
fn existing_layout_and_tab_are_kept() {
    let mut s = Settings::default();
    s.active_tab = Some("CPU".to_string());
    s.widgets = sysmon::dashboard::default_layout();
    s.widgets.truncate(1);
    s.seed_first_run();
    assert_eq!(s.widgets.len(), 1);
    assert_eq!(s.active_tab.as_deref(), Some("CPU"));
    assert!(!s.dashboard_active());
}
