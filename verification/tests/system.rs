use sysmon::system::{format_uptime, SystemWidget};

#[test]
fn formats_uptime_spans() {
    assert_eq!(format_uptime(0), "0m");
    assert_eq!(format_uptime(90), "1m");
    assert_eq!(format_uptime(3_661), "1h 1m");
    assert_eq!(format_uptime(90_061), "1d 1h 1m");
}

#[test]
fn uptime_keeps_zero_units_after_the_first() {
    assert_eq!(format_uptime(86_400), "1d 0h 0m");
    assert_eq!(format_uptime(3_600), "1h 0m");
    assert_eq!(format_uptime(59), "0m");
    assert_eq!(format_uptime(u64::MAX), "213503982334601d 7h 0m");
}

#[test]
fn system_facts_fill_in_unknowns() {
    let mut w = SystemWidget::new();
    w.refresh(None, Some("Linux".to_string()), None, Some("6.1".to_string()), 3_661);
    assert_eq!(w.host, "unknown");
    assert_eq!(w.os, "Linux ");
    assert_eq!(w.kernel, "6.1");
    assert_eq!(w.uptime_text(), "1h 1m");
    w.refresh(Some("box".to_string()), None, Some("11".to_string()), None, 0);
    assert_eq!(w.host, "box");
    assert_eq!(w.os, "unknown 11");
    assert_eq!(w.kernel, "unknown");
}
