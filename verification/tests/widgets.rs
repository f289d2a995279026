use sysmon::widgets::{default_panels, PanelKind, WidgetKind, WidgetSize};

#[test]
fn size_classes_have_their_footprints() {
    assert_eq!(WidgetSize::Small.cells(), (1, 1));
    assert_eq!(WidgetSize::Medium.cells(), (2, 1));
    assert_eq!(WidgetSize::Large.cells(), (2, 2));
}

#[test]
fn registry_knows_its_kinds_and_skips_others() {
    assert_eq!(WidgetKind::lookup("cpu"), Some(WidgetKind::Cpu));
    assert_eq!(WidgetKind::lookup("memory"), Some(WidgetKind::Memory));
    assert_eq!(WidgetKind::lookup("network"), Some(WidgetKind::Network));
    assert_eq!(WidgetKind::lookup("system"), Some(WidgetKind::System));
    assert_eq!(WidgetKind::lookup("clock"), None);
    assert_eq!(WidgetKind::lookup("CPU"), None);
    assert_eq!(WidgetKind::lookup(""), None);
}

#[test]
fn every_kind_id_round_trips() {
    for k in [WidgetKind::Cpu, WidgetKind::Memory, WidgetKind::Network, WidgetKind::System] {
        assert_eq!(WidgetKind::lookup(k.id()), Some(k));
    }
}

#[test]
fn kinds_carry_titles_sizes_and_links() {
    assert_eq!(WidgetKind::System.title(), "Uptime");
    assert_eq!(WidgetKind::Cpu.title(), "CPU");
    assert_eq!(
        WidgetKind::Cpu.supported_sizes(),
        vec![WidgetSize::Small, WidgetSize::Medium, WidgetSize::Large]
    );
    assert_eq!(WidgetKind::Network.supported_sizes(), vec![WidgetSize::Small, WidgetSize::Medium]);
    assert_eq!(WidgetKind::System.linked_panel().name(), "System");
    assert_eq!(WidgetKind::Memory.linked_panel(), PanelKind::Memory);
}

#[test]
fn linked_panels_are_default_panels() {
    let panels = default_panels();
    for k in [WidgetKind::Cpu, WidgetKind::Memory, WidgetKind::Network, WidgetKind::System] {
        assert!(panels.contains(&k.linked_panel()));
    }
}

#[test]
fn default_panel_names_in_order() {
    let names: Vec<&str> = default_panels().into_iter().map(|p| p.name()).collect();
    assert_eq!(
        names,
        vec!["System", "CPU", "Memory", "Network", "Top processes", "Temperatures", "GPU", "Storage"]
    );
    assert_eq!(PanelKind::Disks.name(), "Disks");
}
