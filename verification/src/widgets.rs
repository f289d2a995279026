//! The widget and panel catalogue: size classes and their grid footprints,
//! the registry of widget kinds, and the default set of panels.

use vstd::prelude::*;
use crate::text::str_eq;

verus! {

/// The size classes a widget can occupy, expressed as a footprint on the
/// dashboard's square-cell grid. The first entry a kind lists is its default.
#[derive(Clone, Copy, PartialEq, Eq, Debug, Structural)]
pub enum WidgetSize {
    Small,
    Medium,
    Large,
}

/// Footprint in grid cells as `(width, height)`: Small 1x1, Medium 2x1,
/// Large 2x2.
pub open spec fn size_cells(size: WidgetSize) -> (u8, u8) {
    match size {
        WidgetSize::Small => (1, 1),
        WidgetSize::Medium => (2, 1),
        WidgetSize::Large => (2, 2),
    }
}

impl WidgetSize {
    /// Footprint in grid cells as `(width, height)`.
    pub fn cells(self) -> (res: (u8, u8))
        ensures
            res == size_cells(self),
    {
        match self {
            WidgetSize::Small => (1, 1),
            WidgetSize::Medium => (2, 1),
            WidgetSize::Large => (2, 2),
        }
    }
}

/// The widget kinds this build knows.
#[derive(Clone, Copy, PartialEq, Eq, Debug, Structural)]
pub enum WidgetKind {
    Cpu,
    Memory,
    Network,
    System,
}

/// A kind's stable registry id, used to persist layouts.
pub open spec fn kind_id(kind: WidgetKind) -> Seq<char> {
    match kind {
        WidgetKind::Cpu => seq!['c', 'p', 'u'],
        WidgetKind::Memory => seq!['m', 'e', 'm', 'o', 'r', 'y'],
        WidgetKind::Network => seq!['n', 'e', 't', 'w', 'o', 'r', 'k'],
        WidgetKind::System => seq!['s', 'y', 's', 't', 'e', 'm'],
    }
}

/// The kind a registry id names, if any.
pub open spec fn kind_of(id: Seq<char>) -> Option<WidgetKind> {
    if id == kind_id(WidgetKind::Cpu) {
        Some(WidgetKind::Cpu)
    } else if id == kind_id(WidgetKind::Memory) {
        Some(WidgetKind::Memory)
    } else if id == kind_id(WidgetKind::Network) {
        Some(WidgetKind::Network)
    } else if id == kind_id(WidgetKind::System) {
        Some(WidgetKind::System)
    } else {
        None
    }
}

/// The panel a kind's card opens when clicked.
pub open spec fn kind_panel(kind: WidgetKind) -> PanelKind {
    match kind {
        WidgetKind::Cpu => PanelKind::Cpu,
        WidgetKind::Memory => PanelKind::Memory,
        WidgetKind::Network => PanelKind::Network,
        WidgetKind::System => PanelKind::System,
    }
}

/// The size classes a kind supports, default first.
pub open spec fn kind_sizes(kind: WidgetKind) -> Seq<WidgetSize> {
    match kind {
        WidgetKind::Cpu => seq![WidgetSize::Small, WidgetSize::Medium, WidgetSize::Large],
        _ => seq![WidgetSize::Small, WidgetSize::Medium],
    }
}

/// The title shown in a kind's card header.
pub open spec fn kind_title(kind: WidgetKind) -> Seq<char> {
    match kind {
        WidgetKind::Cpu => seq!['C', 'P', 'U'],
        WidgetKind::Memory => seq!['M', 'e', 'm', 'o', 'r', 'y'],
        WidgetKind::Network => seq!['N', 'e', 't', 'w', 'o', 'r', 'k'],
        WidgetKind::System => seq!['U', 'p', 't', 'i', 'm', 'e'],
    }
}

impl WidgetKind {
    /// Looks up a registry id, or `None` if the id is unknown to this build
    /// (layouts saved by newer builds are skipped, not rejected).
    pub fn lookup(id: &str) -> (res: Option<WidgetKind>)
        ensures
            res == kind_of(id@),
    {
        proof {
            reveal_strlit("cpu");
            reveal_strlit("memory");
            reveal_strlit("network");
            reveal_strlit("system");
            assert("cpu"@ =~= kind_id(WidgetKind::Cpu));
            assert("memory"@ =~= kind_id(WidgetKind::Memory));
            assert("network"@ =~= kind_id(WidgetKind::Network));
            assert("system"@ =~= kind_id(WidgetKind::System));
        }
        if str_eq(id, "cpu") {
            Some(WidgetKind::Cpu)
        } else if str_eq(id, "memory") {
            Some(WidgetKind::Memory)
        } else if str_eq(id, "network") {
            Some(WidgetKind::Network)
        } else if str_eq(id, "system") {
            Some(WidgetKind::System)
        } else {
            None
        }
    }

    /// Stable kind id, e.g. "cpu".
    pub fn id(self) -> (res: &'static str)
        ensures
            res@ == kind_id(self),
    {
        proof {
            reveal_strlit("cpu");
            reveal_strlit("memory");
            reveal_strlit("network");
            reveal_strlit("system");
        }
        match self {
            WidgetKind::Cpu => "cpu",
            WidgetKind::Memory => "memory",
            WidgetKind::Network => "network",
            WidgetKind::System => "system",
        }
    }

    /// Title shown in the card header.
    pub fn title(self) -> (res: String)
        ensures
            res@ == kind_title(self),
    {
        proof {
            reveal_strlit("CPU");
            reveal_strlit("Memory");
            reveal_strlit("Network");
            reveal_strlit("Uptime");
        }
        match self {
            WidgetKind::Cpu => String::from_str("CPU"),
            WidgetKind::Memory => String::from_str("Memory"),
            WidgetKind::Network => String::from_str("Network"),
            WidgetKind::System => String::from_str("Uptime"),
        }
    }

    /// Size classes this kind supports (first = default).
    pub fn supported_sizes(self) -> (res: Vec<WidgetSize>)
        ensures
            res@ == kind_sizes(self),
    {
        match self {
            WidgetKind::Cpu => vec![WidgetSize::Small, WidgetSize::Medium, WidgetSize::Large],
            _ => vec![WidgetSize::Small, WidgetSize::Medium],
        }
    }

    /// The panel to open when the kind's card is clicked.
    pub fn linked_panel(self) -> (res: PanelKind)
        ensures
            res == kind_panel(self),
            panel_name(res) == linked_panel_name(self),
    {
        proof {
            lemma_linked_panel_same_subject(self);
        }
        match self {
            WidgetKind::Cpu => PanelKind::Cpu,
            WidgetKind::Memory => PanelKind::Memory,
            WidgetKind::Network => PanelKind::Network,
            WidgetKind::System => PanelKind::System,
        }
    }
}

/// The full-size panels of the monitor.
#[derive(Clone, Copy, PartialEq, Eq, Debug, Structural)]
pub enum PanelKind {
    System,
    Cpu,
    Memory,
    Network,
    Processes,
    Temps,
    Gpu,
    Storage,
    Disks,
}

/// The heading (and tab name) of a panel.
pub open spec fn panel_name(kind: PanelKind) -> Seq<char> {
    match kind {
        PanelKind::System => seq!['S', 'y', 's', 't', 'e', 'm'],
        PanelKind::Cpu => seq!['C', 'P', 'U'],
        PanelKind::Memory => seq!['M', 'e', 'm', 'o', 'r', 'y'],
        PanelKind::Network => seq!['N', 'e', 't', 'w', 'o', 'r', 'k'],
        PanelKind::Processes => seq!['T', 'o', 'p', ' ', 'p', 'r', 'o', 'c', 'e', 's', 's', 'e', 's'],
        PanelKind::Temps => seq!['T', 'e', 'm', 'p', 'e', 'r', 'a', 't', 'u', 'r', 'e', 's'],
        PanelKind::Gpu => seq!['G', 'P', 'U'],
        PanelKind::Storage => seq!['S', 't', 'o', 'r', 'a', 'g', 'e'],
        PanelKind::Disks => seq!['D', 'i', 's', 'k', 's'],
    }
}

/// The default set of panels, in display order.
pub open spec fn default_panel_seq() -> Seq<PanelKind> {
    seq![
        PanelKind::System,
        PanelKind::Cpu,
        PanelKind::Memory,
        PanelKind::Network,
        PanelKind::Processes,
        PanelKind::Temps,
        PanelKind::Gpu,
        PanelKind::Storage,
    ]
}

impl PanelKind {
    /// Heading shown above the panel.
    pub fn name(self) -> (res: &'static str)
        ensures
            res@ == panel_name(self),
    {
        proof {
            reveal_strlit("System");
            reveal_strlit("CPU");
            reveal_strlit("Memory");
            reveal_strlit("Network");
            reveal_strlit("Top processes");
            reveal_strlit("Temperatures");
            reveal_strlit("GPU");
            reveal_strlit("Storage");
            reveal_strlit("Disks");
        }
        match self {
            PanelKind::System => "System",
            PanelKind::Cpu => "CPU",
            PanelKind::Memory => "Memory",
            PanelKind::Network => "Network",
            PanelKind::Processes => "Top processes",
            PanelKind::Temps => "Temperatures",
            PanelKind::Gpu => "GPU",
            PanelKind::Storage => "Storage",
            PanelKind::Disks => "Disks",
        }
    }
}

/// The default set of panels, in display order.
pub fn default_panels() -> (res: Vec<PanelKind>)
    ensures
        res@ == default_panel_seq(),
{
    vec![
        PanelKind::System,
        PanelKind::Cpu,
        PanelKind::Memory,
        PanelKind::Network,
        PanelKind::Processes,
        PanelKind::Temps,
        PanelKind::Gpu,
        PanelKind::Storage,
    ]
}

/// Every registry id leads back to its kind.
pub proof fn lemma_kind_id_roundtrip(kind: WidgetKind)
    ensures
        kind_of(kind_id(kind)) == Some(kind),
{
    match kind {
        WidgetKind::Cpu => {},
        WidgetKind::Memory => {
            assert(kind_id(WidgetKind::Memory) != kind_id(WidgetKind::Cpu));
        },
        WidgetKind::Network => {
            assert(kind_id(WidgetKind::Network) != kind_id(WidgetKind::Cpu));
            assert(kind_id(WidgetKind::Network) != kind_id(WidgetKind::Memory));
        },
        WidgetKind::System => {
            assert(kind_id(WidgetKind::System) != kind_id(WidgetKind::Cpu));
            assert(kind_id(WidgetKind::System)[0] != kind_id(WidgetKind::Memory)[0]);
            assert(kind_id(WidgetKind::System) != kind_id(WidgetKind::Network));
        },
    }
}

/// Clicking any widget opens a panel that the monitor shows by default, and
/// that panel's tab carries the name the widget links to.
pub proof fn lemma_linked_panel_exists(kind: WidgetKind)
    ensures
        default_panel_seq().contains(kind_panel(kind)),
{
    let s = default_panel_seq();
    match kind {
        WidgetKind::Cpu => assert(s[1] == PanelKind::Cpu),
        WidgetKind::Memory => assert(s[2] == PanelKind::Memory),
        WidgetKind::Network => assert(s[3] == PanelKind::Network),
        WidgetKind::System => assert(s[0] == PanelKind::System),
    }
}

/// Each kind's default size (its first supported size) is among its sizes,
/// and every kind supports Small and Medium.
pub proof fn lemma_kind_sizes(kind: WidgetKind)
    ensures
        kind_sizes(kind).len() >= 2,
        kind_sizes(kind)[0] == WidgetSize::Small,
        kind_sizes(kind)[1] == WidgetSize::Medium,
{
}

/// The name of the panel about the same subject as a kind's card: the card's
/// own title, except the uptime card, which belongs to the System panel.
pub open spec fn linked_panel_name(kind: WidgetKind) -> Seq<char> {
    if kind == WidgetKind::System {
        seq!['S', 'y', 's', 't', 'e', 'm']
    } else {
        kind_title(kind)
    }
}

/// Clicking a card opens the panel about the same subject: the CPU card the
/// CPU panel, the Memory card the Memory panel, the Network card the Network
/// panel, and the uptime card the System panel.
pub proof fn lemma_linked_panel_same_subject(kind: WidgetKind)
    ensures
        panel_name(kind_panel(kind)) == linked_panel_name(kind),
{
    match kind {
        WidgetKind::Cpu => assert(panel_name(kind_panel(kind)) =~= kind_title(kind)),
        WidgetKind::Memory => assert(panel_name(kind_panel(kind)) =~= kind_title(kind)),
        WidgetKind::Network => assert(panel_name(kind_panel(kind)) =~= kind_title(kind)),
        WidgetKind::System => {},
    }
}

} // verus!
