//! User-tweakable settings persisted across runs, and how a fresh install is
//! seeded.

use vstd::prelude::*;
use crate::dashboard::{WidgetEntry, default_entry, default_layout};
use crate::widgets::kind_id;

verus! {

/// The pseudo-tab that shows the widget dashboard. No panel is named this.
pub open spec fn dashboard_tab_name() -> Seq<char> {
    seq!['D', 'a', 's', 'h', 'b', 'o', 'a', 'r', 'd']
}

/// The name of the dashboard's tab.
pub fn dashboard_tab() -> (res: &'static str)
    ensures
        res@ == dashboard_tab_name(),
{
    proof {
        reveal_strlit("Dashboard");
        assert("Dashboard"@ =~= dashboard_tab_name());
    }
    "Dashboard"
}

/// User-tweakable settings.
pub struct Settings {
    /// Milliseconds between refreshes.
    pub refresh_ms: u64,
    pub paused: bool,
    /// Names of the panels the user has hidden.
    pub hidden: Vec<String>,
    /// User-defined tab order, by panel name.
    pub panel_order: Vec<String>,
    /// The last-selected tab.
    pub active_tab: Option<String>,
    /// Dashboard layout; vec order is display order.
    pub widgets: Vec<WidgetEntry>,
}

impl Default for Settings {
    /// Refresh every 1.5 s, not paused, nothing hidden or reordered, no tab
    /// remembered, no widgets.
    fn default() -> (s: Self)
        ensures
            s.refresh_ms == 1500,
            !s.paused,
            s.hidden@.len() == 0,
            s.panel_order@.len() == 0,
            s.active_tab is None,
            s.widgets@.len() == 0,
    {
        Settings {
            refresh_ms: 1500,
            paused: false,
            hidden: Vec::new(),
            panel_order: Vec::new(),
            active_tab: None,
            widgets: Vec::new(),
        }
    }
}

impl Settings {
    /// Fresh install: seeds the default dashboard when there are no widgets,
    /// and opens on the dashboard when no tab is remembered.
    pub fn seed_first_run(&mut self)
        ensures
            old(self).widgets@.len() == 0 ==> {
                &&& final(self).widgets@.len() == 4
                &&& forall|i: int|
                    0 <= i < 4 ==> {
                        &&& (#[trigger] final(self).widgets@[i]).kind@ == kind_id(default_entry(i).0)
                        &&& final(self).widgets@[i].id == default_entry(i).1
                        &&& final(self).widgets@[i].size == default_entry(i).2
                    }
            },
            old(self).widgets@.len() > 0 ==> final(self).widgets == old(self).widgets,
            old(self).active_tab is None ==> (final(self).active_tab matches Some(t) && t@ == dashboard_tab_name()),
            old(self).active_tab is Some ==> final(self).active_tab == old(self).active_tab,
            final(self).refresh_ms == old(self).refresh_ms,
            final(self).paused == old(self).paused,
            final(self).hidden == old(self).hidden,
            final(self).panel_order == old(self).panel_order,
    {
        if self.widgets.len() == 0 {
            self.widgets = default_layout();
        }
        if self.active_tab.is_none() {
            self.active_tab = Some(String::from_str(dashboard_tab()));
        }
    }

    /// Whether the dashboard is the active tab.
    pub fn dashboard_active(&self) -> (res: bool)
        ensures
            res == (self.active_tab matches Some(t) && t@ == dashboard_tab_name()),
    {
        match &self.active_tab {
            Some(t) => crate::text::str_eq(t.as_str(), dashboard_tab()),
            None => false,
        }
    }
}

} // verus!
