//! Verified core of a system monitor: dashboard grid packing, byte and
//! uptime formatting, rolling sample windows, and the decision logic behind
//! tabs, widgets and the storage explorer.

pub mod layout;
pub mod text;
pub mod system;
pub mod charts;
pub mod history;
pub mod widgets;
pub mod dashboard;
pub mod tabs;
pub mod paths;
pub mod explorer;
pub mod mft_scan;
pub mod panels;
pub mod settings;
