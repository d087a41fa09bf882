//! The tabs of the desktop window.

use vstd::prelude::*;
use crate::models::DeviceWithStats;
use crate::text::{chars_of, string_of};

verus! {

/// Available tabs in the application
#[derive(Debug, Clone, Copy, PartialEq, Eq, Structural)]
pub enum Tab {
    ScanMap,
    Jobs,
    Scans,
    Devices,
    Team,
    Timesheets,
    Approvals,
    Email,
    Settings,
}

impl Tab {
    /// The tab the window opens on.
    pub fn initial() -> (r: Tab)
        ensures
            r == Tab::Scans,
    {
        Tab::Scans
    }

    /// The name on the tab's button.
    pub fn title(&self) -> (r: String)
        ensures
            r@ == match *self {
                Tab::ScanMap => "Map"@,
                Tab::Jobs => "Jobs"@,
                Tab::Scans => "Scans"@,
                Tab::Devices => "Devices"@,
                Tab::Team => "Team"@,
                Tab::Timesheets => "Timesheets"@,
                Tab::Approvals => "Approvals"@,
                Tab::Email => "Email"@,
                Tab::Settings => "Settings"@,
            },
    {
        let s = match self {
            Tab::ScanMap => "Map",
            Tab::Jobs => "Jobs",
            Tab::Scans => "Scans",
            Tab::Devices => "Devices",
            Tab::Team => "Team",
            Tab::Timesheets => "Timesheets",
            Tab::Approvals => "Approvals",
            Tab::Email => "Email",
            Tab::Settings => "Settings",
        };
        string_of(&chars_of(s))
    }

    /// The icon before the tab's name on its button.
    pub fn icon(&self) -> (r: String)
        ensures
            r@ == match *self {
                Tab::ScanMap => "🗺"@,
                Tab::Jobs => "📋"@,
                Tab::Scans => "📊"@,
                Tab::Devices => "📱"@,
                Tab::Team => "👥"@,
                Tab::Timesheets => "📋"@,
                Tab::Approvals => "⚡"@,
                Tab::Email => "✉"@,
                Tab::Settings => "⚙"@,
            },
    {
        let s = match self {
            Tab::ScanMap => "🗺",
            Tab::Jobs => "📋",
            Tab::Scans => "📊",
            Tab::Devices => "📱",
            Tab::Team => "👥",
            Tab::Timesheets => "📋",
            Tab::Approvals => "⚡",
            Tab::Email => "✉",
            Tab::Settings => "⚙",
        };
        string_of(&chars_of(s))
    }

    /// The tabs of the navigation bar from the left; the last one,
    /// Settings, stands apart on the right.
    pub fn navigation() -> (r: Vec<Tab>)
        ensures
            r@ == seq![
                Tab::Scans,
                Tab::Jobs,
                Tab::Devices,
                Tab::Team,
                Tab::Timesheets,
                Tab::ScanMap,
                Tab::Email,
                Tab::Approvals,
                Tab::Settings,
            ],
    {
        vec![
            Tab::Scans,
            Tab::Jobs,
            Tab::Devices,
            Tab::Team,
            Tab::Timesheets,
            Tab::ScanMap,
            Tab::Email,
            Tab::Approvals,
            Tab::Settings,
        ]
    }
}

/// A click on a tab's button makes it the current tab; the result says
/// whether it was clicked.
pub fn click_tab(current: &mut Tab, tab: Tab, clicked: bool) -> (r: bool)
    ensures
        r == clicked,
        *final(current) == if clicked {
            tab
        } else {
            *old(current)
        },
{
    if clicked {
        *current = tab;
    }
    clicked
}

/// Whether the cached data is read again: when asked for, when it was never
/// read, or when it was read five seconds ago or more.
pub fn refresh_due(needs_refresh: bool, secs_since_refresh: Option<u64>) -> (r: bool)
    ensures
        r == (needs_refresh || match secs_since_refresh {
            Some(s) => s >= 5,
            None => true,
        }),
{
    let stale = match secs_since_refresh {
        Some(s) => s >= 5,
        None => true,
    };
    needs_refresh || stale
}

pub open spec fn online_in(ds: Seq<DeviceWithStats>) -> nat
    decreases ds.len(),
{
    if ds.len() == 0 {
        0
    } else {
        online_in(ds.drop_last()) + if ds.last().is_online {
            1nat
        } else {
            0nat
        }
    }
}

/// The number of devices that are online, for the status bar.
pub fn online_count(devices: &Vec<DeviceWithStats>) -> (r: usize)
    ensures
        r == online_in(devices@),
{
    let mut n: usize = 0;
    let mut i: usize = 0;
    while i < devices.len()
        invariant
            i <= devices@.len(),
            n == online_in(devices@.take(i as int)),
            n <= i,
        decreases devices@.len() - i,
    {
        assert(devices@.take(i + 1).drop_last() =~= devices@.take(i as int));
        if devices[i].is_online {
            n = n + 1;
        }
        i = i + 1;
    }
    assert(devices@.take(i as int) =~= devices@);
    n
}

/// A colour as red, green and blue.
pub type Rgb = (u8, u8, u8);

/// The colours of the window.
#[derive(Debug, Clone, Copy, PartialEq, Eq)]
pub struct Theme {
    pub primary: Rgb,
    pub primary_dark: Rgb,
    pub accent: Rgb,
    pub success: Rgb,
    pub warning: Rgb,
    pub error: Rgb,
    pub surface: Rgb,
    pub surface_variant: Rgb,
    pub on_surface: Rgb,
    pub muted: Rgb,
}

impl Default for Theme {
    fn default() -> (r: Theme)
        ensures
            r.primary == (99u8, 102u8, 241u8),
            r.primary_dark == (79u8, 70u8, 229u8),
            r.accent == (139u8, 92u8, 246u8),
            r.success == (34u8, 197u8, 94u8),
            r.warning == (251u8, 191u8, 36u8),
            r.error == (239u8, 68u8, 68u8),
            r.surface == (30u8, 30u8, 46u8),
            r.surface_variant == (45u8, 45u8, 65u8),
            r.on_surface == (226u8, 232u8, 240u8),
            r.muted == (148u8, 163u8, 184u8),
    {
        Theme {
            primary: (99, 102, 241),
            primary_dark: (79, 70, 229),
            accent: (139, 92, 246),
            success: (34, 197, 94),
            warning: (251, 191, 36),
            error: (239, 68, 68),
            surface: (30, 30, 46),
            surface_variant: (45, 45, 65),
            on_surface: (226, 232, 240),
            muted: (148, 163, 184),
        }
    }
}

} // verus!
