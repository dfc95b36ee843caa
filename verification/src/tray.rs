//! What the tray icon shows: its tooltip and its menu, computed from the
//! device list. The tray service itself turns these into its own items.

use vstd::prelude::*;
use crate::bluetooth::DeviceInfo;
use crate::text::{decimal, push_decimal};
use crate::ui::{DeviceFilter, filtered};

verus! {

/// The devices paired with the adapter but not connected, in order.
pub open spec fn paired_disconnected(s: Seq<DeviceInfo>) -> Seq<DeviceInfo>
    decreases s.len(),
{
    if s.len() == 0 {
        s
    } else if s.last().paired && !s.last().connected {
        paired_disconnected(s.drop_last()).push(s.last())
    } else {
        paired_disconnected(s.drop_last())
    }
}

/// The text naming a device and, when it reports one, its battery:
/// `name - 80%` with an em dash.
pub open spec fn name_with_battery(d: DeviceInfo) -> Seq<char> {
    match d.battery {
        Some(b) => d.name@ + " \u{2014} "@ + decimal(b as nat) + "%"@,
        None => d.name@,
    }
}

/// Title of the tooltip for a given number of connected devices.
pub open spec fn spec_tooltip_title(connected: nat) -> Seq<char> {
    if connected == 0 {
        "Bluetooth Monitor \u{2014} no devices connected"@
    } else {
        "Bluetooth Monitor \u{2014} "@ + decimal(connected) + " connected"@
    }
}

/// One bullet line per connected device, separated by line breaks.
pub open spec fn spec_tooltip_description(connected: Seq<DeviceInfo>) -> Seq<char>
    decreases connected.len(),
{
    if connected.len() == 0 {
        Seq::empty()
    } else {
        let prev = spec_tooltip_description(connected.drop_last());
        let sep = if prev.len() == 0 {
            Seq::empty()
        } else {
            seq!['\n']
        };
        prev + sep + "\u{2022} "@ + name_with_battery(connected.last())
    }
}

/// Appends a device's name and, when it reports one, its battery.
fn push_name_with_battery(s: &mut String, d: &DeviceInfo)
    ensures
        final(s)@ == old(s)@ + name_with_battery(*d),
{
    s.append(d.name.as_str());
    match d.battery {
        Some(b) => {
            s.append(" \u{2014} ");
            push_decimal(s, b as u128);
            s.append("%");
        },
        None => {},
    }
}

/// Title and description of the tray tooltip: how many devices are
/// connected, then one line per connected device with its battery.
pub fn tooltip_text(devices: &[DeviceInfo]) -> (t: (String, String))
    ensures
        t.0@ == spec_tooltip_title(filtered(devices@, DeviceFilter::Connected).len()),
        t.1@ == spec_tooltip_description(filtered(devices@, DeviceFilter::Connected)),
{
    let mut count: usize = 0;
    let mut description = String::new();
    let mut k: usize = 0;
    while k < devices.len()
        invariant
            k <= devices@.len(),
            count == filtered(devices@.take(k as int), DeviceFilter::Connected).len(),
            count <= k,
            description@ == spec_tooltip_description(
                filtered(devices@.take(k as int), DeviceFilter::Connected),
            ),
        decreases devices@.len() - k,
    {
        let d = &devices[k];
        proof {
            assert(devices@.take(k + 1).drop_last() =~= devices@.take(k as int));
            assert(devices@.take(k + 1).last() == *d);
        }
        if d.connected {
            let ghost prev = description@;
            let ghost f = filtered(devices@.take(k as int), DeviceFilter::Connected);
            if description.unicode_len() > 0 {
                description.push('\n');
            }
            description.append("\u{2022} ");
            push_name_with_battery(&mut description, d);
            count += 1;
            proof {
                assert(f.push(*d).drop_last() =~= f);
                if prev.len() == 0 {
                    assert(description@ =~= prev + Seq::<char>::empty() + "\u{2022} "@ + name_with_battery(*d));
                } else {
                    assert(description@ =~= prev + seq!['\n'] + "\u{2022} "@ + name_with_battery(*d));
                }
            }
        }
        k += 1;
    }
    assert(devices@.take(devices@.len() as int) =~= devices@);
    let mut title = String::new();
    if count == 0 {
        title.append("Bluetooth Monitor \u{2014} no devices connected");
    } else {
        title.append("Bluetooth Monitor \u{2014} ");
        push_decimal(&mut title, count as u128);
        title.append(" connected");
    }
    (title, description)
}

/// What choosing a tray menu entry does.
#[derive(Debug)]
pub enum TrayAction {
    /// Disconnect the device with this address.
    Disconnect(String),
    /// Connect the device with this address.
    Connect(String),
    /// Show the window when hidden, hide it when shown.
    ToggleWindow,
    /// Refresh the device list now.
    Refresh,
    /// Quit the application.
    Quit,
}

/// One entry of the tray menu.
#[derive(Debug)]
pub enum MenuEntry {
    Separator,
    Item { label: String, enabled: bool, action: Option<TrayAction> },
}

/// Mathematical picture of a [`TrayAction`].
pub enum ActionView {
    Disconnect(Seq<char>),
    Connect(Seq<char>),
    ToggleWindow,
    Refresh,
    Quit,
}

/// Mathematical picture of a [`MenuEntry`].
pub enum EntryView {
    Separator,
    Item { label: Seq<char>, enabled: bool, action: Option<ActionView> },
}

impl View for TrayAction {
    type V = ActionView;

    open spec fn view(&self) -> ActionView {
        match self {
            TrayAction::Disconnect(a) => ActionView::Disconnect(a@),
            TrayAction::Connect(a) => ActionView::Connect(a@),
            TrayAction::ToggleWindow => ActionView::ToggleWindow,
            TrayAction::Refresh => ActionView::Refresh,
            TrayAction::Quit => ActionView::Quit,
        }
    }
}

impl View for MenuEntry {
    type V = EntryView;

    open spec fn view(&self) -> EntryView {
        match self {
            MenuEntry::Separator => EntryView::Separator,
            MenuEntry::Item { label, enabled, action } => EntryView::Item {
                label: label@,
                enabled: *enabled,
                action: match action {
                    Some(a) => Some(a@),
                    None => None,
                },
            },
        }
    }
}

/// The views of menu entries.
pub open spec fn entries_view(s: Seq<MenuEntry>) -> Seq<EntryView> {
    s.map_values(|e: MenuEntry| e@)
}

/// A disabled entry that only shows a text.
pub open spec fn caption(label: Seq<char>) -> EntryView {
    EntryView::Item { label, enabled: false, action: None }
}

/// The entries that disconnect each connected device.
pub open spec fn disconnect_entries(connected: Seq<DeviceInfo>) -> Seq<EntryView> {
    connected.map_values(
        |d: DeviceInfo|
            EntryView::Item {
                label: "  "@ + name_with_battery(d),
                enabled: true,
                action: Some(ActionView::Disconnect(d.address@)),
            },
    )
}

/// The entries that reconnect each paired, disconnected device.
pub open spec fn reconnect_entries(devices: Seq<DeviceInfo>) -> Seq<EntryView> {
    devices.map_values(
        |d: DeviceInfo|
            EntryView::Item {
                label: "  "@ + d.name@,
                enabled: true,
                action: Some(ActionView::Connect(d.address@)),
            },
    )
}

/// The tray menu for a device list: the connected devices (choosing one
/// disconnects it), the paired but disconnected ones (choosing one
/// reconnects it), then show / hide, refresh and quit.
pub open spec fn spec_tray_menu(devices: Seq<DeviceInfo>) -> Seq<EntryView> {
    let connected = filtered(devices, DeviceFilter::Connected);
    let offline = paired_disconnected(devices);
    let head = seq![caption("Connected ("@ + decimal(connected.len()) + ")"@)];
    let body = if connected.len() == 0 {
        seq![caption("  (none)"@)]
    } else {
        disconnect_entries(connected)
    };
    let reconnect = if offline.len() == 0 {
        Seq::empty()
    } else {
        seq![EntryView::Separator, caption("Reconnect ("@ + decimal(offline.len()) + ")"@)]
            + reconnect_entries(offline)
    };
    let tail = seq![
        EntryView::Separator,
        EntryView::Item {
            label: "Show / hide window"@,
            enabled: true,
            action: Some(ActionView::ToggleWindow),
        },
        EntryView::Item { label: "Refresh"@, enabled: true, action: Some(ActionView::Refresh) },
        EntryView::Separator,
        EntryView::Item { label: "Quit"@, enabled: true, action: Some(ActionView::Quit) },
    ];
    head + body + reconnect + tail
}

fn caption_entry(label: String) -> (e: MenuEntry)
    ensures
        e@ == caption(label@),
{
    MenuEntry::Item { label, enabled: false, action: None }
}

fn counted_caption(prefix: &str, n: usize) -> (e: MenuEntry)
    ensures
        e@ == caption(prefix@ + decimal(n as nat) + ")"@),
{
    let mut label = String::new();
    label.append(prefix);
    push_decimal(&mut label, n as u128);
    label.append(")");
    caption_entry(label)
}

fn action_entry(label: &str, action: TrayAction) -> (e: MenuEntry)
    ensures
        e@ == (EntryView::Item { label: label@, enabled: true, action: Some(action@) }),
{
    MenuEntry::Item { label: String::from_str(label), enabled: true, action: Some(action) }
}

/// Builds the tray menu for the current device list.
pub fn tray_menu(devices: &[DeviceInfo]) -> (menu: Vec<MenuEntry>)
    ensures
        entries_view(menu@) == spec_tray_menu(devices@),
{
    // Devices connected, and devices paired but offline, with their counts.
    let mut online: Vec<MenuEntry> = Vec::new();
    let mut offline: Vec<MenuEntry> = Vec::new();
    let mut k: usize = 0;
    while k < devices.len()
        invariant
            k <= devices@.len(),
            entries_view(online@) == disconnect_entries(
                filtered(devices@.take(k as int), DeviceFilter::Connected),
            ),
            entries_view(offline@) == reconnect_entries(paired_disconnected(devices@.take(k as int))),
            online@.len() <= k,
            offline@.len() <= k,
        decreases devices@.len() - k,
    {
        let d = &devices[k];
        proof {
            assert(devices@.take(k + 1).drop_last() =~= devices@.take(k as int));
            assert(devices@.take(k + 1).last() == *d);
        }
        if d.connected {
            let ghost before = online@;
            let mut label = String::new();
            label.append("  ");
            push_name_with_battery(&mut label, d);
            online.push(
                MenuEntry::Item {
                    label,
                    enabled: true,
                    action: Some(TrayAction::Disconnect(d.address.clone())),
                },
            );
            proof {
                let f = filtered(devices@.take(k as int), DeviceFilter::Connected);
                assert(entries_view(online@) =~= entries_view(before).push(online@.last()@));
                assert(disconnect_entries(f.push(*d)) =~= disconnect_entries(f).push(
                    EntryView::Item {
                        label: "  "@ + name_with_battery(*d),
                        enabled: true,
                        action: Some(ActionView::Disconnect(d.address@)),
                    },
                ));
            }
        }
        if d.paired && !d.connected {
            let ghost before = offline@;
            let mut label = String::new();
            label.append("  ");
            label.append(d.name.as_str());
            offline.push(
                MenuEntry::Item {
                    label,
                    enabled: true,
                    action: Some(TrayAction::Connect(d.address.clone())),
                },
            );
            proof {
                let f = paired_disconnected(devices@.take(k as int));
                assert(entries_view(offline@) =~= entries_view(before).push(offline@.last()@));
                assert(reconnect_entries(f.push(*d)) =~= reconnect_entries(f).push(
                    EntryView::Item {
                        label: "  "@ + d.name@,
                        enabled: true,
                        action: Some(ActionView::Connect(d.address@)),
                    },
                ));
            }
        }
        k += 1;
    }
    assert(devices@.take(devices@.len() as int) =~= devices@);
    let ghost connected_view = filtered(devices@, DeviceFilter::Connected);
    let ghost offline_view = paired_disconnected(devices@);
    assert(online@.len() == connected_view.len());
    assert(offline@.len() == offline_view.len());
    let n_online = online.len();
    let n_offline = offline.len();

    let mut items: Vec<MenuEntry> = Vec::new();
    items.push(counted_caption("Connected (", n_online));
    if n_online == 0 {
        items.push(caption_entry(String::from_str("  (none)")));
    } else {
        items.append(&mut online);
    }
    if n_offline > 0 {
        items.push(MenuEntry::Separator);
        items.push(counted_caption("Reconnect (", n_offline));
        items.append(&mut offline);
    }
    items.push(MenuEntry::Separator);
    items.push(action_entry("Show / hide window", TrayAction::ToggleWindow));
    items.push(action_entry("Refresh", TrayAction::Refresh));
    items.push(MenuEntry::Separator);
    items.push(action_entry("Quit", TrayAction::Quit));
    assert(entries_view(items@) =~= spec_tray_menu(devices@));
    items
}

} // verus!
