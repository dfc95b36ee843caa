//! The pure decisions of the dashboard: which devices a tab shows, the
//! figures of the statistics strip, the signal bars of a device and the
//! glyph that stands for it.

use vstd::prelude::*;
use crate::bluetooth::{DeviceInfo, devices_view};
use crate::theme::{Accent, spec_rssi_accent};
use crate::text::{
    all_ascii, ascii_fold, chars_of, contains_exec, contains_text, lowercase, lowercase_of_chars,
    decimal, push_decimal, uppercase, uppercase_text,
};
use crate::bluetooth::BluetoothCommand;

verus! {

/// The pages of the window.
#[derive(Copy, Clone, Debug, PartialEq, Eq, Structural)]
pub enum Tab {
    Dashboard,
    Discover,
    Detail,
    Settings,
}

/// Which devices the dashboard list shows.
#[derive(Copy, Clone, Debug, PartialEq, Eq, Structural)]
pub enum DeviceFilter {
    All,
    Connected,
    Paired,
}

/// A device passes a filter.
pub open spec fn passes(d: DeviceInfo, filter: DeviceFilter) -> bool {
    match filter {
        DeviceFilter::All => true,
        DeviceFilter::Connected => d.connected,
        DeviceFilter::Paired => d.paired,
    }
}

/// The devices that pass a filter, in their order.
pub open spec fn filtered(s: Seq<DeviceInfo>, filter: DeviceFilter) -> Seq<DeviceInfo>
    decreases s.len(),
{
    if s.len() == 0 {
        s
    } else if passes(s.last(), filter) {
        filtered(s.drop_last(), filter).push(s.last())
    } else {
        filtered(s.drop_last(), filter)
    }
}

/// Copies of the devices that pass a filter, in their order.
pub fn filter_devices(devices: &[DeviceInfo], filter: DeviceFilter) -> (out: Vec<DeviceInfo>)
    ensures
        devices_view(out@) == devices_view(filtered(devices@, filter)),
{
    let mut out: Vec<DeviceInfo> = Vec::new();
    let mut k: usize = 0;
    while k < devices.len()
        invariant
            k <= devices@.len(),
            devices_view(out@) == devices_view(filtered(devices@.take(k as int), filter)),
        decreases devices@.len() - k,
    {
        let d = &devices[k];
        let keep = match filter {
            DeviceFilter::All => true,
            DeviceFilter::Connected => d.connected,
            DeviceFilter::Paired => d.paired,
        };
        proof {
            assert(devices@.take(k + 1).drop_last() =~= devices@.take(k as int));
            assert(devices@.take(k + 1).last() == *d);
        }
        if keep {
            let ghost before = out@;
            let c = d.clone();
            out.push(c);
            proof {
                let f = filtered(devices@.take(k as int), filter);
                assert(devices_view(out@) =~= devices_view(before).push(c@));
                assert(devices_view(f.push(*d)) =~= devices_view(f).push(d@));
            }
        }
        k += 1;
    }
    assert(devices@.take(devices@.len() as int) =~= devices@);
    out
}

/// Number of bars lit for a signal strength in dBm.
pub open spec fn spec_signal_bars(rssi: i16) -> u8 {
    if rssi > -50 {
        4
    } else if rssi > -65 {
        3
    } else if rssi > -80 {
        2
    } else {
        1
    }
}

/// Number of bars (1 to 4) lit for a signal strength in dBm.
pub fn signal_bars_from_rssi(rssi: i16) -> (bars: u8)
    ensures
        bars == spec_signal_bars(rssi),
{
    if rssi > -50 {
        4
    } else if rssi > -65 {
        3
    } else if rssi > -80 {
        2
    } else {
        1
    }
}

/// Accent of the lit bars of the signal widget.
pub open spec fn spec_bars_accent(filled: u8) -> Accent {
    if filled == 4 {
        Accent::Teal
    } else if filled == 3 {
        Accent::Yellow
    } else if filled == 2 {
        Accent::Orange
    } else {
        Accent::Coral
    }
}

/// The accent the lit bars of the signal widget are drawn in.
pub fn signal_bars_accent(filled: u8) -> (a: Accent)
    ensures
        a == spec_bars_accent(filled),
{
    match filled {
        4 => Accent::Teal,
        3 => Accent::Yellow,
        2 => Accent::Orange,
        _ => Accent::Coral,
    }
}

/// The signal widget and the signal figure of a device agree: the bars are
/// drawn in the accent the reading itself gets.
pub proof fn law_bars_match_signal_accent(rssi: i16)
    ensures
        spec_bars_accent(spec_signal_bars(rssi)) == spec_rssi_accent(rssi),
{
}

/// Glyph shown for a device, chosen by words in its lowercased icon name.
pub open spec fn spec_device_emoji(icon: Seq<char>) -> Seq<char> {
    if contains_text(icon, "audio"@) || contains_text(icon, "headset"@) || contains_text(icon, "headphone"@)
        || contains_text(icon, "speaker"@) {
        "\u{1f3a7}"@
    } else if contains_text(icon, "mouse"@) {
        "\u{1f5b1}"@
    } else if contains_text(icon, "keyboard"@) {
        "\u{2328}"@
    } else if contains_text(icon, "phone"@) {
        "\u{1f4f1}"@
    } else if contains_text(icon, "computer"@) {
        "\u{1f4bb}"@
    } else if contains_text(icon, "gamepad"@) || contains_text(icon, "joystick"@) {
        "\u{1f3ae}"@
    } else if contains_text(icon, "watch"@) {
        "\u{231a}"@
    } else if contains_text(icon, "printer"@) {
        "\u{1f5a8}"@
    } else {
        "\u{1f535}"@
    }
}

/// The icon name to pick a glyph from: lowercased, empty when absent.
pub open spec fn icon_key(icon: Option<Seq<char>>) -> Seq<char> {
    match icon {
        Some(s) => lowercase(s),
        None => lowercase(Seq::empty()),
    }
}

/// Glyph shown for a device with the given BlueZ icon name.
pub fn device_emoji(icon: Option<&str>) -> (e: &'static str)
    ensures
        e@ == spec_device_emoji(
            icon_key(
                match icon {
                    Some(s) => Some(s@),
                    None => None,
                },
            ),
        ),
        icon matches Some(s) ==> (all_ascii(s@) ==> e@ == spec_device_emoji(
            s@.map_values(|c: char| ascii_fold(c)),
        )),
        icon is None ==> e@ == spec_device_emoji(Seq::empty()),
{
    proof {
        reveal_strlit("");
        assert(""@ =~= Seq::<char>::empty());
        assert(Seq::<char>::empty().map_values(|c: char| ascii_fold(c)) =~= Seq::<char>::empty());
    }
    let lowered = match icon {
        Some(s) => lowercase_of_chars(chars_of(s).as_slice()),
        None => lowercase_of_chars(chars_of("").as_slice()),
    };
    let ghost key = icon_key(
        match icon {
            Some(s) => Some(s@),
            None => None,
        },
    );
    assert(lowered@ == key);
    if contains_exec(&lowered, "audio") || contains_exec(&lowered, "headset") || contains_exec(&lowered, "headphone")
        || contains_exec(&lowered, "speaker") {
        "\u{1f3a7}"
    } else if contains_exec(&lowered, "mouse") {
        "\u{1f5b1}"
    } else if contains_exec(&lowered, "keyboard") {
        "\u{2328}"
    } else if contains_exec(&lowered, "phone") {
        "\u{1f4f1}"
    } else if contains_exec(&lowered, "computer") {
        "\u{1f4bb}"
    } else if contains_exec(&lowered, "gamepad") || contains_exec(&lowered, "joystick") {
        "\u{1f3ae}"
    } else if contains_exec(&lowered, "watch") {
        "\u{231a}"
    } else if contains_exec(&lowered, "printer") {
        "\u{1f5a8}"
    } else {
        "\u{1f535}"
    }
}

/// The figures of the statistics strip above the device list.
#[derive(Copy, Clone, Debug, PartialEq, Eq, Structural)]
pub struct DeviceStats {
    /// Devices currently connected.
    pub connected: usize,
    /// Devices paired with the adapter.
    pub paired: usize,
    /// All devices known to the adapter.
    pub total: usize,
    /// Mean battery of the connected devices that report one, rounded down.
    pub battery_avg: Option<u8>,
    /// How many connected devices report a battery.
    pub battery_readings: usize,
    /// Mean signal of the connected devices that report one, in dBm,
    /// rounded toward zero.
    pub rssi_avg: Option<i16>,
}

/// Number of devices in `s` that pass `filter`.
pub open spec fn count_passing(s: Seq<DeviceInfo>, filter: DeviceFilter) -> nat {
    filtered(s, filter).len()
}

/// Battery readings of the connected devices, in order.
pub open spec fn connected_batteries(s: Seq<DeviceInfo>) -> Seq<u8>
    decreases s.len(),
{
    if s.len() == 0 {
        Seq::empty()
    } else {
        let rest = connected_batteries(s.drop_last());
        match s.last().battery {
            Some(b) => if s.last().connected {
                rest.push(b)
            } else {
                rest
            },
            None => rest,
        }
    }
}

/// Signal readings of the connected devices, in order.
pub open spec fn connected_rssis(s: Seq<DeviceInfo>) -> Seq<i16>
    decreases s.len(),
{
    if s.len() == 0 {
        Seq::empty()
    } else {
        let rest = connected_rssis(s.drop_last());
        match s.last().rssi {
            Some(r) => if s.last().connected {
                rest.push(r)
            } else {
                rest
            },
            None => rest,
        }
    }
}

/// Sum of byte readings.
pub open spec fn sum_u8(s: Seq<u8>) -> int
    decreases s.len(),
{
    if s.len() == 0 {
        0
    } else {
        sum_u8(s.drop_last()) + s.last()
    }
}

/// Sum of signal readings.
pub open spec fn sum_i16(s: Seq<i16>) -> int
    decreases s.len(),
{
    if s.len() == 0 {
        0
    } else {
        sum_i16(s.drop_last()) + s.last()
    }
}

/// Integer division rounding toward zero, as Rust's `/` does.
pub open spec fn div_toward_zero(a: int, b: int) -> int {
    if a >= 0 {
        a / b
    } else {
        -((-a) / b)
    }
}

/// The statistics of a device list.
pub open spec fn spec_device_stats(s: Seq<DeviceInfo>) -> DeviceStats {
    let bs = connected_batteries(s);
    let rs = connected_rssis(s);
    DeviceStats {
        connected: count_passing(s, DeviceFilter::Connected) as usize,
        paired: count_passing(s, DeviceFilter::Paired) as usize,
        total: s.len() as usize,
        battery_avg: if bs.len() == 0 {
            None
        } else {
            Some((sum_u8(bs) / (bs.len() as int)) as u8)
        },
        battery_readings: bs.len() as usize,
        rssi_avg: if rs.len() == 0 {
            None
        } else {
            Some(div_toward_zero(sum_i16(rs), rs.len() as int) as i16)
        },
    }
}

proof fn lemma_avg_u8_bounds(sum: int, n: int)
    requires
        n > 0,
        0 <= sum <= 255 * n,
    ensures
        0 <= sum / n <= 255,
{
    assert(sum / n <= 255) by (nonlinear_arith)
        requires
            n > 0,
            0 <= sum <= 255 * n,
    ;
    assert(0 <= sum / n) by (nonlinear_arith)
        requires
            n > 0,
            0 <= sum,
    ;
}

proof fn lemma_avg_i16_bounds(sum: int, n: int)
    requires
        n > 0,
        -32768 * n <= sum <= 32767 * n,
    ensures
        -32768 <= div_toward_zero(sum, n) <= 32767,
{
    if sum >= 0 {
        assert(0 <= sum / n <= 32767) by (nonlinear_arith)
            requires
                n > 0,
                0 <= sum <= 32767 * n,
        ;
    } else {
        assert(0 <= (-sum) / n <= 32768) by (nonlinear_arith)
            requires
                n > 0,
                0 <= -sum <= 32768 * n,
        ;
    }
}

/// Computes the figures of the statistics strip: how many devices are
/// connected, paired and known, and the mean battery and signal of the
/// connected ones.
pub fn device_stats(devices: &[DeviceInfo]) -> (st: DeviceStats)
    ensures
        st == spec_device_stats(devices@),
{
    let mut connected: usize = 0;
    let mut paired: usize = 0;
    let mut bsum: u128 = 0;
    let mut bcount: usize = 0;
    let mut rsum: i128 = 0;
    let mut rcount: usize = 0;
    let mut k: usize = 0;
    while k < devices.len()
        invariant
            k <= devices@.len(),
            connected == count_passing(devices@.take(k as int), DeviceFilter::Connected),
            paired == count_passing(devices@.take(k as int), DeviceFilter::Paired),
            bcount == connected_batteries(devices@.take(k as int)).len(),
            bsum == sum_u8(connected_batteries(devices@.take(k as int))),
            rcount == connected_rssis(devices@.take(k as int)).len(),
            rsum == sum_i16(connected_rssis(devices@.take(k as int))),
            connected <= k,
            paired <= k,
            bcount <= k,
            rcount <= k,
            0 <= bsum <= 255 * bcount,
            -32768 * rcount <= rsum <= 32767 * rcount,
        decreases devices@.len() - k,
    {
        let d = &devices[k];
        proof {
            assert(devices@.take(k + 1).drop_last() =~= devices@.take(k as int));
            assert(devices@.take(k + 1).last() == *d);
        }
        if d.connected {
            connected += 1;
            match d.battery {
                Some(b) => {
                    bsum = bsum + b as u128;
                    bcount += 1;
                },
                None => {},
            }
            match d.rssi {
                Some(r) => {
                    rsum = rsum + r as i128;
                    rcount += 1;
                },
                None => {},
            }
        }
        if d.paired {
            paired += 1;
        }
        proof {
            let bs = connected_batteries(devices@.take(k as int));
            let rs = connected_rssis(devices@.take(k as int));
            if let Some(b) = d.battery {
                assert(bs.push(b).drop_last() =~= bs);
            }
            if let Some(r) = d.rssi {
                assert(rs.push(r).drop_last() =~= rs);
            }
        }
        k += 1;
    }
    assert(devices@.take(devices@.len() as int) =~= devices@);
    let battery_avg = if bcount == 0 {
        None
    } else {
        proof {
            lemma_avg_u8_bounds(bsum as int, bcount as int);
        }
        Some((bsum / (bcount as u128)) as u8)
    };
    let rssi_avg = if rcount == 0 {
        None
    } else {
        proof {
            lemma_avg_i16_bounds(rsum as int, rcount as int);
        }
        if rsum >= 0 {
            Some(((rsum as u128) / (rcount as u128)) as i16)
        } else {
            let q = ((0i128 - rsum) as u128) / (rcount as u128);
            Some((0i128 - (q as i128)) as i16)
        }
    };
    DeviceStats {
        connected,
        paired,
        total: devices.len(),
        battery_avg,
        battery_readings: bcount,
        rssi_avg,
    }
}

/// The splash screen shows for the first 1.8 seconds, and for up to 3.5
/// seconds while no device has been listed yet.
pub fn splash_visible(elapsed_ms: u128, has_devices: bool) -> (show: bool)
    ensures
        show == (elapsed_ms < 1800 || (!has_devices && elapsed_ms < 3500)),
{
    elapsed_ms < 1800 || (!has_devices && elapsed_ms < 3500)
}

/// The command the button of a device row sends: a connected device is
/// disconnected, a paired one connected; a device that is neither has no
/// button ("Not paired").
pub fn row_action(d: &DeviceInfo) -> (r: Option<BluetoothCommand>)
    ensures
        d.connected ==> (r matches Some(BluetoothCommand::Disconnect(a)) && a@ == d.address@),
        !d.connected && d.paired ==> (r matches Some(BluetoothCommand::Connect(a)) && a@
            == d.address@),
        !d.connected && !d.paired ==> r is None,
{
    if d.connected {
        Some(BluetoothCommand::Disconnect(d.address.clone()))
    } else if d.paired {
        Some(BluetoothCommand::Connect(d.address.clone()))
    } else {
        None
    }
}

/// How the battery cell of a device row is drawn.
#[derive(Copy, Clone, Debug, PartialEq, Eq, Structural)]
pub enum BatteryCell {
    /// The percentage and the thin battery bar.
    BarAndPercent(u8),
    /// The percentage alone: a disconnected device gets no battery bar.
    Percent(u8),
    /// No reading: a dash.
    Unknown,
}

/// The battery cell of a device row: a connected device's reading is shown
/// with its bar, a disconnected device's without one, and a device without
/// a reading gets a dash.
pub fn battery_cell(d: &DeviceInfo) -> (c: BatteryCell)
    ensures
        c == match d.battery {
            Some(p) => if d.connected {
                BatteryCell::BarAndPercent(p)
            } else {
                BatteryCell::Percent(p)
            },
            None => BatteryCell::Unknown,
        },
{
    match d.battery {
        Some(p) => if d.connected {
            BatteryCell::BarAndPercent(p)
        } else {
            BatteryCell::Percent(p)
        },
        None => BatteryCell::Unknown,
    }
}

/// The trust toggle of a device: its label and the command it sends,
/// which flips the device's trusted flag.
pub fn trust_toggle(d: &DeviceInfo) -> (r: (&'static str, BluetoothCommand))
    ensures
        r.0@ == (if d.trusted { "Untrust"@ } else { "Trust"@ }),
        r.1 matches BluetoothCommand::SetTrusted(a, v) && a@ == d.address@ && v == !d.trusted,
{
    let label = if d.trusted { "Untrust" } else { "Trust" };
    (label, BluetoothCommand::SetTrusted(d.address.clone(), !d.trusted))
}

/// The block toggle of a device: its label and the command it sends,
/// which flips the device's blocked flag.
pub fn block_toggle(d: &DeviceInfo) -> (r: (&'static str, BluetoothCommand))
    ensures
        r.0@ == (if d.blocked { "Unblock"@ } else { "Block"@ }),
        r.1 matches BluetoothCommand::SetBlocked(a, v) && a@ == d.address@ && v == !d.blocked,
{
    let label = if d.blocked { "Unblock" } else { "Block" };
    (label, BluetoothCommand::SetBlocked(d.address.clone(), !d.blocked))
}

/// Title of the header on a tab.
pub open spec fn spec_header_title(tab: Tab) -> Seq<char> {
    match tab {
        Tab::Dashboard => "BLUETOOTH"@,
        Tab::Discover => "DISCOVER"@,
        Tab::Detail => "DEVICE"@,
        Tab::Settings => "SETTINGS"@,
    }
}

/// The header's title on a tab.
pub fn header_title(tab: Tab) -> (t: &'static str)
    ensures
        t@ == spec_header_title(tab),
{
    match tab {
        Tab::Dashboard => "BLUETOOTH",
        Tab::Discover => "DISCOVER",
        Tab::Detail => "DEVICE",
        Tab::Settings => "SETTINGS",
    }
}

/// What the header's subtitle reports, gathered from the shared state.
pub struct HeaderFacts<'a> {
    /// Name of the adapter, once known.
    pub adapter: Option<&'a str>,
    /// Number of devices the adapter knows.
    pub known: usize,
    /// Discovery is running.
    pub scanning: bool,
    /// Whole seconds since discovery started.
    pub scan_secs: u64,
    /// Devices discovery has found.
    pub found: usize,
    /// Address of the device the details page shows.
    pub selected: Option<&'a str>,
}

/// Subtitle of the header on a tab: adapter name and number of known
/// devices on the dashboard, scan progress on the discovery page, the
/// device address on the details page (upper-cased), and a fixed word on
/// the settings page.
pub open spec fn spec_header_subtitle(tab: Tab, f: HeaderFacts) -> Seq<char> {
    match tab {
        Tab::Dashboard => match f.adapter {
            Some(a) => uppercase(a@) + " \u{b7} "@ + decimal(f.known as nat) + " KNOWN"@,
            None => "HCI \u{b7} \u{2014}"@,
        },
        Tab::Discover => if f.scanning {
            "SCANNING \u{b7} "@ + decimal(f.scan_secs as nat) + "s \u{b7} "@ + decimal(
                f.found as nat,
            ) + " FOUND"@
        } else {
            "IDLE \u{b7} TAP RADAR TO SCAN"@
        },
        Tab::Detail => match f.selected {
            Some(a) => uppercase(a@),
            None => uppercase(""@),
        },
        Tab::Settings => "PREFERENCES"@,
    }
}

/// The header's subtitle on a tab.
pub fn header_subtitle(tab: Tab, f: &HeaderFacts) -> (t: String)
    ensures
        t@ == spec_header_subtitle(tab, *f),
{
    match tab {
        Tab::Dashboard => match f.adapter {
            Some(a) => {
                let mut t = uppercase_text(a);
                t.append(" \u{b7} ");
                push_decimal(&mut t, f.known as u128);
                t.append(" KNOWN");
                t
            },
            None => String::from_str("HCI \u{b7} \u{2014}"),
        },
        Tab::Discover => if f.scanning {
            let mut t = String::from_str("SCANNING \u{b7} ");
            push_decimal(&mut t, f.scan_secs as u128);
            t.append("s \u{b7} ");
            push_decimal(&mut t, f.found as u128);
            t.append(" FOUND");
            t
        } else {
            String::from_str("IDLE \u{b7} TAP RADAR TO SCAN")
        },
        Tab::Detail => match f.selected {
            Some(a) => uppercase_text(a),
            None => uppercase_text(""),
        },
        Tab::Settings => String::from_str("PREFERENCES"),
    }
}

} // verus!
