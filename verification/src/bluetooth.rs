//! The device model the Bluetooth backend fills, and the decisions it takes
//! on it: in which order devices are listed, how the list of nearby devices
//! found by discovery is kept, and how the signal history of a device
//! evolves with every refresh.

use std::collections::VecDeque;
use vstd::prelude::*;
use crate::sorting::{
    Ranked, is_ranked, law_stable_sorted_ranked_permutation, lemma_stable_sorted_pairwise,
    pairwise_apart, stable_sort, stable_sorted,
};
use crate::text::{
    chars_le, chars_le_exec, hex4_upper, lemma_chars_le_total, lemma_chars_le_transitive, lowercase,
    push_hex4_upper, chars_of, lowercase_of_chars,
};
use crate::vendors::{Components, ComponentsView, opt_view};

verus! {

/// What the dashboard knows about one device known to the adapter.
#[derive(Debug)]
pub struct DeviceInfo {
    pub name: String,
    pub address: String,
    pub connected: bool,
    pub paired: bool,
    pub trusted: bool,
    pub blocked: bool,
    pub battery: Option<u8>,
    pub rssi: Option<i16>,
    pub tx_power: Option<i16>,
    pub icon: Option<String>,
    pub uuids: Vec<String>,
    pub manufacturer: Option<String>,
    pub class_of_device: Option<u32>,
    /// Per-vendor decode of the manufacturer data; for earbuds this
    /// recovers left / right / case battery, charging flags and the like.
    pub components: Option<Components>,
}

/// Mathematical picture of a [`DeviceInfo`]: texts become their characters.
pub struct DeviceView {
    pub name: Seq<char>,
    pub address: Seq<char>,
    pub connected: bool,
    pub paired: bool,
    pub trusted: bool,
    pub blocked: bool,
    pub battery: Option<u8>,
    pub rssi: Option<i16>,
    pub tx_power: Option<i16>,
    pub icon: Option<Seq<char>>,
    pub uuids: Seq<Seq<char>>,
    pub manufacturer: Option<Seq<char>>,
    pub class_of_device: Option<u32>,
    pub components: Option<ComponentsView>,
}

/// The characters of an optional text.
pub open spec fn opt_text(s: Option<String>) -> Option<Seq<char>> {
    match s {
        Some(t) => Some(t@),
        None => None,
    }
}

impl View for DeviceInfo {
    type V = DeviceView;

    open spec fn view(&self) -> DeviceView {
        DeviceView {
            name: self.name@,
            address: self.address@,
            connected: self.connected,
            paired: self.paired,
            trusted: self.trusted,
            blocked: self.blocked,
            battery: self.battery,
            rssi: self.rssi,
            tx_power: self.tx_power,
            icon: opt_text(self.icon),
            uuids: self.uuids@.map_values(|u: String| u@),
            manufacturer: opt_text(self.manufacturer),
            class_of_device: self.class_of_device,
            components: opt_view(self.components),
        }
    }
}

/// The views of a list of devices.
pub open spec fn devices_view(s: Seq<DeviceInfo>) -> Seq<DeviceView> {
    s.map_values(|d: DeviceInfo| d@)
}

fn clone_opt_string(s: &Option<String>) -> (r: Option<String>)
    ensures
        opt_text(r) == opt_text(*s),
{
    match s {
        Some(t) => Some(t.clone()),
        None => None,
    }
}

impl Clone for DeviceInfo {
    fn clone(&self) -> (r: DeviceInfo)
        ensures
            r@ == self@,
    {
        let uuids = self.uuids.clone();
        assert(uuids@.map_values(|u: String| u@) =~= self.uuids@.map_values(|u: String| u@));
        DeviceInfo {
            name: self.name.clone(),
            address: self.address.clone(),
            connected: self.connected,
            paired: self.paired,
            trusted: self.trusted,
            blocked: self.blocked,
            battery: self.battery,
            rssi: self.rssi,
            tx_power: self.tx_power,
            icon: clone_opt_string(&self.icon),
            uuids,
            manufacturer: clone_opt_string(&self.manufacturer),
            class_of_device: self.class_of_device,
            components: self.components,
        }
    }
}

/// Order of the device list: connected devices first, then paired ones,
/// then by name without regard to case.
pub open spec fn device_listed_before_eq(a: &DeviceInfo, b: &DeviceInfo) -> bool {
    if a.connected != b.connected {
        a.connected
    } else if a.paired != b.paired {
        a.paired
    } else {
        chars_le(lowercase(a.name@), lowercase(b.name@))
    }
}

impl Ranked for DeviceInfo {
    open spec fn ranks_before_eq(&self, other: &Self) -> bool {
        device_listed_before_eq(self, other)
    }

    fn ranks_before_eq_exec(&self, other: &Self) -> (b: bool) {
        if self.connected != other.connected {
            return self.connected;
        }
        if self.paired != other.paired {
            return self.paired;
        }
        let a = lowercase_of_chars(chars_of(self.name.as_str()).as_slice());
        let b = lowercase_of_chars(chars_of(other.name.as_str()).as_slice());
        chars_le_exec(&a, &b)
    }

    proof fn lemma_ranks_total(a: &Self, b: &Self) {
        lemma_chars_le_total(lowercase(a.name@), lowercase(b.name@));
    }

    proof fn lemma_ranks_transitive(a: &Self, b: &Self, c: &Self) {
        if a.connected == b.connected && b.connected == c.connected && a.paired == b.paired
            && b.paired == c.paired {
            lemma_chars_le_transitive(lowercase(a.name@), lowercase(b.name@), lowercase(c.name@));
        }
    }
}

/// Lists devices connected first, then paired, then by case-insensitive
/// name; devices that compare equal keep their order.
pub fn sort_devices(list: Vec<DeviceInfo>) -> (out: Vec<DeviceInfo>)
    ensures
        out@ == stable_sorted(list@),
{
    stable_sort(list)
}

/// The sorted device list holds the same devices, and lists every
/// connected device before every disconnected one; among devices alike in
/// that, every paired one before every unpaired one; and among devices
/// alike in both, names in order without regard to case.
pub proof fn law_sort_devices_order(list: Seq<DeviceInfo>)
    ensures
        ({
            let out = stable_sorted(list);
            &&& out.to_multiset() =~= list.to_multiset()
            &&& forall|i: int, j: int| #![trigger out[i], out[j]] 0 <= i < j < out.len() ==> {
                &&& (out[j].connected ==> out[i].connected)
                &&& (out[i].connected == out[j].connected && out[j].paired ==> out[i].paired)
                &&& (out[i].connected == out[j].connected && out[i].paired == out[j].paired
                    ==> chars_le(lowercase(out[i].name@), lowercase(out[j].name@)))
            }
        }),
{
    law_stable_sorted_ranked_permutation(list);
}

/// Label of a manufacturer id as shown in the device details: `0x` and four
/// uppercase hexadecimal digits.
pub fn manufacturer_label(id: u16) -> (s: String)
    ensures
        s@ == "0x"@ + hex4_upper(id),
{
    let mut s = String::new();
    s.append("0x");
    push_hex4_upper(&mut s, id);
    s
}

/// Commands the UI and the tray send to the Bluetooth backend.
#[derive(Debug)]
pub enum BluetoothCommand {
    Refresh,
    Connect(String),
    Disconnect(String),
    SetTrusted(String, bool),
    SetBlocked(String, bool),
    Remove(String),
    StartDiscovery,
    StopDiscovery,
    Pair(String),
    /// Open an RFCOMM socket to a Xiaomi/Redmi earbud and probe its serial
    /// protocol; the hex dump of the answer goes to the probe log.
    ProbeMma(String),
}

/// What the backend does on a request to start or stop discovery.
#[derive(Debug)]
pub enum DiscoveryAction {
    /// Start the discovery task, mark the adapter as scanning and note when
    /// the scan started.
    Spawn,
    /// Discovery already runs: nothing to do.
    KeepRunning,
    /// Mark the adapter as not scanning and forget the nearby list; the
    /// running discovery task, if there is one, is aborted.
    Stop { abort_task: bool },
}

/// The decision on a discovery request: a start request starts discovery
/// only when no discovery task runs; a stop request always stops, aborting
/// the task when there is one.
pub fn discovery_action(task_running: bool, start: bool) -> (a: DiscoveryAction)
    ensures
        start && !task_running ==> a is Spawn,
        start && task_running ==> a is KeepRunning,
        !start ==> (a matches DiscoveryAction::Stop { abort_task } && abort_task == task_running),
{
    if start {
        if task_running {
            DiscoveryAction::KeepRunning
        } else {
            DiscoveryAction::Spawn
        }
    } else {
        DiscoveryAction::Stop { abort_task: task_running }
    }
}

/// A device seen by discovery. `seen_at_ms` is the monotonic clock reading,
/// in milliseconds, of the last time it was seen.
#[derive(Debug)]
pub struct DiscoveredDevice {
    pub address: String,
    pub name: Option<String>,
    pub rssi: Option<i16>,
    pub seen_at_ms: u64,
}

impl Clone for DiscoveredDevice {
    fn clone(&self) -> (r: DiscoveredDevice)
        ensures
            r.address@ == self.address@,
            opt_text(r.name) == opt_text(self.name),
            r.rssi == self.rssi,
            r.seen_at_ms == self.seen_at_ms,
    {
        DiscoveredDevice {
            address: self.address.clone(),
            name: clone_opt_string(&self.name),
            rssi: self.rssi,
            seen_at_ms: self.seen_at_ms,
        }
    }
}

/// Order of the nearby list: strongest signal first; devices without a
/// signal reading come last.
pub open spec fn nearby_listed_before_eq(a: &DiscoveredDevice, b: &DiscoveredDevice) -> bool {
    match (a.rssi, b.rssi) {
        (_, None) => true,
        (None, Some(_)) => false,
        (Some(x), Some(y)) => y <= x,
    }
}

impl Ranked for DiscoveredDevice {
    open spec fn ranks_before_eq(&self, other: &Self) -> bool {
        nearby_listed_before_eq(self, other)
    }

    fn ranks_before_eq_exec(&self, other: &Self) -> (b: bool) {
        match (self.rssi, other.rssi) {
            (_, None) => true,
            (None, Some(_)) => false,
            (Some(x), Some(y)) => y <= x,
        }
    }

    proof fn lemma_ranks_total(a: &Self, b: &Self) {
    }

    proof fn lemma_ranks_transitive(a: &Self, b: &Self, c: &Self) {
    }
}

/// The entries of a nearby list whose address differs from `address`.
pub open spec fn without_address(s: Seq<DiscoveredDevice>, address: Seq<char>) -> Seq<DiscoveredDevice>
    decreases s.len(),
{
    if s.len() == 0 {
        s
    } else if s.last().address@ == address {
        without_address(s.drop_last(), address)
    } else {
        without_address(s.drop_last(), address).push(s.last())
    }
}

fn take_without_address(list: Vec<DiscoveredDevice>, address: &str) -> (out: Vec<DiscoveredDevice>)
    ensures
        out@ == without_address(list@, address@),
{
    let ghost orig = list@;
    let mut rest = list;
    let mut out: Vec<DiscoveredDevice> = Vec::new();
    let target = String::from_str(address);
    let ghost mut n: int = 0;
    while rest.len() > 0
        invariant
            0 <= n <= orig.len(),
            rest@ == orig.skip(n),
            target@ == address@,
            out@ == without_address(orig.take(n), address@),
        decreases rest@.len(),
    {
        let d = rest.remove(0);
        proof {
            assert(d == orig[n]);
            assert(orig.take(n + 1).drop_last() =~= orig.take(n));
        }
        if !(d.address == target) {
            out.push(d);
        }
        proof {
            n = n + 1;
            assert(rest@ =~= orig.skip(n));
        }
    }
    assert(orig.take(n) =~= orig);
    out
}

/// Records a device found by discovery: any earlier entry with the same
/// address is replaced, and the list is kept strongest signal first.
pub fn upsert_nearby(nearby: &mut Vec<DiscoveredDevice>, discovered: DiscoveredDevice)
    ensures
        final(nearby)@ == stable_sorted(
            without_address(old(nearby)@, discovered.address@).push(discovered),
        ),
{
    let mut list: Vec<DiscoveredDevice> = Vec::new();
    std::mem::swap(&mut list, nearby);
    let mut kept = take_without_address(list, discovered.address.as_str());
    kept.push(discovered);
    *nearby = stable_sort(kept);
}

proof fn lemma_without_address(s: Seq<DiscoveredDevice>, address: Seq<char>)
    ensures
        forall|i: int| 0 <= i < without_address(s, address).len() ==> {
            &&& (#[trigger] without_address(s, address)[i]).address@ != address
            &&& s.contains(without_address(s, address)[i])
        },
    decreases s.len(),
{
    if s.len() > 0 {
        let t = s.drop_last();
        lemma_without_address(t, address);
        let r = without_address(s, address);
        assert forall|i: int| 0 <= i < r.len() implies {
            &&& (#[trigger] r[i]).address@ != address
            &&& s.contains(r[i])
        } by {
            let rt = without_address(t, address);
            if i < rt.len() {
                assert(r[i] == rt[i]);
                let j = choose|j: int| 0 <= j < t.len() && t[j] == rt[i];
                assert(s[j] == t[j]);
            } else {
                assert(r[i] == s.last());
                assert(s[s.len() - 1] == s.last());
            }
        }
    }
}

/// After recording a discovered device the nearby list holds it, and no
/// other entry has its address.
pub proof fn law_upsert_nearby_single_entry(nearby: Seq<DiscoveredDevice>, d: DiscoveredDevice)
    ensures
        ({
            let out = stable_sorted(without_address(nearby, d.address@).push(d));
            &&& out.contains(d)
            &&& forall|i: int| 0 <= i < out.len() && (#[trigger] out[i]).address@ == d.address@ ==> out[i] == d
        }),
{
    let kept = without_address(nearby, d.address@);
    let s = kept.push(d);
    let out = stable_sorted(s);
    law_stable_sorted_ranked_permutation(s);
    lemma_without_address(nearby, d.address@);
    vstd::seq_lib::to_multiset_contains(s, d);
    vstd::seq_lib::to_multiset_contains(out, d);
    assert(s[s.len() - 1] == d);
    assert forall|i: int| 0 <= i < out.len() && (#[trigger] out[i]).address@ == d.address@ implies out[i] == d by {
        let e = out[i];
        vstd::seq_lib::to_multiset_contains(out, e);
        vstd::seq_lib::to_multiset_contains(s, e);
        let j = choose|j: int| 0 <= j < s.len() && s[j] == e;
        if j < kept.len() {
            assert(s[j] == kept[j]);
        }
    }
}

/// How many entries of a nearby list have the address `address`.
pub open spec fn count_address(s: Seq<DiscoveredDevice>, address: Seq<char>) -> nat
    decreases s.len(),
{
    if s.len() == 0 {
        0
    } else {
        count_address(s.drop_last(), address) + if s.last().address@ == address {
            1nat
        } else {
            0nat
        }
    }
}

proof fn lemma_without_address_count(s: Seq<DiscoveredDevice>, address: Seq<char>)
    ensures
        without_address(s, address).len() + count_address(s, address) == s.len(),
        forall|i: int| 0 <= i < s.len() && (#[trigger] s[i]).address@ != address
            ==> without_address(s, address).contains(s[i]),
    decreases s.len(),
{
    if s.len() > 0 {
        let t = s.drop_last();
        lemma_without_address_count(t, address);
        let rt = without_address(t, address);
        let r = without_address(s, address);
        assert forall|i: int| 0 <= i < s.len() && (#[trigger] s[i]).address@ != address
            implies r.contains(s[i]) by {
            if i < s.len() - 1 {
                assert(t[i] == s[i]);
                let k = choose|k: int| 0 <= k < rt.len() && rt[k] == t[i];
                if s.last().address@ != address {
                    assert(r[k] == rt[k]);
                }
            } else {
                assert(s[i] == s.last());
                assert(r[r.len() - 1] == s.last());
            }
        }
    }
}

/// Forgetting an address keeps every entry with another address and drops
/// exactly the entries with that address: the list shrinks by their number.
pub proof fn law_without_address_keeps_others(s: Seq<DiscoveredDevice>, address: Seq<char>)
    ensures
        forall|i: int| 0 <= i < s.len() && (#[trigger] s[i]).address@ != address
            ==> without_address(s, address).contains(s[i]),
        forall|i: int| 0 <= i < without_address(s, address).len()
            ==> (#[trigger] without_address(s, address)[i]).address@ != address
            && s.contains(without_address(s, address)[i]),
        without_address(s, address).len() == s.len() - count_address(s, address),
{
    lemma_without_address_count(s, address);
    lemma_without_address(s, address);
}

/// Recording a discovered device keeps every entry with another address,
/// and the list grows by one less than the number of entries it replaces.
pub proof fn law_upsert_nearby_keeps_others(nearby: Seq<DiscoveredDevice>, d: DiscoveredDevice)
    ensures
        ({
            let out = stable_sorted(without_address(nearby, d.address@).push(d));
            &&& forall|i: int| 0 <= i < nearby.len() && (#[trigger] nearby[i]).address@ != d.address@
                ==> out.contains(nearby[i])
            &&& out.len() == nearby.len() - count_address(nearby, d.address@) + 1
        }),
{
    let kept = without_address(nearby, d.address@);
    let s = kept.push(d);
    let out = stable_sorted(s);
    lemma_without_address_count(nearby, d.address@);
    law_stable_sorted_ranked_permutation(s);
    assert forall|i: int| 0 <= i < nearby.len() && (#[trigger] nearby[i]).address@ != d.address@
        implies out.contains(nearby[i]) by {
        let e = nearby[i];
        let k = choose|k: int| 0 <= k < kept.len() && kept[k] == e;
        assert(s[k] == e);
        vstd::seq_lib::to_multiset_contains(s, e);
        vstd::seq_lib::to_multiset_contains(out, e);
    }
}

/// Forgets the device discovery reported as gone.
pub fn remove_nearby(nearby: &mut Vec<DiscoveredDevice>, address: &str)
    ensures
        final(nearby)@ == without_address(old(nearby)@, address@),
{
    let mut list: Vec<DiscoveredDevice> = Vec::new();
    std::mem::swap(&mut list, nearby);
    *nearby = take_without_address(list, address);
}

/// A nearby entry is stale once it has not been seen for 15 seconds.
pub const NEARBY_STALE_MS: u64 = 15_000;

/// The entry was seen less than 15 whole seconds before `now_ms`.
pub open spec fn is_fresh(d: DiscoveredDevice, now_ms: u64) -> bool {
    (if now_ms >= d.seen_at_ms { now_ms - d.seen_at_ms } else { 0int }) < NEARBY_STALE_MS
}

/// The entries of a nearby list still fresh at `now_ms`, in order.
pub open spec fn fresh_entries(s: Seq<DiscoveredDevice>, now_ms: u64) -> Seq<DiscoveredDevice>
    decreases s.len(),
{
    if s.len() == 0 {
        s
    } else if is_fresh(s.last(), now_ms) {
        fresh_entries(s.drop_last(), now_ms).push(s.last())
    } else {
        fresh_entries(s.drop_last(), now_ms)
    }
}

/// Drops the nearby entries not seen for 15 seconds.
pub fn prune_nearby(nearby: &mut Vec<DiscoveredDevice>, now_ms: u64)
    ensures
        final(nearby)@ == fresh_entries(old(nearby)@, now_ms),
{
    let ghost orig = nearby@;
    let mut rest: Vec<DiscoveredDevice> = Vec::new();
    std::mem::swap(&mut rest, nearby);
    let mut out: Vec<DiscoveredDevice> = Vec::new();
    let ghost mut n: int = 0;
    while rest.len() > 0
        invariant
            0 <= n <= orig.len(),
            rest@ == orig.skip(n),
            out@ == fresh_entries(orig.take(n), now_ms),
        decreases rest@.len(),
    {
        let d = rest.remove(0);
        proof {
            assert(d == orig[n]);
            assert(orig.take(n + 1).drop_last() =~= orig.take(n));
        }
        let age = now_ms.saturating_sub(d.seen_at_ms);
        if age < NEARBY_STALE_MS {
            out.push(d);
        }
        proof {
            n = n + 1;
            assert(rest@ =~= orig.skip(n));
        }
    }
    assert(orig.take(n) =~= orig);
    *nearby = out;
}

/// No two entries of a nearby list share an address.
pub open spec fn addresses_distinct(s: Seq<DiscoveredDevice>) -> bool {
    forall|i: int, j: int| #![trigger s[i], s[j]] 0 <= i < j < s.len() ==> s[i].address@ != s[j].address@
}

/// A nearby list as discovery keeps it: one entry per address, strongest
/// signal first and entries without a reading last.
pub open spec fn nearby_well_kept(s: Seq<DiscoveredDevice>) -> bool {
    addresses_distinct(s) && is_ranked(s)
}

proof fn lemma_without_address_well_kept(s: Seq<DiscoveredDevice>, address: Seq<char>)
    requires
        nearby_well_kept(s),
    ensures
        nearby_well_kept(without_address(s, address)),
    decreases s.len(),
{
    if s.len() > 0 {
        let t = s.drop_last();
        assert forall|i: int, j: int| 0 <= i < j < t.len() implies t[i].address@ != t[j].address@
            && t[i].ranks_before_eq(&t[j]) by {
            assert(t[i] == s[i] && t[j] == s[j]);
        }
        lemma_without_address_well_kept(t, address);
        lemma_without_address(t, address);
        let rt = without_address(t, address);
        if s.last().address@ != address {
            let r = rt.push(s.last());
            assert forall|i: int, j: int| 0 <= i < j < r.len() implies r[i].address@ != r[j].address@
                && r[i].ranks_before_eq(&r[j]) by {
                if j == rt.len() {
                    assert(r[i] == rt[i]);
                    assert(t.contains(rt[i]));
                    let k = choose|k: int| 0 <= k < t.len() && t[k] == rt[i];
                    assert(s[k] == t[k]);
                    assert(s[s.len() - 1] == s.last());
                } else {
                    assert(r[i] == rt[i] && r[j] == rt[j]);
                }
            }
        }
    }
}

proof fn lemma_fresh_entries_well_kept(s: Seq<DiscoveredDevice>, now_ms: u64)
    requires
        nearby_well_kept(s),
    ensures
        nearby_well_kept(fresh_entries(s, now_ms)),
        forall|i: int| 0 <= i < fresh_entries(s, now_ms).len() ==> s.contains(
            #[trigger] fresh_entries(s, now_ms)[i],
        ),
    decreases s.len(),
{
    if s.len() > 0 {
        let t = s.drop_last();
        assert forall|i: int, j: int| 0 <= i < j < t.len() implies t[i].address@ != t[j].address@
            && t[i].ranks_before_eq(&t[j]) by {
            assert(t[i] == s[i] && t[j] == s[j]);
        }
        lemma_fresh_entries_well_kept(t, now_ms);
        let rt = fresh_entries(t, now_ms);
        let r = fresh_entries(s, now_ms);
        assert forall|i: int| 0 <= i < r.len() implies s.contains(#[trigger] r[i]) by {
            if i < rt.len() {
                assert(r[i] == rt[i]);
                assert(t.contains(rt[i]));
                let k = choose|k: int| 0 <= k < t.len() && t[k] == rt[i];
                assert(s[k] == t[k]);
            } else {
                assert(r[i] == s.last());
                assert(s[s.len() - 1] == s.last());
            }
        }
        if is_fresh(s.last(), now_ms) {
            assert forall|i: int, j: int| 0 <= i < j < r.len() implies r[i].address@ != r[j].address@
                && r[i].ranks_before_eq(&r[j]) by {
                if j == rt.len() {
                    assert(r[i] == rt[i]);
                    assert(t.contains(rt[i]));
                    let k = choose|k: int| 0 <= k < t.len() && t[k] == rt[i];
                    assert(s[k] == t[k]);
                    assert(s[s.len() - 1] == s.last());
                } else {
                    assert(r[i] == rt[i] && r[j] == rt[j]);
                }
            }
        }
    }
}

/// Discovery keeps its nearby list well kept: starting from a list with one
/// entry per address in signal order, recording a device, forgetting one,
/// or dropping stale entries again gives such a list; a forgotten address
/// no longer occurs.
pub proof fn law_nearby_list_well_kept(
    nearby: Seq<DiscoveredDevice>,
    d: DiscoveredDevice,
    address: Seq<char>,
    now_ms: u64,
)
    requires
        nearby_well_kept(nearby),
    ensures
        nearby_well_kept(stable_sorted(without_address(nearby, d.address@).push(d))),
        nearby_well_kept(without_address(nearby, address)),
        forall|i: int| 0 <= i < without_address(nearby, address).len()
            ==> (#[trigger] without_address(nearby, address)[i]).address@ != address,
        nearby_well_kept(fresh_entries(nearby, now_ms)),
{
    lemma_without_address_well_kept(nearby, address);
    lemma_without_address(nearby, address);
    lemma_fresh_entries_well_kept(nearby, now_ms);
    lemma_without_address_well_kept(nearby, d.address@);
    lemma_without_address(nearby, d.address@);
    let kept = without_address(nearby, d.address@);
    let s = kept.push(d);
    let apart = |x: DiscoveredDevice, y: DiscoveredDevice| x.address@ != y.address@;
    assert forall|i: int, j: int| 0 <= i < j < s.len() implies apart(s[i], s[j]) by {
        if j == kept.len() {
            assert(s[i] == kept[i]);
        } else {
            assert(s[i] == kept[i] && s[j] == kept[j]);
        }
    }
    assert(pairwise_apart(s, apart));
    lemma_stable_sorted_pairwise(s, apart);
    law_stable_sorted_ranked_permutation(s);
    let out = stable_sorted(s);
    assert forall|i: int, j: int| 0 <= i < j < out.len() implies out[i].address@ != out[j].address@ by {
        assert(apart(out[i], out[j]));
    }
}

/// Number of signal samples kept per device.
pub const RSSI_HISTORY_MAX: usize = 60;

/// The signal history after one refresh: the new reading is appended, or,
/// when the device gave none, the previous reading is repeated so that gaps
/// carry over; then only the newest 60 samples are kept.
pub open spec fn spec_rssi_history_after(hist: Seq<i16>, rssi: Option<i16>) -> Seq<i16> {
    let pushed = match rssi {
        Some(r) => hist.push(r),
        None => if hist.len() > 0 {
            hist.push(hist.last())
        } else {
            hist
        },
    };
    if pushed.len() > RSSI_HISTORY_MAX {
        pushed.skip(pushed.len() - RSSI_HISTORY_MAX)
    } else {
        pushed
    }
}

/// Appends this refresh's signal reading of a connected device to its
/// rolling history.
pub fn push_rssi_sample(hist: &mut VecDeque<i16>, rssi: Option<i16>)
    ensures
        final(hist)@ == spec_rssi_history_after(old(hist)@, rssi),
{
    broadcast use vstd::std_specs::vecdeque::axiom_spec_len;
    match rssi {
        Some(r) => hist.push_back(r),
        None => {
            let n = hist.len();
            if n > 0 {
                let last = hist[n - 1];
                hist.push_back(last);
            }
        },
    }
    let ghost pushed = hist@;
    while hist.len() > RSSI_HISTORY_MAX
        invariant
            pushed.len() > RSSI_HISTORY_MAX ==> hist@ == pushed.skip(
                pushed.len() - hist@.len(),
            ) && RSSI_HISTORY_MAX <= hist@.len() <= pushed.len(),
            pushed.len() <= RSSI_HISTORY_MAX ==> hist@ == pushed,
        decreases hist@.len(),
    {
        let _front = hist.pop_front();
        assert(hist@ =~= pushed.skip(pushed.len() - hist@.len()));
    }
}

/// After any refresh a signal history holds at most 60 samples, and its
/// newest sample is the reading just taken when there was one.
pub proof fn law_rssi_history_bounded(hist: Seq<i16>, rssi: Option<i16>)
    ensures
        spec_rssi_history_after(hist, rssi).len() <= RSSI_HISTORY_MAX,
        rssi matches Some(r) ==> spec_rssi_history_after(hist, rssi).last() == r,
{
}

} // verus!
