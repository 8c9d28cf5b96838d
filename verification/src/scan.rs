use vstd::prelude::*;

use crate::filter::{all_uuids, service_filter, uuid_parse};
use crate::registry::{
    advertises_any, distinct_ids, elapsed_millis, law_matching_exactly_the_advertisers, has_id, ids_of, index_of, inserted, lemma_lookup_at, keeps_fresh, lookup, passes_filter, replaced_at, touched, with_connection,
    with_services, DeviceRegistry, Peripheral,
};

verus! {

/// A device that has not been heard from for this many seconds, and is not
/// connected, is dropped on every tick of a scan.
pub const STALE_AFTER_SECS: u64 = 30;

/// A scan stops itself on the first tick after this many ticks.
pub const MAX_SCAN_TICKS: i32 = 10;

/// Whether a scan is running. The scan loop runs while it is set; stopping a
/// scan clears it.
pub struct ScanFlag {
    scanning: bool,
}

impl View for ScanFlag {
    type V = bool;

    closed spec fn view(&self) -> bool {
        self.scanning
    }
}

impl ScanFlag {
    /// No scan running.
    pub fn new() -> (flag: Self)
        ensures
            !flag@,
    {
        ScanFlag { scanning: false }
    }
}

/// Records whether a scan is running.
pub fn set_is_scanning(flag: &mut ScanFlag, value: bool)
    ensures
        final(flag)@ == value,
{
    flag.scanning = value;
}

/// Whether a scan is running: the value last recorded.
pub fn get_is_scanning(flag: &ScanFlag) -> (value: bool)
    ensures
        value == flag@,
{
    flag.scanning
}

/// The decision state of one scan: how many ticks it has seen and the
/// service UUIDs (as 128-bit values) it filters on.
pub struct ScanSession {
    ticks: i32,
    services: Vec<u128>,
}

impl View for ScanSession {
    type V = (int, Seq<u128>);

    closed spec fn view(&self) -> (int, Seq<u128>) {
        (self.ticks as int, self.services@)
    }
}

impl ScanSession {
    /// A session filtering on `services` that has seen no tick yet.
    pub fn new(services: Vec<u128>) -> (session: Self)
        ensures
            session@ == (0int, services@),
    {
        ScanSession { ticks: 0, services }
    }

    /// How many ticks the session has seen.
    pub fn ticks(&self) -> (n: i32)
        ensures
            n as int == self@.0,
    {
        self.ticks
    }

    /// The services the session filters on.
    pub fn services(&self) -> (services: &Vec<u128>)
        ensures
            services@ == self@.1,
    {
        &self.services
    }
}

/// What happens during a scan. `P` is the platform's handle of a peripheral;
/// ids are the peripherals' ids as text, services 128-bit UUID values.
pub enum ScanEvent<P> {
    /// The once-a-second timer fired.
    Tick,
    DeviceDiscovered { id: String, peripheral: P, services: Vec<u128> },
    DeviceUpdated { id: String },
    DeviceConnected { id: String },
    DeviceDisconnected { id: String },
    ManufacturerDataAdvertisement,
    ServiceDataAdvertisement,
    ServicesAdvertisement { id: String, services: Vec<u128> },
}

/// What the scan loop does after an event.
#[derive(Debug)]
pub enum ScanAction {
    /// Nothing beyond going on.
    Continue,
    /// Send the devices with these ids, in this order, to the scan's listener.
    ReportDevices { ids: Vec<String> },
}

/// The scanning flag after a tick that finds `ticks` ticks counted and the
/// flag at `scanning`.
pub open spec fn flag_after_tick(ticks: int, scanning: bool) -> bool {
    if ticks + 1 > MAX_SCAN_TICKS {
        false
    } else {
        scanning
    }
}

/// The scanning flag after the first `n` ticks of a session that started
/// with the flag at `scanning`, when nothing else touches the flag.
pub open spec fn flag_after_ticks(scanning: bool, n: nat) -> bool
    decreases n,
{
    if n == 0 {
        scanning
    } else {
        flag_after_tick(n - 1, flag_after_ticks(scanning, (n - 1) as nat))
    }
}

/// A scan stops itself: through its first `MAX_SCAN_TICKS` ticks the flag
/// keeps its value, and from the tick after that on it is cleared.
pub proof fn law_scan_stops_itself(scanning: bool, n: nat)
    ensures
        n <= MAX_SCAN_TICKS ==> flag_after_ticks(scanning, n) == scanning,
        n > MAX_SCAN_TICKS ==> !flag_after_ticks(scanning, n),
    decreases n,
{
    if n > 0 {
        law_scan_stops_itself(scanning, (n - 1) as nat);
    }
}

/// The ids that a report of `devices` to a scan filtering on `filter` holds:
/// those of the devices that pass the filter, in registry order.
pub open spec fn report_of<P>(devices: Seq<(Seq<char>, Peripheral<P>)>, filter: Seq<u128>) -> Seq<Seq<char>> {
    ids_of(devices.filter(passes_filter(filter)))
}

/// Starts a scan: records that a scan runs, then works out the services to
/// filter on. `None` when some filter text is not a UUID (the flag is set
/// all the same).
pub fn begin_scan(flag: &mut ScanFlag, filter: &Vec<String>) -> (started: Option<ScanSession>)
    ensures
        final(flag)@,
        started is Some <==> all_uuids(filter@.map_values(|s: String| s@)),
        started matches Some(r) ==> r@.0 == 0 && r@.1.len() == filter@.len() && forall|i: int|
            0 <= i < filter@.len() ==> uuid_parse(filter@[i]@) == Some(#[trigger] r@.1[i]),
{
    set_is_scanning(flag, true);
    match service_filter(filter) {
        Some(services) => Some(ScanSession::new(services)),
        None => None,
    }
}

/// Decides on one scan event at time `now` (milliseconds, same clock as the
/// registry's).
///
/// - A tick sweeps out the stale devices, counts the tick and, once the
///   count passes `MAX_SCAN_TICKS`, clears the scanning flag.
/// - A discovered device is stored (replacing one with the same id) as a
///   fresh, unconnected peripheral, and the known devices that pass the
///   session's filter are to be reported.
/// - An update refreshes the device's last-seen time; a connection or a
///   disconnection records the connection state; a services advertisement
///   records the advertised services. Unknown ids change nothing.
/// - Other advertisements change nothing.
pub fn handle_scan_event<P>(
    session: &mut ScanSession,
    flag: &mut ScanFlag,
    devices: &mut DeviceRegistry<P>,
    event: ScanEvent<P>,
    now: u64,
) -> (action: ScanAction)
    requires
        event is Tick ==> old(session)@.0 < i32::MAX,
    ensures
        match event {
            ScanEvent::Tick => {
                &&& final(devices)@ == old(devices)@.filter(keeps_fresh(now, STALE_AFTER_SECS))
                &&& final(session)@ == (old(session)@.0 + 1, old(session)@.1)
                &&& final(flag)@ == flag_after_tick(old(session)@.0, old(flag)@)
                &&& action is Continue
                &&& forall|i: int|
                    0 <= i < old(devices)@.len() && elapsed_millis(old(devices)@[i].1.last_seen, now)
                        <= STALE_AFTER_SECS * 1000 ==> final(devices)@.contains(#[trigger] old(devices)@[i])
                &&& forall|j: int|
                    0 <= j < final(devices)@.len() ==> old(devices)@.contains(#[trigger] final(devices)@[j])
                        && elapsed_millis(final(devices)@[j].1.last_seen, now) <= STALE_AFTER_SECS * 1000
            },
            ScanEvent::DeviceDiscovered { id, peripheral, services } => {
                &&& final(devices)@ == inserted(
                    old(devices)@,
                    id@,
                    Peripheral { handle: peripheral, is_connected: false, last_seen: now, services },
                )
                &&& final(session)@ == old(session)@
                &&& final(flag)@ == old(flag)@
                &&& action matches ScanAction::ReportDevices { ids } && ids@.map_values(|s: String| s@)
                    == report_of(final(devices)@, old(session)@.1)
                &&& lookup(final(devices)@, id@) == Some(
                    Peripheral { handle: peripheral, is_connected: false, last_seen: now, services },
                )
                &&& forall|k: Seq<char>| k != id@ ==> #[trigger] lookup(final(devices)@, k) == lookup(old(devices)@, k)
                &&& action matches ScanAction::ReportDevices { ids } && (forall|x: int, y: int|
                    0 <= x < ids@.len() && 0 <= y < ids@.len() && x != y ==> (#[trigger] ids@[x])@
                        != (#[trigger] ids@[y])@)
                &&& action matches ScanAction::ReportDevices { ids } && (forall|i: int|
                    0 <= i < final(devices)@.len() ==> (ids@.map_values(|s: String| s@).contains(
                        #[trigger] final(devices)@[i].0,
                    ) <==> (old(session)@.1.len() == 0 || exists|a: int, b: int|
                        0 <= a < final(devices)@[i].1.services@.len() && 0 <= b < old(session)@.1.len()
                            && #[trigger] final(devices)@[i].1.services@[a] == #[trigger] old(session)@.1[b])))
            },
            ScanEvent::DeviceUpdated { id } => {
                &&& final(devices)@ == if has_id(old(devices)@, id@) {
                    replaced_at(old(devices)@, id@, touched(lookup(old(devices)@, id@).unwrap(), now))
                } else {
                    old(devices)@
                }
                &&& final(session)@ == old(session)@
                &&& final(flag)@ == old(flag)@
                &&& has_id(old(devices)@, id@) ==> (lookup(final(devices)@, id@) matches Some(p) && p.last_seen == now && p.is_connected == lookup(old(devices)@, id@).unwrap().is_connected && p.services == lookup(old(devices)@, id@).unwrap().services)
                &&& forall|k: Seq<char>| k != id@ ==> #[trigger] lookup(final(devices)@, k) == lookup(old(devices)@, k)
                &&& action is Continue
            },
            ScanEvent::DeviceConnected { id } => {
                &&& final(devices)@ == if has_id(old(devices)@, id@) {
                    replaced_at(old(devices)@, id@, with_connection(lookup(old(devices)@, id@).unwrap(), true))
                } else {
                    old(devices)@
                }
                &&& final(session)@ == old(session)@
                &&& final(flag)@ == old(flag)@
                &&& has_id(old(devices)@, id@) ==> (lookup(final(devices)@, id@) matches Some(p) && p.is_connected && p.last_seen == lookup(old(devices)@, id@).unwrap().last_seen && p.services == lookup(old(devices)@, id@).unwrap().services)
                &&& forall|k: Seq<char>| k != id@ ==> #[trigger] lookup(final(devices)@, k) == lookup(old(devices)@, k)
                &&& action is Continue
            },
            ScanEvent::DeviceDisconnected { id } => {
                &&& final(devices)@ == if has_id(old(devices)@, id@) {
                    replaced_at(old(devices)@, id@, with_connection(lookup(old(devices)@, id@).unwrap(), false))
                } else {
                    old(devices)@
                }
                &&& final(session)@ == old(session)@
                &&& final(flag)@ == old(flag)@
                &&& has_id(old(devices)@, id@) ==> (lookup(final(devices)@, id@) matches Some(p) && !p.is_connected && p.last_seen == lookup(old(devices)@, id@).unwrap().last_seen && p.services == lookup(old(devices)@, id@).unwrap().services)
                &&& forall|k: Seq<char>| k != id@ ==> #[trigger] lookup(final(devices)@, k) == lookup(old(devices)@, k)
                &&& action is Continue
            },
            ScanEvent::ServicesAdvertisement { id, services } => {
                &&& final(devices)@ == if has_id(old(devices)@, id@) {
                    replaced_at(old(devices)@, id@, with_services(lookup(old(devices)@, id@).unwrap(), services))
                } else {
                    old(devices)@
                }
                &&& final(session)@ == old(session)@
                &&& final(flag)@ == old(flag)@
                &&& has_id(old(devices)@, id@) ==> (lookup(final(devices)@, id@) matches Some(p) && p.services == services && p.is_connected == lookup(old(devices)@, id@).unwrap().is_connected && p.last_seen == lookup(old(devices)@, id@).unwrap().last_seen)
                &&& forall|k: Seq<char>| k != id@ ==> #[trigger] lookup(final(devices)@, k) == lookup(old(devices)@, k)
                &&& action is Continue
            },
            _ => {
                &&& final(devices)@ == old(devices)@
                &&& final(session)@ == old(session)@
                &&& final(flag)@ == old(flag)@
                &&& action is Continue
            },
        },
{
    match event {
        ScanEvent::Tick => {
            devices.remove_stale_devices(now, STALE_AFTER_SECS);
            session.ticks = session.ticks + 1;
            if session.ticks > MAX_SCAN_TICKS {
                set_is_scanning(flag, false);
            }
            ScanAction::Continue
        },
        ScanEvent::DeviceDiscovered { id, peripheral, services } => {
            let _ = devices.insert(id, Peripheral::new(peripheral, now, services));
            let ids = devices.matching_ids(&session.services);
            ScanAction::ReportDevices { ids }
        },
        ScanEvent::DeviceUpdated { id } => {
            let _ = devices.touch(&id, now);
            ScanAction::Continue
        },
        ScanEvent::DeviceConnected { id } => {
            let _ = devices.set_connected(&id, true);
            ScanAction::Continue
        },
        ScanEvent::DeviceDisconnected { id } => {
            let _ = devices.set_connected(&id, false);
            ScanAction::Continue
        },
        ScanEvent::ServicesAdvertisement { id, services } => {
            let _ = devices.set_services(&id, services);
            ScanAction::Continue
        },
        _ => ScanAction::Continue,
    }
}

/// A report holds exactly the known devices that pass the scan's filter:
/// every reported id belongs to a device advertising one of the filter's
/// services (any device, for an empty filter), and every such device is
/// reported.
pub proof fn law_report_matches_filter<P>(devices: Seq<(Seq<char>, Peripheral<P>)>, filter: Seq<u128>, id: Seq<char>)
    requires
        distinct_ids(devices),
    ensures
        report_of(devices, filter).contains(id) <==> (lookup(devices, id) matches Some(p) && (filter.len() == 0
            || exists|a: int, b: int|
            0 <= a < p.services@.len() && 0 <= b < filter.len() && #[trigger] p.services@[a] == #[trigger] filter[b])),
{
    broadcast use vstd::seq_lib::group_filter_ensures;

    let pred = passes_filter::<P>(filter);
    let f = devices.filter(pred);
    let r = report_of(devices, filter);
    assert(r == ids_of(f));
    if r.contains(id) {
        let k = choose|k: int| 0 <= k < r.len() && r[k] == id;
        assert(r[k] == f[k].0);
        assert(f.contains(f[k]));
        devices.lemma_filter_contains_rev(pred, f[k]);
        let m = choose|m: int| 0 <= m < devices.len() && devices[m] == f[k];
        lemma_lookup_at(devices, m);
        assert(pred(f[k]));
    }
    if lookup(devices, id) matches Some(p) && advertises_any(p.services@, filter) {
        let m = index_of(devices, id);
        lemma_lookup_at(devices, m);
        assert(pred(devices[m]));
        assert(f.contains(devices[m]));
        let k = choose|k: int| 0 <= k < f.len() && f[k] == devices[m];
        assert(r[k] == f[k].0);
    }
}

/// A report names each device once: no id occurs twice in it, so its length
/// is the number of known devices that pass the filter.
pub proof fn law_report_names_each_once<P>(devices: Seq<(Seq<char>, Peripheral<P>)>, filter: Seq<u128>)
    requires
        distinct_ids(devices),
    ensures
        forall|x: int, y: int|
            0 <= x < report_of(devices, filter).len() && 0 <= y < report_of(devices, filter).len() && x != y
                ==> #[trigger] report_of(devices, filter)[x] != #[trigger] report_of(devices, filter)[y],
        report_of(devices, filter).len() == devices.filter(passes_filter(filter)).len(),
{
    law_matching_exactly_the_advertisers(devices, filter);
}

} // verus!
