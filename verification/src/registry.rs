use vstd::prelude::*;

use crate::error::BleError;

verus! {

/// One known peripheral: the platform's handle for it, whether a connection
/// to it is up, when (in milliseconds on a monotonic clock) it was last heard
/// from, and the service UUIDs (as 128-bit values) it advertises.
pub struct Peripheral<P> {
    pub handle: P,
    pub is_connected: bool,
    pub last_seen: u64,
    pub services: Vec<u128>,
}

impl<P> Peripheral<P> {
    /// A freshly discovered peripheral: not connected, seen at `now`,
    /// advertising `services`.
    pub fn new(handle: P, now: u64, services: Vec<u128>) -> (p: Self)
        ensures
            p.handle == handle,
            !p.is_connected,
            p.last_seen == now,
            p.services == services,
    {
        Peripheral { handle, is_connected: false, last_seen: now, services }
    }

    pub fn is_connected(&self) -> (connected: bool)
        ensures
            connected == self.is_connected,
    {
        self.is_connected
    }
}

/// Some entry of `s` carries `id`.
pub open spec fn has_id<P>(s: Seq<(Seq<char>, Peripheral<P>)>, id: Seq<char>) -> bool {
    exists|i: int| 0 <= i < s.len() && #[trigger] s[i].0 == id
}

/// No id occurs twice in `s`.
pub open spec fn distinct_ids<P>(s: Seq<(Seq<char>, Peripheral<P>)>) -> bool {
    forall|i: int, j: int| 0 <= i < s.len() && 0 <= j < s.len() && i != j ==> #[trigger] s[i].0 != #[trigger] s[j].0
}

/// The position of the entry that carries `id` (meaningful when `has_id`).
pub open spec fn index_of<P>(s: Seq<(Seq<char>, Peripheral<P>)>, id: Seq<char>) -> int {
    choose|i: int| 0 <= i < s.len() && #[trigger] s[i].0 == id
}

/// The peripheral stored under `id`, if any.
pub open spec fn lookup<P>(s: Seq<(Seq<char>, Peripheral<P>)>, id: Seq<char>) -> Option<Peripheral<P>> {
    if has_id(s, id) {
        Some(s[index_of(s, id)].1)
    } else {
        None
    }
}

/// The entries after storing `p` under `id`: an entry with that id is
/// replaced in place, otherwise the new entry goes last.
pub open spec fn inserted<P>(s: Seq<(Seq<char>, Peripheral<P>)>, id: Seq<char>, p: Peripheral<P>) -> Seq<
    (Seq<char>, Peripheral<P>),
> {
    if has_id(s, id) {
        s.update(index_of(s, id), (id, p))
    } else {
        s.push((id, p))
    }
}

/// Milliseconds from `since` to `now`; zero when `now` lies before `since`.
pub open spec fn elapsed_millis(since: u64, now: u64) -> int {
    if now >= since {
        now - since
    } else {
        0
    }
}

/// A device is stale when it has not been heard from for longer than
/// `timeout` seconds.
pub open spec fn is_stale<P>(p: Peripheral<P>, now: u64, timeout: u64) -> bool {
    elapsed_millis(p.last_seen, now) > timeout * 1000
}

/// The entries that a sweep at `now` with `timeout` keeps.
pub open spec fn keeps_fresh<P>(now: u64, timeout: u64) -> spec_fn((Seq<char>, Peripheral<P>)) -> bool {
    |e: (Seq<char>, Peripheral<P>)| !is_stale(e.1, now, timeout)
}

/// A device with these advertised services passes a scan filter: an empty
/// filter passes every device, otherwise the device advertises one of the
/// filter's services.
pub open spec fn advertises_any(services: Seq<u128>, filter: Seq<u128>) -> bool {
    filter.len() == 0 || exists|i: int, j: int|
        0 <= i < services.len() && 0 <= j < filter.len() && #[trigger] services[i] == #[trigger] filter[j]
}

/// The entries whose peripheral passes `filter`.
pub open spec fn passes_filter<P>(filter: Seq<u128>) -> spec_fn((Seq<char>, Peripheral<P>)) -> bool {
    |e: (Seq<char>, Peripheral<P>)| advertises_any(e.1.services@, filter)
}

/// The ids of the entries, in order.
pub open spec fn ids_of<P>(s: Seq<(Seq<char>, Peripheral<P>)>) -> Seq<Seq<char>> {
    s.map_values(|e: (Seq<char>, Peripheral<P>)| e.0)
}

/// The registry with one entry's peripheral replaced by `p` (same id).
pub open spec fn replaced_at<P>(s: Seq<(Seq<char>, Peripheral<P>)>, id: Seq<char>, p: Peripheral<P>) -> Seq<
    (Seq<char>, Peripheral<P>),
> {
    s.update(index_of(s, id), (id, p))
}

/// The peripheral with its last-seen time set to `now`.
pub open spec fn touched<P>(p: Peripheral<P>, now: u64) -> Peripheral<P> {
    Peripheral { last_seen: now, ..p }
}

/// The peripheral with its connection state set.
pub open spec fn with_connection<P>(p: Peripheral<P>, connected: bool) -> Peripheral<P> {
    Peripheral { is_connected: connected, ..p }
}

/// The peripheral with its advertised services replaced.
pub open spec fn with_services<P>(p: Peripheral<P>, services: Vec<u128>) -> Peripheral<P> {
    Peripheral { services, ..p }
}

/// The known peripherals, keyed by their id, in the order they were first
/// discovered. No id is stored twice.
pub struct DeviceRegistry<P> {
    entries: Vec<(String, Peripheral<P>)>,
}

pub open spec fn entry_view<P>(e: (String, Peripheral<P>)) -> (Seq<char>, Peripheral<P>) {
    (e.0@, e.1)
}

/// The contents of a vector of entries, ids as text.
pub open spec fn entries_view<P>(v: Seq<(String, Peripheral<P>)>) -> Seq<(Seq<char>, Peripheral<P>)> {
    v.map_values(|e: (String, Peripheral<P>)| entry_view(e))
}

impl<P> View for DeviceRegistry<P> {
    type V = Seq<(Seq<char>, Peripheral<P>)>;

    closed spec fn view(&self) -> Seq<(Seq<char>, Peripheral<P>)> {
        entries_view(self.entries@)
    }
}

/// With distinct ids, the entry at `i` is the one that `index_of` names.
proof fn lemma_index_of_unique<P>(s: Seq<(Seq<char>, Peripheral<P>)>, i: int)
    requires
        distinct_ids(s),
        0 <= i < s.len(),
    ensures
        has_id(s, s[i].0),
        index_of(s, s[i].0) == i,
        lookup(s, s[i].0) == Some(s[i].1),
{
    let id = s[i].0;
    assert(s[i].0 == id);
    let j = index_of(s, id);
    assert(0 <= j < s.len() && s[j].0 == id);
    if j != i {
        assert(s[i].0 != s[j].0);
    }
}

/// The entry at position `i` is what its id reads as.
pub proof fn lemma_lookup_at<P>(s: Seq<(Seq<char>, Peripheral<P>)>, i: int)
    requires
        distinct_ids(s),
        0 <= i < s.len(),
    ensures
        has_id(s, s[i].0),
        index_of(s, s[i].0) == i,
        lookup(s, s[i].0) == Some(s[i].1),
{
    lemma_index_of_unique(s, i);
}

/// Replacing the peripheral of an entry keeps the ids, hence their distinctness.
proof fn lemma_update_same_id<P>(s: Seq<(Seq<char>, Peripheral<P>)>, i: int, p: Peripheral<P>)
    requires
        distinct_ids(s),
        0 <= i < s.len(),
    ensures
        distinct_ids(s.update(i, (s[i].0, p))),
{
    let t = s.update(i, (s[i].0, p));
    assert forall|a: int, b: int| 0 <= a < t.len() && 0 <= b < t.len() && a != b implies #[trigger] t[a].0
        != #[trigger] t[b].0 by {
        assert(t[a].0 == s[a].0);
        assert(t[b].0 == s[b].0);
    }
}

/// Keeping some entries of a registry keeps its ids distinct.
proof fn lemma_filter_keeps_distinct<P>(
    s: Seq<(Seq<char>, Peripheral<P>)>,
    pred: spec_fn((Seq<char>, Peripheral<P>)) -> bool,
)
    requires
        distinct_ids(s),
    ensures
        distinct_ids(s.filter(pred)),
    decreases s.len(),
{
    reveal(Seq::filter);
    if s.len() > 0 {
        let r = s.drop_last();
        assert(distinct_ids(r)) by {
            assert forall|a: int, b: int| 0 <= a < r.len() && 0 <= b < r.len() && a != b implies #[trigger] r[a].0
                != #[trigger] r[b].0 by {
                assert(r[a] == s[a] && r[b] == s[b]);
            }
        }
        lemma_filter_keeps_distinct(r, pred);
        let f = r.filter(pred);
        if pred(s.last()) {
            let g = f.push(s.last());
            assert forall|i: int| 0 <= i < f.len() implies #[trigger] f[i].0 != s.last().0 by {
                assert(f.contains(f[i]));
                r.lemma_filter_contains_rev(pred, f[i]);
                let j = choose|j: int| 0 <= j < r.len() && r[j] == f[i];
                assert(s[j] == r[j]);
                assert(s[j].0 != s[s.len() - 1].0);
            }
            assert forall|a: int, b: int| 0 <= a < g.len() && 0 <= b < g.len() && a != b implies #[trigger] g[a].0
                != #[trigger] g[b].0 by {
                if a < f.len() && b < f.len() {
                    assert(g[a] == f[a] && g[b] == f[b]);
                } else if a < f.len() {
                    assert(g[a] == f[a]);
                } else {
                    assert(g[b] == f[b]);
                }
            }
        }
    }
}

/// The position of the entry that carries `id` among `entries`.
fn position_in<P>(entries: &Vec<(String, Peripheral<P>)>, id: &String) -> (found: Option<usize>)
    requires
        distinct_ids(entries_view(entries@)),
    ensures
        match found {
            Some(i) => i < entries@.len() && entries_view(entries@)[i as int].0 == id@ && index_of(
                entries_view(entries@),
                id@,
            ) == i && has_id(entries_view(entries@), id@),
            None => !has_id(entries_view(entries@), id@),
        },
{
    let ghost s = entries_view(entries@);
    let mut i: usize = 0;
    while i < entries.len()
        invariant
            i <= entries@.len(),
            s == entries_view(entries@),
            s.len() == entries@.len(),
            distinct_ids(s),
            forall|j: int| 0 <= j < i ==> #[trigger] s[j].0 != id@,
        decreases entries@.len() - i,
    {
        assert(s[i as int] == entry_view(entries@[i as int]));
        if entries[i].0 == *id {
            proof {
                lemma_index_of_unique(s, i as int);
            }
            return Some(i);
        }
        i += 1;
    }
    None
}

/// Whether `services` passes `filter`.
fn advertises(services: &Vec<u128>, filter: &Vec<u128>) -> (passes: bool)
    ensures
        passes == advertises_any(services@, filter@),
{
    if filter.len() == 0 {
        return true;
    }
    let mut i: usize = 0;
    while i < services.len()
        invariant
            i <= services@.len(),
            forall|a: int, b: int| 0 <= a < i && 0 <= b < filter@.len() ==> #[trigger] services@[a] != #[trigger] filter@[b],
        decreases services@.len() - i,
    {
        let mut j: usize = 0;
        while j < filter.len()
            invariant
                i < services@.len(),
                j <= filter@.len(),
                forall|a: int, b: int| 0 <= a < i && 0 <= b < filter@.len() ==> #[trigger] services@[a] != #[trigger] filter@[b],
                forall|b: int| 0 <= b < j ==> services@[i as int] != #[trigger] filter@[b],
            decreases filter@.len() - j,
        {
            if services[i] == filter[j] {
                assert(services@[i as int] == filter@[j as int]);
                return true;
            }
            j += 1;
        }
        i += 1;
    }
    false
}

impl<P> DeviceRegistry<P> {
    /// The registry's invariant: no id is stored twice.
    #[verifier::type_invariant]
    spec fn ids_are_distinct(&self) -> bool {
        distinct_ids(entries_view(self.entries@))
    }

    /// An empty registry.
    pub fn new() -> (r: Self)
        ensures
            r@ == Seq::<(Seq<char>, Peripheral<P>)>::empty(),
    {
        let entries: Vec<(String, Peripheral<P>)> = Vec::new();
        assert(entries_view(entries@) =~= Seq::<(Seq<char>, Peripheral<P>)>::empty());
        DeviceRegistry { entries }
    }

    /// The number of known peripherals.
    pub fn len(&self) -> (n: usize)
        ensures
            n == self@.len(),
            distinct_ids(self@),
    {
        proof {
            use_type_invariant(self);
        }
        self.entries.len()
    }

    /// All entries, id first, in registry order.
    pub fn entries(&self) -> (all: &Vec<(String, Peripheral<P>)>)
        ensures
            entries_view(all@) == self@,
            distinct_ids(self@),
    {
        proof {
            use_type_invariant(self);
        }
        &self.entries
    }

    /// Whether a peripheral with `id` is known.
    pub fn contains_id(&self, id: &String) -> (known: bool)
        ensures
            known == has_id(self@, id@),
    {
        proof {
            use_type_invariant(self);
        }
        position_in(&self.entries, id).is_some()
    }

    /// The peripheral stored under `id`.
    pub fn get(&self, id: &String) -> (found: Option<&Peripheral<P>>)
        ensures
            match found {
                Some(p) => lookup(self@, id@) == Some(*p),
                None => lookup(self@, id@) is None,
            },
    {
        proof {
            use_type_invariant(self);
        }
        match position_in(&self.entries, id) {
            Some(i) => {
                assert(self@[i as int] == entry_view(self.entries@[i as int]));
                Some(&self.entries[i].1)
            },
            None => None,
        }
    }

    /// The peripheral that a connect or disconnect request for `id` goes to;
    /// an unknown id is refused.
    pub fn lookup_peripheral(&self, id: &String) -> (target: Result<&Peripheral<P>, BleError>)
        ensures
            match target {
                Ok(p) => lookup(self@, id@) == Some(*p),
                Err(e) => e == BleError::UnknownPeripheral && lookup(self@, id@) is None,
            },
    {
        match self.get(id) {
            Some(p) => Ok(p),
            None => Err(BleError::UnknownPeripheral),
        }
    }

    /// The ids of the peripherals that pass `filter`, in registry order.
    pub fn matching_ids(&self, filter: &Vec<u128>) -> (ids: Vec<String>)
        ensures
            ids@.map_values(|s: String| s@) == ids_of(self@.filter(passes_filter(filter@))),
            forall|x: int, y: int| 0 <= x < ids@.len() && 0 <= y < ids@.len() && x != y ==> (#[trigger] ids@[x])@
                != (#[trigger] ids@[y])@,
            forall|i: int|
                0 <= i < self@.len() ==> (ids@.map_values(|s: String| s@).contains(#[trigger] self@[i].0) <==> (
                filter@.len() == 0 || exists|a: int, b: int|
                    0 <= a < self@[i].1.services@.len() && 0 <= b < filter@.len() && #[trigger] self@[i].1.services@[a]
                        == #[trigger] filter@[b])),
    {
        proof {
            use_type_invariant(self);
        }
        let ghost s = self@;
        let ghost pred = passes_filter::<P>(filter@);
        let mut ids: Vec<String> = Vec::new();
        let mut i: usize = 0;
        proof {
            reveal(Seq::filter);
            assert(ids@.map_values(|t: String| t@) =~= ids_of(s.take(0).filter(pred)));
        }
        while i < self.entries.len()
            invariant
                s == self@,
                s.len() == self.entries@.len(),
                i <= s.len(),
                pred == passes_filter::<P>(filter@),
                ids@.map_values(|t: String| t@) == ids_of(s.take(i as int).filter(pred)),
            decreases s.len() - i,
        {
            assert(s[i as int] == entry_view(self.entries@[i as int]));
            let ghost before = ids@;
            let ghost kept = s.take(i as int).filter(pred);
            proof {
                assert(s.take(i as int + 1) =~= s.take(i as int).push(s[i as int]));
                s.take(i as int).lemma_filter_push(s[i as int], pred);
            }
            if advertises(&self.entries[i].1.services, filter) {
                let id = self.entries[i].0.clone();
                ids.push(id);
                proof {
                    assert(ids@.map_values(|t: String| t@) =~= before.map_values(|t: String| t@).push(s[i as int].0));
                    assert(ids_of(kept.push(s[i as int])) =~= ids_of(kept).push(s[i as int].0));
                }
            }
            i += 1;
        }
        proof {
            assert(s.take(s.len() as int) =~= s);
            law_matching_exactly_the_advertisers(s, filter@);
            let r = ids_of(s.filter(pred));
            assert forall|x: int, y: int| 0 <= x < ids@.len() && 0 <= y < ids@.len() && x != y implies (
            #[trigger] ids@[x])@ != (#[trigger] ids@[y])@ by {
                assert(ids@.map_values(|t: String| t@)[x] == ids@[x]@);
                assert(ids@.map_values(|t: String| t@)[y] == ids@[y]@);
                assert(r[x] != r[y]);
            }
        }
        ids
    }

    /// Stores `device` under `id`, replacing the peripheral known under that
    /// id; returns the replaced one.
    pub fn insert(&mut self, id: String, device: Peripheral<P>) -> (previous: Option<Peripheral<P>>)
        ensures
            final(self)@ == inserted(old(self)@, id@, device),
            previous == lookup(old(self)@, id@),
            lookup(final(self)@, id@) == Some(device),
            forall|k: Seq<char>| k != id@ ==> #[trigger] lookup(final(self)@, k) == lookup(old(self)@, k),
    {
        proof {
            use_type_invariant(&*self);
            let s0 = self@;
            law_lookup_after_insert(s0, id@, device, id@);
            assert forall|k: Seq<char>| k != id@ implies #[trigger] lookup(inserted(s0, id@, device), k) == lookup(
                s0,
                k,
            ) by {
                law_lookup_after_insert(s0, id@, device, k);
            }
        }
        let ghost before = self@;
        let ghost key = id@;
        let mut entries: Vec<(String, Peripheral<P>)> = Vec::new();
        std::mem::swap(&mut entries, &mut self.entries);
        assert(entries_view(entries@) == before);
        match position_in(&entries, &id) {
            Some(i) => {
                let removed = entries.remove(i);
                entries.insert(i, (id, device));
                proof {
                    assert(entries_view(entries@) =~= before.update(i as int, (key, device)));
                    assert(before[i as int] == entry_view(removed));
                    lemma_update_same_id(before, i as int, device);
                }
                self.entries = entries;
                Some(removed.1)
            },
            None => {
                entries.push((id, device));
                proof {
                    assert(entries_view(entries@) =~= before.push((key, device)));
                    let s = entries_view(entries@);
                    assert forall|a: int, b: int| 0 <= a < s.len() && 0 <= b < s.len() && a != b implies #[trigger] s[a].0
                        != #[trigger] s[b].0 by {
                        if a < before.len() && b < before.len() {
                            assert(s[a] == before[a] && s[b] == before[b]);
                        } else if a < before.len() {
                            assert(s[a] == before[a]);
                            assert(before[a].0 != key);
                        } else {
                            assert(s[b] == before[b]);
                            assert(before[b].0 != key);
                        }
                    }
                }
                self.entries = entries;
                None
            },
        }
    }

    /// Drops every peripheral that has not been heard from for longer than
    /// `timeout` seconds at `now`; the others keep their order.
    pub fn remove_stale_devices(&mut self, now: u64, timeout: u64)
        ensures
            final(self)@ == old(self)@.filter(keeps_fresh(now, timeout)),
            forall|i: int|
                0 <= i < old(self)@.len() && elapsed_millis(old(self)@[i].1.last_seen, now) <= timeout * 1000
                    ==> final(self)@.contains(#[trigger] old(self)@[i]),
            forall|j: int|
                0 <= j < final(self)@.len() ==> old(self)@.contains(#[trigger] final(self)@[j]) && elapsed_millis(
                    final(self)@[j].1.last_seen,
                    now,
                ) <= timeout * 1000,
    {
        proof {
            use_type_invariant(&*self);
        }
        let ghost before = self@;
        let ghost pred = keeps_fresh::<P>(now, timeout);
        let mut pending: Vec<(String, Peripheral<P>)> = Vec::new();
        std::mem::swap(&mut pending, &mut self.entries);
        let ghost n = before.len();
        let total = pending.len();
        assert(total == n);
        let mut kept: Vec<(String, Peripheral<P>)> = Vec::new();
        let mut k: usize = 0;
        proof {
            reveal(Seq::filter);
            assert(entries_view(kept@) =~= before.take(0).filter(pred));
            assert(entries_view(pending@) =~= before.skip(0));
        }
        while pending.len() > 0
            invariant
                n == before.len(),
                n <= usize::MAX,
                k <= n,
                pending@.len() == n - k,
                entries_view(pending@) == before.skip(k as int),
                entries_view(kept@) == before.take(k as int).filter(pred),
                pred == keeps_fresh::<P>(now, timeout),
            decreases pending@.len(),
        {
            let ghost rest = pending@;
            let entry = pending.remove(0);
            proof {
                assert(entries_view(rest)[0] == entry_view(entry));
                assert(before.skip(k as int)[0] == before[k as int]);
                assert(before.take(k as int + 1) =~= before.take(k as int).push(before[k as int]));
                before.take(k as int).lemma_filter_push(before[k as int], pred);
                assert(pending@ == rest.remove(0));
                assert forall|j: int| 0 <= j < pending@.len() implies #[trigger] pending@[j] == rest[j + 1] by {}
                assert forall|j: int| 0 <= j < pending@.len() implies entry_view(#[trigger] pending@[j]) == before.skip(
                    k as int + 1,
                )[j] by {
                    assert(entries_view(rest)[j + 1] == entry_view(rest[j + 1]));
                    assert(before.skip(k as int)[j + 1] == before[k as int + 1 + j]);
                }
                assert(entries_view(pending@) =~= before.skip(k as int + 1));
            }
            let elapsed: u64 = if now >= entry.1.last_seen {
                now - entry.1.last_seen
            } else {
                0
            };
            let ghost old_kept = kept@;
            if (elapsed as u128) <= (timeout as u128) * 1000 {
                kept.push(entry);
                assert(entries_view(kept@) =~= entries_view(old_kept).push(entry_view(entry)));
            }
            k += 1;
        }
        proof {
            assert(before.take(n as int) =~= before);
            lemma_filter_keeps_distinct(before, pred);
            law_sweep_keeps_exactly_the_fresh(before, now, timeout);
        }
        self.entries = kept;
    }

    /// Records that the peripheral with `id` was heard from at `now`;
    /// returns whether it is known.
    pub fn touch(&mut self, id: &String, now: u64) -> (known: bool)
        ensures
            known == has_id(old(self)@, id@),
            known ==> final(self)@ == replaced_at(
                old(self)@,
                id@,
                touched(lookup(old(self)@, id@).unwrap(), now),
            ),
            known ==> (lookup(final(self)@, id@) matches Some(p) && p.last_seen == now && p.is_connected == lookup(
                old(self)@,
                id@,
            ).unwrap().is_connected && p.handle == lookup(old(self)@, id@).unwrap().handle && p.services == lookup(
                old(self)@,
                id@,
            ).unwrap().services),
            forall|k: Seq<char>| k != id@ ==> #[trigger] lookup(final(self)@, k) == lookup(old(self)@, k),
            !known ==> final(self)@ == old(self)@,
    {
        proof {
            use_type_invariant(&*self);
        }
        let ghost before = self@;
        let mut entries: Vec<(String, Peripheral<P>)> = Vec::new();
        std::mem::swap(&mut entries, &mut self.entries);
        assert(entries_view(entries@) == before);
        match position_in(&entries, id) {
            Some(i) => {
                let (key, mut device) = entries.remove(i);
                proof {
                    assert(before[i as int] == (key@, device));
                }
                device.last_seen = now;
                entries.insert(i, (key, device));
                proof {
                    assert(entries_view(entries@) =~= before.update(i as int, (before[i as int].0, device)));
                    lemma_update_same_id(before, i as int, device);
                }
                proof {
                    assert(has_id(before, id@));
                    assert forall|k: Seq<char>| k != id@ implies #[trigger] lookup(entries_view(entries@), k) == lookup(before, k) by {
                        law_touch_refreshes(before, id@, now, k);
                    }
                    law_touch_refreshes(before, id@, now, id@);
                }
                self.entries = entries;
                true
            },
            None => {
                self.entries = entries;
                false
            },
        }
    }

    /// Records whether a connection to the peripheral with `id` is up;
    /// returns whether it is known.
    pub fn set_connected(&mut self, id: &String, connected: bool) -> (known: bool)
        ensures
            known == has_id(old(self)@, id@),
            known ==> final(self)@ == replaced_at(
                old(self)@,
                id@,
                with_connection(lookup(old(self)@, id@).unwrap(), connected),
            ),
            known ==> (lookup(final(self)@, id@) matches Some(p) && p.is_connected == connected && p.last_seen
                == lookup(old(self)@, id@).unwrap().last_seen && p.handle == lookup(old(self)@, id@).unwrap().handle
                && p.services == lookup(old(self)@, id@).unwrap().services),
            forall|k: Seq<char>| k != id@ ==> #[trigger] lookup(final(self)@, k) == lookup(old(self)@, k),
            !known ==> final(self)@ == old(self)@,
    {
        proof {
            use_type_invariant(&*self);
        }
        let ghost before = self@;
        let mut entries: Vec<(String, Peripheral<P>)> = Vec::new();
        std::mem::swap(&mut entries, &mut self.entries);
        assert(entries_view(entries@) == before);
        match position_in(&entries, id) {
            Some(i) => {
                let (key, mut device) = entries.remove(i);
                proof {
                    assert(before[i as int] == (key@, device));
                }
                device.is_connected = connected;
                entries.insert(i, (key, device));
                proof {
                    assert(entries_view(entries@) =~= before.update(i as int, (before[i as int].0, device)));
                    lemma_update_same_id(before, i as int, device);
                }
                proof {
                    assert(has_id(before, id@));
                    assert forall|k: Seq<char>| k != id@ implies #[trigger] lookup(entries_view(entries@), k) == lookup(before, k) by {
                        law_set_connected_records_state(before, id@, connected, k);
                    }
                    law_set_connected_records_state(before, id@, connected, id@);
                }
                self.entries = entries;
                true
            },
            None => {
                self.entries = entries;
                false
            },
        }
    }

    /// Records the services that the peripheral with `id` advertises;
    /// returns whether it is known.
    pub fn set_services(&mut self, id: &String, services: Vec<u128>) -> (known: bool)
        ensures
            known == has_id(old(self)@, id@),
            known ==> final(self)@ == replaced_at(
                old(self)@,
                id@,
                with_services(lookup(old(self)@, id@).unwrap(), services),
            ),
            known ==> (lookup(final(self)@, id@) matches Some(p) && p.services == services && p.is_connected
                == lookup(old(self)@, id@).unwrap().is_connected && p.last_seen == lookup(old(self)@, id@).unwrap().last_seen
                && p.handle == lookup(old(self)@, id@).unwrap().handle),
            forall|k: Seq<char>| k != id@ ==> #[trigger] lookup(final(self)@, k) == lookup(old(self)@, k),
            !known ==> final(self)@ == old(self)@,
    {
        proof {
            use_type_invariant(&*self);
        }
        let ghost before = self@;
        let mut entries: Vec<(String, Peripheral<P>)> = Vec::new();
        std::mem::swap(&mut entries, &mut self.entries);
        assert(entries_view(entries@) == before);
        match position_in(&entries, id) {
            Some(i) => {
                let (key, mut device) = entries.remove(i);
                proof {
                    assert(before[i as int] == (key@, device));
                }
                device.services = services;
                entries.insert(i, (key, device));
                proof {
                    assert(entries_view(entries@) =~= before.update(i as int, (before[i as int].0, device)));
                    lemma_update_same_id(before, i as int, device);
                }
                proof {
                    assert(has_id(before, id@));
                    assert forall|k: Seq<char>| k != id@ implies #[trigger] lookup(entries_view(entries@), k) == lookup(before, k) by {
                        law_set_services_records_services(before, id@, services, k);
                    }
                    law_set_services_records_services(before, id@, services, id@);
                }
                self.entries = entries;
                true
            },
            None => {
                self.entries = entries;
                false
            },
        }
    }
}

/// Reading an id right after storing a peripheral under it gives that
/// peripheral back; every other id reads as before, and ids stay distinct.
pub proof fn law_lookup_after_insert<P>(
    s: Seq<(Seq<char>, Peripheral<P>)>,
    id: Seq<char>,
    p: Peripheral<P>,
    other: Seq<char>,
)
    requires
        distinct_ids(s),
    ensures
        distinct_ids(inserted(s, id, p)),
        lookup(inserted(s, id, p), id) == Some(p),
        other != id ==> lookup(inserted(s, id, p), other) == lookup(s, other),
        inserted(s, id, p).len() == if has_id(s, id) { s.len() } else { s.len() + 1 },
{
    let t = inserted(s, id, p);
    if has_id(s, id) {
        let i = index_of(s, id);
        lemma_update_same_id(s, i, p);
        assert(t == s.update(i, (s[i].0, p)));
        lemma_index_of_unique(t, i);
        if other != id && has_id(s, other) {
            let j = index_of(s, other);
            assert(j != i);
            assert(t[j] == s[j]);
            lemma_index_of_unique(t, j);
            lemma_index_of_unique(s, j);
        }
        if other != id && has_id(t, other) {
            let j = index_of(t, other);
            assert(t[j] == s[j] || j == i);
            assert(s[j].0 == other);
        }
    } else {
        assert forall|a: int, b: int| 0 <= a < t.len() && 0 <= b < t.len() && a != b implies #[trigger] t[a].0
            != #[trigger] t[b].0 by {
            if a < s.len() && b < s.len() {
                assert(t[a] == s[a] && t[b] == s[b]);
            } else if a < s.len() {
                assert(t[a] == s[a]);
            } else {
                assert(t[b] == s[b]);
            }
        }
        lemma_index_of_unique(t, s.len() as int);
        if other != id && has_id(s, other) {
            let j = index_of(s, other);
            assert(t[j] == s[j]);
            lemma_index_of_unique(t, j);
            lemma_index_of_unique(s, j);
        }
        if other != id && has_id(t, other) {
            let j = index_of(t, other);
            assert(j < s.len());
            assert(t[j] == s[j]);
        }
    }
}

/// Replacing the peripheral stored under a known id (as `touch` and
/// `set_connected` do) keeps the set of ids, makes the id read as the new
/// peripheral and leaves every other id as it was.
pub proof fn law_lookup_after_replace<P>(
    s: Seq<(Seq<char>, Peripheral<P>)>,
    id: Seq<char>,
    p: Peripheral<P>,
    other: Seq<char>,
)
    requires
        distinct_ids(s),
        has_id(s, id),
    ensures
        distinct_ids(replaced_at(s, id, p)),
        replaced_at(s, id, p).len() == s.len(),
        lookup(replaced_at(s, id, p), id) == Some(p),
        other != id ==> lookup(replaced_at(s, id, p), other) == lookup(s, other),
        has_id(replaced_at(s, id, p), other) == has_id(s, other),
{
    assert(replaced_at(s, id, p) == inserted(s, id, p));
    law_lookup_after_insert(s, id, p, other);
    let t = replaced_at(s, id, p);
    if has_id(t, other) {
        let j = index_of(t, other);
        if other != id {
            assert(t[j] == s[j] || j == index_of(s, id));
            assert(s[j].0 == other);
        }
    }
    if has_id(s, other) && other == id {
        let i = index_of(s, id);
        assert(t[i].0 == id);
    }
}

/// After a sweep at `now` with `timeout`, an id reads as the peripheral it
/// had before exactly when that peripheral was heard from within the last
/// `timeout` seconds; every device unheard for longer is gone.
pub proof fn law_sweep_lookup<P>(s: Seq<(Seq<char>, Peripheral<P>)>, now: u64, timeout: u64, id: Seq<char>)
    requires
        distinct_ids(s),
    ensures
        distinct_ids(s.filter(keeps_fresh(now, timeout))),
        lookup(s.filter(keeps_fresh(now, timeout)), id) == match lookup(s, id) {
            Some(p) => if is_stale(p, now, timeout) { None } else { Some(p) },
            None => None,
        },
        forall|i: int|
            0 <= i < s.filter(keeps_fresh(now, timeout)).len() ==> elapsed_millis(
                #[trigger] s.filter(keeps_fresh(now, timeout))[i].1.last_seen,
                now,
            ) <= timeout * 1000,
{
    broadcast use vstd::seq_lib::group_filter_ensures;

    let pred = keeps_fresh::<P>(now, timeout);
    let f = s.filter(pred);
    lemma_filter_keeps_distinct(s, pred);
    if has_id(f, id) {
        let j = index_of(f, id);
        assert(f.contains(f[j]));
        s.lemma_filter_contains_rev(pred, f[j]);
        let m = choose|m: int| 0 <= m < s.len() && s[m] == f[j];
        assert(s[m].0 == id);
        lemma_index_of_unique(s, m);
        lemma_index_of_unique(f, j);
        assert(pred(f[j]));
    }
    if has_id(s, id) {
        let i = index_of(s, id);
        lemma_index_of_unique(s, i);
        if pred(s[i]) {
            assert(f.contains(s[i]));
            let j = choose|j: int| 0 <= j < f.len() && f[j] == s[i];
            assert(f[j].0 == id);
            lemma_index_of_unique(f, j);
        }
    }
}

/// Sweeping twice with the same clock reading and timeout leaves what one
/// sweep left.
pub proof fn law_sweep_idempotent<P>(s: Seq<(Seq<char>, Peripheral<P>)>, now: u64, timeout: u64)
    ensures
        s.filter(keeps_fresh(now, timeout)).filter(keeps_fresh(now, timeout)) == s.filter(
            keeps_fresh(now, timeout),
        ),
    decreases s.len(),
{
    let pred = keeps_fresh::<P>(now, timeout);
    reveal(Seq::filter);
    if s.len() > 0 {
        let r = s.drop_last();
        law_sweep_idempotent(r, now, timeout);
        let f = r.filter(pred);
        if pred(s.last()) {
            f.lemma_filter_push(s.last(), pred);
        }
    }
}

/// A sweep keeps exactly the devices heard from within the timeout: every
/// device heard from at most `timeout` seconds before `now` is still there,
/// whether connected or not, and every device left was there before and was
/// heard from within the timeout.
pub proof fn law_sweep_keeps_exactly_the_fresh<P>(s: Seq<(Seq<char>, Peripheral<P>)>, now: u64, timeout: u64)
    ensures
        forall|i: int|
            0 <= i < s.len() && elapsed_millis(s[i].1.last_seen, now) <= timeout * 1000 ==> #[trigger] s.filter(
                keeps_fresh(now, timeout),
            ).contains(s[i]),
        forall|j: int|
            0 <= j < s.filter(keeps_fresh(now, timeout)).len() ==> s.contains(
                #[trigger] s.filter(keeps_fresh(now, timeout))[j],
            ) && elapsed_millis(s.filter(keeps_fresh(now, timeout))[j].1.last_seen, now) <= timeout * 1000,
{
    broadcast use vstd::seq_lib::group_filter_ensures;

    let pred = keeps_fresh::<P>(now, timeout);
    let f = s.filter(pred);
    assert forall|i: int| 0 <= i < s.len() && elapsed_millis(s[i].1.last_seen, now) <= timeout * 1000 implies #[trigger] f.contains(
        s[i],
    ) by {
        assert(pred(s[i]));
        s.lemma_filter_contains(pred, i);
    }
    assert forall|j: int| 0 <= j < f.len() implies s.contains(#[trigger] f[j]) && elapsed_millis(f[j].1.last_seen, now)
        <= timeout * 1000 by {
        assert(f.contains(f[j]));
        s.lemma_filter_contains_rev(pred, f[j]);
        s.lemma_filter_pred(pred, j);
    }
}

/// Matching against a filter picks exactly the devices that advertise a
/// service equal (as a whole 128-bit value) to one of the filter's, or every
/// device when the filter is empty, and names each of them once.
pub proof fn law_matching_exactly_the_advertisers<P>(s: Seq<(Seq<char>, Peripheral<P>)>, filter: Seq<u128>)
    requires
        distinct_ids(s),
    ensures
        forall|i: int|
            0 <= i < s.len() ==> (ids_of(s.filter(passes_filter(filter))).contains(#[trigger] s[i].0) <==> (
            filter.len() == 0 || exists|a: int, b: int|
                0 <= a < s[i].1.services@.len() && 0 <= b < filter.len() && #[trigger] s[i].1.services@[a]
                    == #[trigger] filter[b])),
        forall|x: int, y: int|
            0 <= x < ids_of(s.filter(passes_filter(filter))).len() && 0 <= y < ids_of(
                s.filter(passes_filter(filter)),
            ).len() && x != y ==> #[trigger] ids_of(s.filter(passes_filter(filter)))[x] != #[trigger] ids_of(
                s.filter(passes_filter(filter)),
            )[y],
{
    broadcast use vstd::seq_lib::group_filter_ensures;

    let pred = passes_filter::<P>(filter);
    let f = s.filter(pred);
    let r = ids_of(f);
    lemma_filter_keeps_distinct(s, pred);
    assert forall|x: int, y: int| 0 <= x < r.len() && 0 <= y < r.len() && x != y implies #[trigger] r[x]
        != #[trigger] r[y] by {
        assert(r[x] == f[x].0 && r[y] == f[y].0);
    }
    assert forall|i: int| 0 <= i < s.len() implies (r.contains(#[trigger] s[i].0) <==> (filter.len() == 0
        || exists|a: int, b: int|
        0 <= a < s[i].1.services@.len() && 0 <= b < filter.len() && #[trigger] s[i].1.services@[a]
            == #[trigger] filter[b])) by {
        if r.contains(s[i].0) {
            let k = choose|k: int| 0 <= k < r.len() && r[k] == s[i].0;
            assert(r[k] == f[k].0);
            assert(f.contains(f[k]));
            s.lemma_filter_contains_rev(pred, f[k]);
            let m = choose|m: int| 0 <= m < s.len() && s[m] == f[k];
            if m != i {
                assert(s[m].0 != s[i].0);
            }
            s.lemma_filter_pred(pred, k);
        }
        if filter.len() == 0 || exists|a: int, b: int|
            0 <= a < s[i].1.services@.len() && 0 <= b < filter.len() && #[trigger] s[i].1.services@[a]
                == #[trigger] filter[b] {
            assert(pred(s[i]));
            s.lemma_filter_contains(pred, i);
            let k = choose|k: int| 0 <= k < f.len() && f[k] == s[i];
            assert(r[k] == f[k].0);
        }
    }
}

/// Refreshing a known device sets its last-seen time to the clock reading
/// and leaves its handle, connection state and services, and every other
/// device, as they were.
pub proof fn law_touch_refreshes<P>(s: Seq<(Seq<char>, Peripheral<P>)>, id: Seq<char>, now: u64, other: Seq<char>)
    requires
        distinct_ids(s),
        has_id(s, id),
    ensures
        lookup(replaced_at(s, id, touched(lookup(s, id).unwrap(), now)), id) matches Some(p) && p.last_seen == now
            && p.is_connected == lookup(s, id).unwrap().is_connected && p.handle == lookup(s, id).unwrap().handle
            && p.services == lookup(s, id).unwrap().services,
        other != id ==> lookup(replaced_at(s, id, touched(lookup(s, id).unwrap(), now)), other) == lookup(s, other),
{
    law_lookup_after_replace(s, id, touched(lookup(s, id).unwrap(), now), other);
}

/// Recording a known device's connection state sets exactly that state and
/// leaves its handle, last-seen time and services, and every other device, as
/// they were.
pub proof fn law_set_connected_records_state<P>(
    s: Seq<(Seq<char>, Peripheral<P>)>,
    id: Seq<char>,
    connected: bool,
    other: Seq<char>,
)
    requires
        distinct_ids(s),
        has_id(s, id),
    ensures
        lookup(replaced_at(s, id, with_connection(lookup(s, id).unwrap(), connected)), id) matches Some(p)
            && p.is_connected == connected && p.last_seen == lookup(s, id).unwrap().last_seen && p.handle == lookup(
            s,
            id,
        ).unwrap().handle && p.services == lookup(s, id).unwrap().services,
        other != id ==> lookup(replaced_at(s, id, with_connection(lookup(s, id).unwrap(), connected)), other)
            == lookup(s, other),
{
    law_lookup_after_replace(s, id, with_connection(lookup(s, id).unwrap(), connected), other);
}

/// Recording a known device's advertised services sets exactly those and
/// leaves its handle, connection state and last-seen time, and every other
/// device, as they were.
pub proof fn law_set_services_records_services<P>(
    s: Seq<(Seq<char>, Peripheral<P>)>,
    id: Seq<char>,
    services: Vec<u128>,
    other: Seq<char>,
)
    requires
        distinct_ids(s),
        has_id(s, id),
    ensures
        lookup(replaced_at(s, id, with_services(lookup(s, id).unwrap(), services)), id) matches Some(p)
            && p.services == services && p.is_connected == lookup(s, id).unwrap().is_connected && p.last_seen
            == lookup(s, id).unwrap().last_seen && p.handle == lookup(s, id).unwrap().handle,
        other != id ==> lookup(replaced_at(s, id, with_services(lookup(s, id).unwrap(), services)), other)
            == lookup(s, other),
{
    law_lookup_after_replace(s, id, with_services(lookup(s, id).unwrap(), services), other);
}

} // verus!
