//! The shared store: keyed byte values with time-to-live, and one broadcast
//! channel per pub/sub channel name.
//!
//! Time is a count of milliseconds on a clock that the caller chooses; every
//! operation that depends on it takes the current reading.

use vstd::prelude::*;
use vstd::hash_map::StringHashMap;

use tokio::sync::broadcast::{Receiver, Sender};

use crate::text::same_text;

verus! {

#[verifier::external_type_specification]
#[verifier::external_body]
#[verifier::reject_recursive_types(T)]
pub struct ExSender<T>(Sender<T>);

#[verifier::external_type_specification]
#[verifier::external_body]
#[verifier::reject_recursive_types(T)]
pub struct ExReceiver<T>(Receiver<T>);

/// How many messages a channel holds for a receiver that falls behind.
pub const CHANNEL_CAPACITY: usize = 1024;

/// Relies on `tokio::sync::broadcast::channel`: a new channel with room for
/// `capacity` messages per receiver, and its first receiver. It panics on a
/// capacity of zero or above `usize::MAX / 2`.
#[verifier::external_body]
fn open_channel(capacity: usize) -> (Sender<Vec<u8>>, Receiver<Vec<u8>>)
    requires
        0 < capacity <= usize::MAX / 2,
{
    tokio::sync::broadcast::channel(capacity)
}

/// Relies on `broadcast::Sender::send`: an error when no receiver is
/// subscribed, otherwise the number of receivers, which is then at least one.
#[verifier::external_body]
fn send_message(tx: &Sender<Vec<u8>>, message: Vec<u8>) -> (r: Option<usize>)
    ensures
        r matches Some(n) ==> n >= 1,
{
    tx.send(message).ok()
}

/// Relies on `broadcast::Sender::subscribe`: a new receiver that sees the
/// messages sent from now on.
#[verifier::external_body]
fn new_receiver(tx: &Sender<Vec<u8>>) -> Receiver<Vec<u8>> {
    tx.subscribe()
}

/// A stored value and the time it expires, if it does.
pub type EntryModel = (Seq<u8>, Option<u64>);

struct Entry {
    data: Vec<u8>,
    expires_at: Option<u64>,
}

/// What `get` returns for `key`.
pub open spec fn value_of(m: Map<Seq<char>, EntryModel>, key: Seq<char>) -> Option<Seq<u8>> {
    if m.contains_key(key) {
        Some(m[key].0)
    } else {
        None
    }
}

/// Whether some entry has an expiry time.
pub open spec fn has_deadline(m: Map<Seq<char>, EntryModel>) -> bool {
    exists|k: Seq<char>| m.contains_key(k) && (#[trigger] m[k]).1 is Some
}

/// Whether `t` is the earliest expiry time of the entries.
pub open spec fn is_earliest(m: Map<Seq<char>, EntryModel>, t: u64) -> bool {
    &&& exists|k: Seq<char>| m.contains_key(k) && (#[trigger] m[k]).1 == Some(t)
    &&& forall|k: Seq<char>| #[trigger]
        m.contains_key(k) && m[k].1 is Some ==> t <= m[k].1->Some_0
}

/// The expiry time of a value set at `now` with `expire` milliseconds to live;
/// a time past the clock's range stands at its end.
pub open spec fn expiry_at(now: u64, expire: Option<u64>) -> Option<u64> {
    match expire {
        None => None,
        Some(ms) => Some(
            if now + ms > u64::MAX {
                u64::MAX
            } else {
                (now + ms) as u64
            },
        ),
    }
}

pub open spec fn is_expired(e: EntryModel, now: u64) -> bool {
    e.1 matches Some(t) && t <= now
}

/// The entries that are left once those expired at `now` are removed.
pub open spec fn after_purge(m: Map<Seq<char>, EntryModel>, now: u64) -> Map<Seq<char>, EntryModel> {
    Map::new(|k: Seq<char>| m.contains_key(k) && !is_expired(m[k], now), |k: Seq<char>| m[k])
}

spec fn row_fits(entries: Map<Seq<char>, Entry>, row: (u64, String)) -> bool {
    entries.contains_key(row.1@) && entries[row.1@].expires_at == Some(row.0)
}

spec fn index_ok(entries: Map<Seq<char>, Entry>, rows: Seq<(u64, String)>) -> bool {
    &&& forall|i: int| 0 <= i < rows.len() ==> row_fits(entries, #[trigger] rows[i])
    &&& forall|k: Seq<char>| #[trigger]
        entries.contains_key(k) && entries[k].expires_at is Some ==> exists|i: int|
            0 <= i < rows.len() && (#[trigger] rows[i]).1@ == k
    &&& keys_unique(rows)
}

/// Pushing a row whose key none of `kept` has keeps the keys unique.
proof fn lemma_push_unique(kept: Seq<(u64, String)>, row: (u64, String))
    requires
        keys_unique(kept),
        forall|m: int| 0 <= m < kept.len() ==> (#[trigger] kept[m]).1@ != row.1@,
    ensures
        keys_unique(kept.push(row)),
{
    let out = kept.push(row);
    assert forall|a: int, b: int| 0 <= a < out.len() && 0 <= b < out.len() && a != b
        implies (#[trigger] out[a]).1@ != (#[trigger] out[b]).1@ by {
        if a < kept.len() && b < kept.len() {
            assert(out[a] == kept[a] && out[b] == kept[b]);
        } else if a < kept.len() {
            assert(out[a] == kept[a]);
        } else {
            assert(out[b] == kept[b]);
        }
    }
}

spec fn keys_unique(rows: Seq<(u64, String)>) -> bool {
    forall|i: int, j: int| 0 <= i < rows.len() && 0 <= j < rows.len() && i != j ==> (#[trigger] rows[i]).1@ != (#[trigger] rows[j]).1@
}

/// The keyed values, their expiry index, the channels, and the purger's stop flag.
pub struct Store {
    entries: StringHashMap<Entry>,
    expirations: Vec<(u64, String)>,
    channels: StringHashMap<Sender<Vec<u8>>>,
    shutdown: bool,
}

impl View for Store {
    type V = Map<Seq<char>, EntryModel>;

    closed spec fn view(&self) -> Map<Seq<char>, EntryModel> {
        Map::new(
            |k: Seq<char>| self.entries@.contains_key(k),
            |k: Seq<char>| (self.entries@[k].data@, self.entries@[k].expires_at),
        )
    }
}

impl Store {
    /// The names of the channels that have a broadcast endpoint.
    pub closed spec fn channel_names(&self) -> Set<Seq<char>> {
        self.channels@.dom()
    }

    /// Whether the purger has been told to stop.
    pub closed spec fn stopped(&self) -> bool {
        self.shutdown
    }

    spec fn row_ok(&self, row: (u64, String)) -> bool {
        row_fits(self.entries@, row)
    }

    /// Every index row names an entry with that expiry, every entry with an
    /// expiry has a row, and no two rows name the same key.
    pub closed spec fn wf(&self) -> bool {
        index_ok(self.entries@, self.expirations@)
    }

    /// An empty store.
    pub fn new() -> (r: Store)
        ensures
            r.wf(),
            r@ == Map::<Seq<char>, EntryModel>::empty(),
            r.channel_names() == Set::<Seq<char>>::empty(),
            !r.stopped(),
    {
        let r = Store {
            entries: StringHashMap::new(),
            expirations: Vec::new(),
            channels: StringHashMap::new(),
            shutdown: false,
        };
        assert(r@ =~= Map::<Seq<char>, EntryModel>::empty());
        assert(r.channels@.dom() =~= Set::<Seq<char>>::empty());
        r
    }

    /// The value stored under `key`, expired or not: removing expired values
    /// is the purger's work.
    pub fn get(&self, key: &str) -> (r: Option<Vec<u8>>)
        ensures
            match value_of(self@, key@) {
                Some(v) => r matches Some(data) && data@ == v,
                None => r is None,
            },
    {
        match self.entries.get(key) {
            Some(entry) => Some(vstd::slice::slice_to_vec(entry.data.as_slice())),
            None => None,
        }
    }

    /// The earliest expiry time in the store.
    pub fn next_expiration(&self) -> (r: Option<u64>)
        requires
            self.wf(),
        ensures
            match r {
                None => !has_deadline(self@),
                Some(t) => is_earliest(self@, t),
            },
    {
        let mut best: Option<u64> = None;
        let mut i: usize = 0;
        while i < self.expirations.len()
            invariant
                self.wf(),
                i <= self.expirations@.len(),
                best is None <==> i == 0,
                best matches Some(t) ==> (exists|j: int|
                    0 <= j < i && (#[trigger] self.expirations@[j]).0 == t),
                best matches Some(t) ==> forall|j: int|
                    0 <= j < i ==> t <= (#[trigger] self.expirations@[j]).0,
            decreases self.expirations@.len() - i,
        {
            let t = self.expirations[i].0;
            match best {
                None => {
                    best = Some(t);
                },
                Some(b) => {
                    if t < b {
                        best = Some(t);
                    }
                },
            }
            i += 1;
        }
        proof {
            match best {
                None => {
                    if has_deadline(self@) {
                        let k = choose|k: Seq<char>|
                            self@.contains_key(k) && (#[trigger] self@[k]).1 is Some;
                        assert(self.entries@.contains_key(k) && self.entries@[k].expires_at is Some);
                    }
                },
                Some(t) => {
                    let j = choose|j: int|
                        0 <= j < i && (#[trigger] self.expirations@[j]).0 == t;
                    let k = self.expirations@[j].1@;
                    assert(self.row_ok(self.expirations@[j]));
                    assert(self@.contains_key(k) && self@[k].1 == Some(t));
                    assert forall|k2: Seq<char>| #[trigger]
                        self@.contains_key(k2) && self@[k2].1 is Some implies t <= self@[k2].1->Some_0 by {
                        assert(self.entries@.contains_key(k2) && self.entries@[k2].expires_at is Some);
                        let j2 = choose|j2: int|
                            0 <= j2 < self.expirations@.len() && (#[trigger] self.expirations@[j2]).1@ == k2;
                        assert(self.row_ok(self.expirations@[j2]));
                    }
                },
            }
        }
        best
    }

    /// The index rows of keys other than `key`, each as it stood.
    fn rows_without(&self, key: &str) -> (r: Vec<(u64, String)>)
        requires
            self.wf(),
        ensures
            forall|j: int| 0 <= j < r@.len() ==> self.row_ok(#[trigger] r@[j]) && r@[j].1@ != key@,
            forall|k: Seq<char>| #[trigger]
                self.entries@.contains_key(k) && self.entries@[k].expires_at is Some && k != key@
                    ==> exists|j: int| 0 <= j < r@.len() && (#[trigger] r@[j]).1@ == k,
            keys_unique(r@),
    {
        let mut kept: Vec<(u64, String)> = Vec::new();
        let mut i: usize = 0;
        while i < self.expirations.len()
            invariant
                self.wf(),
                i <= self.expirations@.len(),
                forall|j: int| 0 <= j < kept@.len() ==> self.row_ok(#[trigger] kept@[j]) && kept@[j].1@ != key@,
                forall|j: int| 0 <= j < i && (#[trigger] self.expirations@[j]).1@ != key@
                    ==> exists|m: int| 0 <= m < kept@.len() && (#[trigger] kept@[m]).1@ == self.expirations@[j].1@,
                forall|m: int| #![trigger kept@[m]] 0 <= m < kept@.len() ==> exists|j: int|
                    #![trigger self.expirations@[j]] 0 <= j < i && self.expirations@[j].1@ == kept@[m].1@,
                keys_unique(kept@),
            decreases self.expirations@.len() - i,
        {
            let t = self.expirations[i].0;
            let k = &self.expirations[i].1;
            if !same_text(k.as_str(), key) {
                let ghost before = kept@;
                let row = (t, k.clone());
                kept.push(row);
                proof {
                    let rows = self.expirations@;
                    assert forall|m: int| 0 <= m < before.len() implies (#[trigger] before[m]).1@ != row.1@ by {
                        let j = choose|j: int| #![trigger rows[j]] 0 <= j < i && rows[j].1@ == before[m].1@;
                        assert(rows[j].1@ != rows[i as int].1@);
                    }
                    lemma_push_unique(before, row);
                    assert forall|m: int| #![trigger kept@[m]] 0 <= m < kept@.len() implies exists|j: int|
                        #![trigger rows[j]] 0 <= j < i + 1 && rows[j].1@ == kept@[m].1@ by {
                        if m < before.len() {
                            assert(kept@[m] == before[m]);
                            let j = choose|j: int| #![trigger rows[j]] 0 <= j < i && rows[j].1@ == before[m].1@;
                            assert(rows[j].1@ == kept@[m].1@);
                        } else {
                            assert(rows[i as int].1@ == kept@[m].1@);
                        }
                    }
                    assert(self.row_ok(self.expirations@[i as int]));
                    assert(kept@[before.len() as int] == row);
                    assert forall|j: int| 0 <= j < i + 1 && (#[trigger] self.expirations@[j]).1@ != key@
                        implies exists|m: int| 0 <= m < kept@.len() && (#[trigger] kept@[m]).1@ == self.expirations@[j].1@ by {
                        if j < i {
                            let m = choose|m: int| 0 <= m < before.len() && (#[trigger] before[m]).1@ == self.expirations@[j].1@;
                            assert(kept@[m] == before[m]);
                        } else {
                            assert(kept@[before.len() as int].1@ == self.expirations@[j].1@);
                        }
                    }
                }
            }
            i += 1;
        }
        proof {
            assert forall|k: Seq<char>| #[trigger]
                self.entries@.contains_key(k) && self.entries@[k].expires_at is Some && k != key@
                    implies exists|j: int| 0 <= j < kept@.len() && (#[trigger] kept@[j]).1@ == k by {
                let j = choose|j: int| 0 <= j < self.expirations@.len() && (#[trigger] self.expirations@[j]).1@ == k;
                assert(self.expirations@[j].1@ != key@);
            }
        }
        kept
    }

    /// Stores `value` under `key` with `expire` milliseconds to live from `now`,
    /// in place of what was there. Says whether the new expiry comes before
    /// that of every other key, so that the purger must wake up earlier.
    pub fn set(&mut self, key: String, value: Vec<u8>, expire: Option<u64>, now: u64) -> (notify: bool)
        requires
            old(self).wf(),
        ensures
            final(self).wf(),
            final(self)@ == old(self)@.insert(key@, (value@, expiry_at(now, expire))),
            final(self).channel_names() == old(self).channel_names(),
            final(self).stopped() == old(self).stopped(),
            notify == match expiry_at(now, expire) {
                None => false,
                Some(t) => forall|k: Seq<char>| #[trigger]
                    old(self)@.contains_key(k) && k != key@ && old(self)@[k].1 is Some ==> t
                        < old(self)@[k].1->Some_0,
            },
    {
        let when: Option<u64> = match expire {
            None => None,
            Some(ms) => Some(
                if ms > u64::MAX - now {
                    u64::MAX
                } else {
                    now + ms
                },
            ),
        };
        let kept = self.rows_without(key.as_str());
        let mut notify = false;
        if let Some(t) = when {
            notify = true;
            let mut i: usize = 0;
            while i < kept.len()
                invariant
                    i <= kept@.len(),
                    notify == forall|j: int| 0 <= j < i ==> t < (#[trigger] kept@[j]).0,
                decreases kept@.len() - i,
            {
                if kept[i].0 <= t {
                    notify = false;
                }
                i += 1;
            }
        }
        proof {
            if let Some(t) = when {
                if notify {
                    assert forall|k: Seq<char>| #[trigger]
                        old(self)@.contains_key(k) && k != key@ && old(self)@[k].1 is Some implies t
                            < old(self)@[k].1->Some_0 by {
                        assert(self.entries@.contains_key(k) && self.entries@[k].expires_at is Some);
                        let j = choose|j: int| 0 <= j < kept@.len() && (#[trigger] kept@[j]).1@ == k;
                        assert(self.row_ok(kept@[j]));
                    }
                } else {
                    let j = choose|j: int| 0 <= j < kept@.len() && !(t < (#[trigger] kept@[j]).0);
                    assert(self.row_ok(kept@[j]));
                    let k = kept@[j].1@;
                    assert(old(self)@.contains_key(k) && k != key@ && old(self)@[k].1 is Some);
                }
            }
        }
        let ghost old_entries = self.entries@;
        let row_key = key.clone();
        self.entries.insert(key, Entry { data: value, expires_at: when });
        self.expirations = kept;
        if let Some(t) = when {
            self.expirations.push((t, row_key));
        }
        proof {
            let n = kept@.len();
            assert forall|i: int| 0 <= i < self.expirations@.len() implies self.row_ok(
                #[trigger] self.expirations@[i],
            ) by {
                if i < n {
                    assert(self.expirations@[i] == kept@[i]);
                    assert(old(self).row_ok(kept@[i]));
                }
            }
            assert forall|k: Seq<char>| #[trigger]
                self.entries@.contains_key(k) && self.entries@[k].expires_at is Some implies exists|
                    i: int,
                | 0 <= i < self.expirations@.len() && (#[trigger] self.expirations@[i]).1@ == k by {
                if k == row_key@ {
                    assert(self.expirations@[n as int].1@ == k);
                } else {
                    assert(old_entries.contains_key(k) && old_entries[k].expires_at is Some);
                    let j = choose|j: int| 0 <= j < kept@.len() && (#[trigger] kept@[j]).1@ == k;
                    assert(self.expirations@[j] == kept@[j]);
                }
            }
            assert(self@ =~= old(self)@.insert(key@, (value@, expiry_at(now, expire))));
        }
        notify
    }

    /// Removes every value whose expiry time is `now` or earlier, and gives the
    /// earliest expiry time left, when the purger is to wake next. Once the
    /// purger has been told to stop it does nothing and gives none.
    pub fn purge_expired(&mut self, now: u64) -> (r: Option<u64>)
        requires
            old(self).wf(),
        ensures
            final(self).wf(),
            final(self).channel_names() == old(self).channel_names(),
            final(self).stopped() == old(self).stopped(),
            old(self).stopped() ==> r is None && final(self)@ == old(self)@,
            !old(self).stopped() ==> final(self)@ == after_purge(old(self)@, now) && match r {
                None => !has_deadline(final(self)@),
                Some(t) => is_earliest(final(self)@, t),
            },
    {
        if self.shutdown {
            return None;
        }
        let ghost old_entries = self.entries@;
        let ghost old_store = *self;
        let mut kept: Vec<(u64, String)> = Vec::new();
        let mut i: usize = 0;
        while i < self.expirations.len()
            invariant
                old_store.wf(),
                self.expirations == old_store.expirations,
                self.channels == old_store.channels,
                self.shutdown == old_store.shutdown,
                old_entries == old_store.entries@,
                i <= self.expirations@.len(),
                forall|k: Seq<char>| #[trigger] self.entries@.contains_key(k) ==> old_entries.contains_key(k)
                    && self.entries@[k] == old_entries[k],
                forall|k: Seq<char>| #[trigger] old_entries.contains_key(k) && !self.entries@.contains_key(k)
                    ==> (old_entries[k].expires_at matches Some(t) && t <= now),
                forall|j: int| 0 <= j < i && (#[trigger] self.expirations@[j]).0 <= now
                    ==> !self.entries@.contains_key(self.expirations@[j].1@),
                forall|m: int| 0 <= m < kept@.len() ==> old_store.row_ok(#[trigger] kept@[m]) && kept@[m].0 > now,
                forall|j: int| 0 <= j < i && (#[trigger] self.expirations@[j]).0 > now
                    ==> exists|m: int| 0 <= m < kept@.len() && (#[trigger] kept@[m]).1@ == self.expirations@[j].1@,
                forall|m: int| #![trigger kept@[m]] 0 <= m < kept@.len() ==> exists|j: int|
                    #![trigger self.expirations@[j]] 0 <= j < i && self.expirations@[j].1@ == kept@[m].1@,
                keys_unique(kept@),
            decreases self.expirations@.len() - i,
        {
            let t = self.expirations[i].0;
            proof {
                assert(old_store.row_ok(self.expirations@[i as int]));
            }
            if t <= now {
                self.entries.remove(self.expirations[i].1.as_str());
            } else {
                let ghost before = kept@;
                let row = (t, self.expirations[i].1.clone());
                kept.push(row);
                proof {
                    let rows = self.expirations@;
                    assert forall|m: int| 0 <= m < before.len() implies (#[trigger] before[m]).1@ != row.1@ by {
                        let j = choose|j: int| #![trigger rows[j]] 0 <= j < i && rows[j].1@ == before[m].1@;
                        assert(rows[j].1@ != rows[i as int].1@);
                    }
                    lemma_push_unique(before, row);
                    assert forall|m: int| #![trigger kept@[m]] 0 <= m < kept@.len() implies exists|j: int|
                        #![trigger rows[j]] 0 <= j < i + 1 && rows[j].1@ == kept@[m].1@ by {
                        if m < before.len() {
                            assert(kept@[m] == before[m]);
                            let j = choose|j: int| #![trigger rows[j]] 0 <= j < i && rows[j].1@ == before[m].1@;
                            assert(rows[j].1@ == kept@[m].1@);
                        } else {
                            assert(rows[i as int].1@ == kept@[m].1@);
                        }
                    }
                    assert(kept@[before.len() as int] == row);
                    assert forall|j: int| 0 <= j < i + 1 && (#[trigger] self.expirations@[j]).0 > now
                        implies exists|m: int| 0 <= m < kept@.len() && (#[trigger] kept@[m]).1@ == self.expirations@[j].1@ by {
                        if j < i {
                            let m = choose|m: int| 0 <= m < before.len() && (#[trigger] before[m]).1@ == self.expirations@[j].1@;
                            assert(kept@[m] == before[m]);
                        } else {
                            assert(kept@[before.len() as int].1@ == self.expirations@[j].1@);
                        }
                    }
                }
            }
            i += 1;
        }
        let ghost rows = self.expirations@;
        self.expirations = kept;
        proof {
            assert forall|k: Seq<char>| #[trigger] old_entries.contains_key(k) && (old_entries[k].expires_at matches Some(t) && t <= now)
                implies !self.entries@.contains_key(k) by {
                let j = choose|j: int| 0 <= j < rows.len() && (#[trigger] rows[j]).1@ == k;
                assert(old_store.row_ok(rows[j]));
            }
            assert forall|m: int| 0 <= m < self.expirations@.len() implies self.row_ok(
                #[trigger] self.expirations@[m],
            ) by {
                assert(old_store.row_ok(kept@[m]));
                let k = kept@[m].1@;
                if !self.entries@.contains_key(k) {
                    assert(old_entries.contains_key(k) && !self.entries@.contains_key(k));
                }
            }
            assert forall|k: Seq<char>| #[trigger]
                self.entries@.contains_key(k) && self.entries@[k].expires_at is Some implies exists|
                    m: int,
                | 0 <= m < self.expirations@.len() && (#[trigger] self.expirations@[m]).1@ == k by {
                let j = choose|j: int| 0 <= j < rows.len() && (#[trigger] rows[j]).1@ == k;
                assert(old_store.row_ok(rows[j]));
                if rows[j].0 <= now {
                    assert(!self.entries@.contains_key(rows[j].1@));
                } else {
                    let m = choose|m: int| 0 <= m < kept@.len() && (#[trigger] kept@[m]).1@ == rows[j].1@;
                    assert(self.expirations@[m] == kept@[m]);
                }
            }
            assert(self@ =~= after_purge(old(self)@, now));
        }
        self.next_expiration()
    }

    /// Hands `message` to the subscribers of `channel` and gives their number.
    /// A channel that no receiver listens to any more is dropped.
    pub fn publish(&mut self, channel: &str, message: Vec<u8>) -> (r: u64)
        requires
            old(self).wf(),
        ensures
            final(self).wf(),
            final(self)@ == old(self)@,
            final(self).stopped() == old(self).stopped(),
            !old(self).channel_names().contains(channel@) ==> r == 0 && final(self).channel_names()
                == old(self).channel_names(),
            r == 0 ==> final(self).channel_names() == old(self).channel_names().remove(channel@),
            r > 0 ==> final(self).channel_names() == old(self).channel_names(),
    {
        let sent = match self.channels.get(channel) {
            None => {
                assert(self.channels@.dom().remove(channel@) =~= self.channels@.dom());
                return 0;
            },
            Some(tx) => send_message(tx, message),
        };
        self.settle_publish(channel, sent)
    }

    /// What a publish to `channel` comes to once the channel's endpoint has
    /// answered `sent`: the number of receivers it reached, or none, when the
    /// endpoint that nobody listens to is dropped.
    pub fn settle_publish(&mut self, channel: &str, sent: Option<usize>) -> (r: u64)
        requires
            old(self).wf(),
            sent matches Some(n) ==> n >= 1,
        ensures
            final(self).wf(),
            final(self)@ == old(self)@,
            final(self).stopped() == old(self).stopped(),
            sent matches Some(n) ==> r == n as u64
                && final(self).channel_names() == old(self).channel_names(),
            sent is None ==> r == 0
                && final(self).channel_names() == old(self).channel_names().remove(channel@),
    {
        match sent {
            Some(n) => n as u64,
            None => {
                self.channels.remove(channel);
                0
            },
        }
    }

    /// A receiver of the messages published to `channel` from now on; the
    /// channel's endpoint is made when it has none.
    pub fn subscribe(&mut self, channel: String) -> (r: Receiver<Vec<u8>>)
        requires
            old(self).wf(),
        ensures
            final(self).wf(),
            final(self)@ == old(self)@,
            final(self).stopped() == old(self).stopped(),
            final(self).channel_names() == old(self).channel_names().insert(channel@),
    {
        match self.channels.get(channel.as_str()) {
            Some(tx) => {
                let rx = new_receiver(tx);
                assert(self.channels@.dom().insert(channel@) =~= self.channels@.dom());
                rx
            },
            None => {
                let (tx, rx) = open_channel(CHANNEL_CAPACITY);
                self.channels.insert(channel, tx);
                rx
            },
        }
    }

    /// Tells the purger to stop.
    pub fn shutdown_purge_task(&mut self)
        requires
            old(self).wf(),
        ensures
            final(self).wf(),
            final(self)@ == old(self)@,
            final(self).channel_names() == old(self).channel_names(),
            final(self).stopped(),
    {
        self.shutdown = true;
    }

    /// Whether the purger has been told to stop.
    pub fn is_shutdown(&self) -> (r: bool)
        ensures
            r == self.stopped(),
    {
        self.shutdown
    }
}

/// After `set(key, value, ..)`, `get(key)` gives `value`.
pub proof fn lemma_set_then_get(
    m: Map<Seq<char>, EntryModel>,
    key: Seq<char>,
    value: Seq<u8>,
    expire: Option<u64>,
    now: u64,
)
    ensures
        value_of(m.insert(key, (value, expiry_at(now, expire))), key) == Some(value),
{
}

/// A value set at `now` with `ttl` milliseconds to live is gone once the purger
/// has run at any time from `now + ttl` on.
pub proof fn lemma_expired_after_purge(
    m: Map<Seq<char>, EntryModel>,
    key: Seq<char>,
    value: Seq<u8>,
    now: u64,
    ttl: u64,
    later: u64,
)
    requires
        later >= now + ttl,
    ensures
        value_of(after_purge(m.insert(key, (value, expiry_at(now, Some(ttl)))), later), key) is None,
{
}

/// Until it expires, a value set at `now` with `ttl` milliseconds to live
/// survives the purger.
pub proof fn lemma_alive_before_expiry(
    m: Map<Seq<char>, EntryModel>,
    key: Seq<char>,
    value: Seq<u8>,
    now: u64,
    ttl: u64,
    later: u64,
)
    requires
        later < now + ttl <= u64::MAX,
    ensures
        value_of(after_purge(m.insert(key, (value, expiry_at(now, Some(ttl)))), later), key) == Some(value),
{
}

} // verus!
