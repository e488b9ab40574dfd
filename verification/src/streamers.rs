//! The streamers that have named themselves, by their names.

use vstd::prelude::*;

verus! {

/// How long the state of a streamer is kept after it has disconnected, in nanoseconds.
pub const RETENTION_NANOS: u128 = 3_600_000_000_000;

/// How long to wait between two times at which the long gone are forgotten, in seconds.
pub const CLEANUP_INTERVAL_SECS: u64 = 900;

/// A streamer that has disconnected: its state, and when that was.
#[derive(Debug, Clone, Copy, PartialEq, Eq, Structural)]
pub struct DisconnectedStreamer {
    pub state: u64,
    pub time: u128,
}

impl DisconnectedStreamer {
    /// A streamer that disconnects at the time `now`, in nanoseconds.
    pub fn new(state: u64, now: u128) -> (r: DisconnectedStreamer)
        ensures
            r == (DisconnectedStreamer { state, time: now }),
    {
        DisconnectedStreamer { state, time: now }
    }
}

/// A streamer: the connection that it has, or the state that it left.
#[derive(Debug, Clone, Copy, PartialEq, Eq, Structural)]
pub enum Streamer {
    Connected(u64),
    Disconnected(DisconnectedStreamer),
}

/// Whether a streamer is kept at the time `now`: while it is connected, and for some
/// time after that.
pub open spec fn is_kept(streamer: Streamer, now: u128) -> bool {
    match streamer {
        Streamer::Connected(_) => true,
        Streamer::Disconnected(disconnected) => now - disconnected.time < RETENTION_NANOS,
    }
}

/// The streamers that are kept at the time `now`.
pub open spec fn kept(streamers: Map<Seq<char>, Streamer>, now: u128) -> Map<Seq<char>, Streamer> {
    Map::new(
        |id: Seq<char>| streamers.contains_key(id) && is_kept(streamers[id], now),
        |id: Seq<char>| streamers[id],
    )
}

/// Whether `state` belongs to a streamer that is not kept at the time `now`.
pub open spec fn is_dropped(
    streamers: Map<Seq<char>, Streamer>,
    now: u128,
    state: u64,
) -> bool {
    exists|id: Seq<char>| #[trigger]
        streamers.contains_key(id) && !is_kept(streamers[id], now) && (streamers[id] matches
            Streamer::Disconnected(disconnected) && disconnected.state == state)
}

struct Entry {
    id: String,
    streamer: Streamer,
}

/// The streamers that have named themselves. No two have the same name.
pub struct Streamers {
    entries: Vec<Entry>,
}

spec fn holds(entries: Seq<Entry>, id: Seq<char>) -> bool {
    exists|i: int| 0 <= i < entries.len() && (#[trigger] entries[i]).id@ == id
}

spec fn position(entries: Seq<Entry>, id: Seq<char>) -> int {
    choose|i: int| 0 <= i < entries.len() && (#[trigger] entries[i]).id@ == id
}

spec fn distinct(entries: Seq<Entry>) -> bool {
    forall|i: int, j: int|
        0 <= i < j < entries.len() ==> (#[trigger] entries[i]).id@ != (#[trigger] entries[j]).id@
}

spec fn map_of(entries: Seq<Entry>) -> Map<Seq<char>, Streamer> {
    Map::new(
        |id: Seq<char>| holds(entries, id),
        |id: Seq<char>| entries[position(entries, id)].streamer,
    )
}

proof fn lemma_entry(entries: Seq<Entry>, i: int)
    requires
        distinct(entries),
        0 <= i < entries.len(),
    ensures
        map_of(entries).contains_key(entries[i].id@),
        map_of(entries)[entries[i].id@] == entries[i].streamer,
{
    let id = entries[i].id@;
    let p = position(entries, id);
    assert(holds(entries, id));
    assert(0 <= p < entries.len() && entries[p].id@ == id);
    if p < i {
        assert(entries[p].id@ != entries[i].id@);
    }
    if i < p {
        assert(entries[i].id@ != entries[p].id@);
    }
}

proof fn lemma_push(entries: Seq<Entry>, entry: Entry)
    requires
        distinct(entries),
        !holds(entries, entry.id@),
    ensures
        distinct(entries.push(entry)),
        map_of(entries.push(entry)) == map_of(entries).insert(entry.id@, entry.streamer),
{
    let pushed = entries.push(entry);
    assert forall|i: int, j: int| 0 <= i < j < pushed.len() implies (#[trigger] pushed[i]).id@ != (
    #[trigger] pushed[j]).id@ by {
        assert(pushed[i] == entries[i]);
        if j < entries.len() {
            assert(pushed[j] == entries[j]);
        }
    }
    lemma_entry(pushed, entries.len() as int);
    assert forall|id: Seq<char>| #[trigger]
        map_of(pushed).contains_key(id) == map_of(entries).insert(
            entry.id@,
            entry.streamer,
        ).contains_key(id) by {
        if holds(entries, id) {
            assert(pushed[position(entries, id)].id@ == id);
        }
        if holds(pushed, id) && id != entry.id@ {
            assert(entries[position(pushed, id)].id@ == id);
        }
    }
    assert forall|id: Seq<char>| #[trigger] map_of(pushed).contains_key(id) implies map_of(
        pushed,
    )[id] == map_of(entries).insert(entry.id@, entry.streamer)[id] by {
        if id != entry.id@ {
            let p = position(pushed, id);
            assert(entries[p].id@ == id);
            lemma_entry(entries, p);
            lemma_entry(pushed, p);
        }
    }
    assert(map_of(pushed) =~= map_of(entries).insert(entry.id@, entry.streamer));
}

proof fn lemma_remove(entries: Seq<Entry>, at: int)
    requires
        distinct(entries),
        0 <= at < entries.len(),
    ensures
        distinct(entries.remove(at)),
        map_of(entries.remove(at)) == map_of(entries).remove(entries[at].id@),
{
    let removed = entries.remove(at);
    let gone = entries[at].id@;
    assert forall|i: int| 0 <= i < removed.len() implies #[trigger] removed[i] == entries[if i
        < at {
        i
    } else {
        i + 1
    }] by {}
    assert forall|i: int, j: int| 0 <= i < j < removed.len() implies (
    #[trigger] removed[i]).id@ != (#[trigger] removed[j]).id@ by {}
    assert forall|id: Seq<char>| #[trigger]
        map_of(removed).contains_key(id) == map_of(entries).remove(gone).contains_key(id) by {
        if holds(removed, id) {
            let p = position(removed, id);
            let q = if p < at {
                p
            } else {
                p + 1
            };
            assert(entries[q].id@ == id);
            assert(id != gone);
        }
        if holds(entries, id) && id != gone {
            let p = position(entries, id);
            let q = if p < at {
                p
            } else {
                p - 1
            };
            assert(removed[q] == entries[p]);
        }
    }
    assert forall|id: Seq<char>| #[trigger] map_of(removed).contains_key(id) implies map_of(
        removed,
    )[id] == map_of(entries).remove(gone)[id] by {
        let p = position(removed, id);
        let q = if p < at {
            p
        } else {
            p + 1
        };
        assert(entries[q].id@ == id);
        lemma_entry(removed, p);
        lemma_entry(entries, q);
    }
    assert(map_of(removed) =~= map_of(entries).remove(gone));
}

impl View for Streamers {
    type V = Map<Seq<char>, Streamer>;

    closed spec fn view(&self) -> Map<Seq<char>, Streamer> {
        map_of(self.entries@)
    }
}

impl Streamers {
    /// No two streamers have the same name.
    pub closed spec fn wf(self) -> bool {
        distinct(self.entries@)
    }

    /// No streamers.
    pub fn new() -> (r: Streamers)
        ensures
            r.wf(),
            r@ == Map::<Seq<char>, Streamer>::empty(),
    {
        let r = Streamers { entries: Vec::new() };
        assert(r@ =~= Map::<Seq<char>, Streamer>::empty());
        r
    }

    /// How many streamers there are.
    pub fn len(&self) -> (r: usize)
        requires
            self.wf(),
        ensures
            self@.dom().finite(),
            r == self@.dom().len(),
    {
        proof {
            lemma_len(self.entries@);
        }
        self.entries.len()
    }

    fn find(&self, id: &String) -> (r: Option<usize>)
        ensures
            match r {
                Some(i) => i < self.entries@.len() && self.entries@[i as int].id@ == id@,
                None => !holds(self.entries@, id@),
            },
    {
        let mut i: usize = 0;
        while i < self.entries.len()
            invariant
                i <= self.entries@.len(),
                forall|j: int| 0 <= j < i ==> (#[trigger] self.entries@[j]).id@ != id@,
            decreases self.entries@.len() - i,
        {
            if self.entries[i].id == *id {
                return Some(i);
            }
            i += 1;
        }
        None
    }

    /// The streamer with the name `id`.
    pub fn get(&self, id: &String) -> (r: Option<Streamer>)
        requires
            self.wf(),
        ensures
            r == if self@.contains_key(id@) {
                Some(self@[id@])
            } else {
                None
            },
    {
        match self.find(id) {
            Some(i) => {
                proof {
                    lemma_entry(self.entries@, i as int);
                }
                Some(self.entries[i].streamer)
            },
            None => None,
        }
    }

    /// Takes out the streamer with the name `id`.
    pub fn remove(&mut self, id: &String) -> (r: Option<Streamer>)
        requires
            old(self).wf(),
        ensures
            final(self).wf(),
            final(self)@ == old(self)@.remove(id@),
            r == if old(self)@.contains_key(id@) {
                Some(old(self)@[id@])
            } else {
                None
            },
    {
        match self.find(id) {
            Some(i) => {
                proof {
                    lemma_entry(self.entries@, i as int);
                    lemma_remove(self.entries@, i as int);
                }
                Some(self.entries.remove(i).streamer)
            },
            None => {
                assert(self@.remove(id@) =~= self@);
                None
            },
        }
    }

    /// Sets the streamer with the name `id`.
    pub fn insert(&mut self, id: String, streamer: Streamer)
        requires
            old(self).wf(),
        ensures
            final(self).wf(),
            final(self)@ == old(self)@.insert(id@, streamer),
    {
        let ghost before = self@;
        let _ = self.remove(&id);
        let entry = Entry { id, streamer };
        proof {
            if holds(self.entries@, entry.id@) {
                assert(self@.contains_key(entry.id@));
            }
            lemma_push(self.entries@, entry);
        }
        self.entries.push(entry);
        assert(self@ =~= before.insert(id@, streamer));
    }

    /// Takes out the streamers that are no longer kept at the time `now`, and gives
    /// the states that they had.
    pub fn remove_expired(&mut self, now: u128) -> (r: Vec<u64>)
        requires
            old(self).wf(),
        ensures
            final(self).wf(),
            final(self)@ == kept(old(self)@, now),
            forall|state: u64| #[trigger]
                r@.contains(state) == is_dropped(old(self)@, now, state),
    {
        let ghost all = self@;
        let mut dropped: Vec<u64> = Vec::new();
        let mut i: usize = 0;
        while i < self.entries.len()
            invariant
                i <= self.entries@.len(),
                distinct(self.entries@),
                forall|id: Seq<char>| #[trigger]
                    map_of(self.entries@).contains_key(id) ==> all.contains_key(id) && map_of(
                        self.entries@,
                    )[id] == all[id],
                forall|id: Seq<char>| #[trigger]
                    all.contains_key(id) ==> map_of(self.entries@).contains_key(id) || !is_kept(
                        all[id],
                        now,
                    ),
                forall|j: int| 0 <= j < i ==> is_kept((#[trigger] self.entries@[j]).streamer, now),
                forall|state: u64| #[trigger]
                    dropped@.contains(state) <==> is_gone(all, map_of(self.entries@), state),
            decreases self.entries@.len() - i,
        {
            let ghost before = self.entries@;
            let ghost entry = before[i as int];
            proof {
                lemma_entry(before, i as int);
                lemma_remove(before, i as int);
            }
            let expired = match self.entries[i].streamer {
                Streamer::Connected(_) => None,
                Streamer::Disconnected(disconnected) => {
                    if now >= disconnected.time && now - disconnected.time >= RETENTION_NANOS {
                        Some(disconnected.state)
                    } else {
                        None
                    }
                },
            };
            match expired {
                Some(state) => {
                    let _ = self.entries.remove(i);
                    let ghost dropped_before = dropped@;
                    dropped.push(state);
                    proof {
                        let after = map_of(self.entries@);
                        assert(all.contains_key(entry.id@));
                        assert forall|s: u64| #[trigger]
                            dropped@.contains(s) <==> is_gone(all, after, s) by {
                            if dropped_before.contains(s) {
                                let k = choose|k: int|
                                    0 <= k < dropped_before.len() && dropped_before[k] == s;
                                assert(dropped@[k] == s);
                                let id = choose|id: Seq<char>| #[trigger]
                                    all.contains_key(id) && !map_of(before).contains_key(id) && (
                                    all[id] matches Streamer::Disconnected(d) && d.state == s);
                                assert(all.contains_key(id) && !after.contains_key(id));
                            }
                            if s == state {
                                assert(dropped@[dropped@.len() - 1] == s);
                                assert(all.contains_key(entry.id@) && !after.contains_key(
                                    entry.id@,
                                ));
                            }
                            if dropped@.contains(s) && s != state {
                                let k = choose|k: int|
                                    0 <= k < dropped@.len() && dropped@[k] == s;
                                assert(dropped_before[k] == s);
                            }
                            if is_gone(all, after, s) && !dropped_before.contains(s) {
                                let id = choose|id: Seq<char>| #[trigger]
                                    all.contains_key(id) && !after.contains_key(id) && (all[id]
                                        matches Streamer::Disconnected(d) && d.state == s);
                                assert(!is_gone(all, map_of(before), s));
                                assert(map_of(before).contains_key(id));
                                assert(id == entry.id@);
                            }
                        }
                    }
                },
                None => {
                    i += 1;
                },
            }
        }
        proof {
            let rest = map_of(self.entries@);
            assert forall|id: Seq<char>| #[trigger] rest.contains_key(id) implies is_kept(
                rest[id],
                now,
            ) by {
                let p = position(self.entries@, id);
                assert(holds(self.entries@, id));
                lemma_entry(self.entries@, p);
                assert(is_kept(self.entries@[p].streamer, now));
            }
            assert(rest =~= kept(all, now));
            assert forall|state: u64| #[trigger]
                dropped@.contains(state) == is_dropped(all, now, state) by {
                if is_gone(all, rest, state) {
                    let id = choose|id: Seq<char>| #[trigger]
                        all.contains_key(id) && !rest.contains_key(id) && (all[id] matches
                            Streamer::Disconnected(d) && d.state == state);
                    assert(all.contains_key(id) && !is_kept(all[id], now));
                }
                if is_dropped(all, now, state) {
                    let id = choose|id: Seq<char>| #[trigger]
                        all.contains_key(id) && !is_kept(all[id], now) && (all[id] matches
                            Streamer::Disconnected(d) && d.state == state);
                    assert(all.contains_key(id) && !rest.contains_key(id));
                }
            }
        }
        dropped
    }
}

/// Whether `state` belongs to a streamer of `all` that is not in `rest`.
spec fn is_gone(
    all: Map<Seq<char>, Streamer>,
    rest: Map<Seq<char>, Streamer>,
    state: u64,
) -> bool {
    exists|id: Seq<char>| #[trigger]
        all.contains_key(id) && !rest.contains_key(id) && (all[id] matches
            Streamer::Disconnected(d) && d.state == state)
}

proof fn lemma_len(entries: Seq<Entry>)
    requires
        distinct(entries),
    ensures
        map_of(entries).dom().finite(),
        map_of(entries).dom().len() == entries.len(),
    decreases entries.len(),
{
    if entries.len() == 0 {
        assert(map_of(entries).dom() =~= Set::<Seq<char>>::empty());
    } else {
        let front = entries.drop_last();
        let last = entries.last();
        assert forall|i: int, j: int| 0 <= i < j < front.len() implies (#[trigger] front[i]).id@
            != (#[trigger] front[j]).id@ by {
            assert(entries[i].id@ != entries[j].id@);
        }
        lemma_len(front);
        if holds(front, last.id@) {
            let p = position(front, last.id@);
            assert(entries[p].id@ != entries[entries.len() - 1].id@);
        }
        lemma_push(front, last);
        assert(front.push(last) =~= entries);
        assert(map_of(entries).dom() =~= map_of(front).dom().insert(last.id@));
    }
}

} // verus!
