//! The history store: a bounded, deduplicated, recency-ordered table of text
//! entries with at most one default entry.
//!
//! `Database` is the verified model of the persisted table.  Timestamps are
//! drawn from a logical clock owned by the store: every mutation that touches
//! an entry stamps it with a strictly larger instant, so recency order is
//! total and eviction is deterministic.

use vstd::prelude::*;

verus! {

/// Upper bound on the number of live entries; insertions beyond it evict the
/// least recently touched entries.
pub const HISTORY_CAP: usize = 50;

/// One live history row: store-assigned identity, text payload (the dedup
/// key), last-touched instant, and the default marker.
#[derive(Debug)]
pub struct ClipboardEntry {
    pub id: i64,
    pub content: String,
    pub timestamp: i64,
    pub is_default: bool,
}

/// Mathematical image of one entry.
#[verifier::ext_equal]
pub ghost struct AbsEntry {
    pub id: int,
    pub content: Seq<char>,
    pub timestamp: int,
    pub is_default: bool,
}

impl View for ClipboardEntry {
    type V = AbsEntry;

    open spec fn view(&self) -> AbsEntry {
        AbsEntry {
            id: self.id as int,
            content: self.content@,
            timestamp: self.timestamp as int,
            is_default: self.is_default,
        }
    }
}

impl Clone for ClipboardEntry {
    fn clone(&self) -> (r: Self)
        ensures
            r@ == self@,
    {
        ClipboardEntry {
            id: self.id,
            content: self.content.clone(),
            timestamp: self.timestamp,
            is_default: self.is_default,
        }
    }
}

/// Why a store operation was refused; the store is left unchanged in every
/// such case.
#[derive(Clone, Copy, Debug, PartialEq, Eq, Structural)]
pub enum StorageError {
    /// The id or clock counter has no room left for another assignment.
    CounterExhausted,
    /// The requested id matches no live entry.
    EntryNotFound,
    /// Rows handed to `load` do not satisfy the store's invariants.
    InvalidData,
}

/// Mathematical image of the whole store.
#[verifier::ext_equal]
pub ghost struct DbModel {
    pub entries: Seq<AbsEntry>,
    pub next_id: int,
    pub clock: int,
}

pub open spec fn has_content(s: Seq<AbsEntry>, c: Seq<char>) -> bool {
    exists|i: int| 0 <= i < s.len() && (#[trigger] s[i]).content == c
}

/// Index of the entry holding `c`; meaningful only when `has_content` holds
/// and contents are distinct.
pub open spec fn content_index(s: Seq<AbsEntry>, c: Seq<char>) -> int {
    choose|i: int| 0 <= i < s.len() && (#[trigger] s[i]).content == c
}

pub open spec fn has_id(s: Seq<AbsEntry>, id: int) -> bool {
    exists|i: int| 0 <= i < s.len() && (#[trigger] s[i]).id == id
}

/// The entry with identity `id` is live and currently the default.
pub open spec fn is_default_id(s: Seq<AbsEntry>, id: int) -> bool {
    exists|i: int| 0 <= i < s.len() && (#[trigger] s[i]).id == id && s[i].is_default
}

pub open spec fn at_most_one_default(s: Seq<AbsEntry>) -> bool {
    forall|i: int, j: int|
        0 <= i < s.len() && 0 <= j < s.len() && (#[trigger] s[i]).is_default
            && (#[trigger] s[j]).is_default ==> i == j
}

pub open spec fn some_default(s: Seq<AbsEntry>) -> bool {
    exists|i: int| 0 <= i < s.len() && (#[trigger] s[i]).is_default
}

pub open spec fn strictly_recency_ordered(s: Seq<AbsEntry>) -> bool {
    forall|i: int, j: int|
        0 <= i < j < s.len() ==> (#[trigger] s[i]).timestamp > (#[trigger] s[j]).timestamp
}

pub open spec fn distinct_contents(s: Seq<AbsEntry>) -> bool {
    forall|i: int, j: int|
        0 <= i < j < s.len() ==> (#[trigger] s[i]).content != (#[trigger] s[j]).content
}

pub open spec fn distinct_ids(s: Seq<AbsEntry>) -> bool {
    forall|i: int, j: int|
        0 <= i < j < s.len() ==> (#[trigger] s[i]).id != (#[trigger] s[j]).id
}

impl DbModel {
    /// The store's invariant: capped, recency-sorted with a total order,
    /// deduplicated contents, unique bounded identities, and exactly one
    /// default entry whenever any entry is live.
    pub open spec fn wf(self) -> bool {
        &&& self.entries.len() <= HISTORY_CAP
        &&& strictly_recency_ordered(self.entries)
        &&& distinct_contents(self.entries)
        &&& distinct_ids(self.entries)
        &&& forall|i: int|
            0 <= i < self.entries.len() ==> 0 <= (#[trigger] self.entries[i]).id < self.next_id
        &&& forall|i: int|
            0 <= i < self.entries.len() ==> 0 < (#[trigger] self.entries[i]).timestamp
                <= self.clock
        &&& 0 <= self.next_id <= i64::MAX
        &&& 0 <= self.clock <= i64::MAX
        &&& at_most_one_default(self.entries)
        &&& (self.entries.len() > 0 ==> some_default(self.entries))
    }

    pub open spec fn empty() -> DbModel {
        DbModel { entries: Seq::empty(), next_id: 0, clock: 0 }
    }
}

/// `e` with its last-touched instant refreshed to `ts`.
pub open spec fn refreshed(e: AbsEntry, ts: int) -> AbsEntry {
    AbsEntry { timestamp: ts, ..e }
}

/// `e` with the default marker forced to `d`.
pub open spec fn with_default(e: AbsEntry, d: bool) -> AbsEntry {
    AbsEntry { is_default: d, ..e }
}

/// Whether `add_entry` has counter room: the clock always advances by one,
/// and a brand-new content additionally consumes an identity.
pub open spec fn can_add(m: DbModel, c: Seq<char>) -> bool {
    if has_content(m.entries, c) {
        m.clock < i64::MAX
    } else {
        m.clock < i64::MAX && m.next_id < i64::MAX
    }
}

/// The store after `add_entry(c)` succeeds: a dedup hit refreshes the
/// existing entry's timestamp and moves it to the front, leaving every
/// default marker alone; a new content is inserted at the front as the new
/// default (the previous default is cleared), and the least recently touched
/// entries beyond the cap are evicted.
pub open spec fn step_add(m: DbModel, c: Seq<char>) -> DbModel {
    if has_content(m.entries, c) {
        let i = content_index(m.entries, c);
        DbModel {
            entries: seq![refreshed(m.entries[i], m.clock + 1)] + m.entries.remove(i),
            next_id: m.next_id,
            clock: m.clock + 1,
        }
    } else {
        let fresh = AbsEntry {
            id: m.next_id,
            content: c,
            timestamp: m.clock + 1,
            is_default: true,
        };
        let grown = seq![fresh] + m.entries.map_values(|e: AbsEntry| with_default(e, false));
        DbModel {
            entries: if grown.len() <= HISTORY_CAP {
                grown
            } else {
                grown.take(HISTORY_CAP as int)
            },
            next_id: m.next_id + 1,
            clock: m.clock + 1,
        }
    }
}

/// The store after `set_default_entry(id)` succeeds: the entry with identity
/// `id` becomes the only default; nothing else (timestamps, order, contents)
/// changes.  An id that matches no live entry leaves the store as it is.
pub open spec fn step_set_default(m: DbModel, id: int) -> DbModel {
    if has_id(m.entries, id) {
        DbModel {
            entries: m.entries.map_values(|e: AbsEntry| with_default(e, e.id == id)),
            next_id: m.next_id,
            clock: m.clock,
        }
    } else {
        m
    }
}

/// Rows acceptable to `Database::load`: already in strict recency order and
/// satisfying every store invariant, with identities leaving room for the
/// next assignment.
pub open spec fn loadable(s: Seq<AbsEntry>) -> bool {
    &&& s.len() <= HISTORY_CAP
    &&& strictly_recency_ordered(s)
    &&& distinct_contents(s)
    &&& distinct_ids(s)
    &&& forall|i: int| 0 <= i < s.len() ==> 0 <= (#[trigger] s[i]).id < i64::MAX
    &&& forall|i: int| 0 <= i < s.len() ==> 0 < (#[trigger] s[i]).timestamp
    &&& at_most_one_default(s)
    &&& (s.len() > 0 ==> some_default(s))
}

/// A read limit clamped to the number of live entries; negative limits yield
/// nothing.
pub open spec fn clamped(limit: int, len: int) -> int {
    if limit < 0 {
        0
    } else if limit < len {
        limit
    } else {
        len
    }
}

/// The verified history store.  It mirrors the persisted
/// `clipboard_history` table: private state only changes through the
/// operations below, each of which preserves the invariant `inv`.
pub struct Database {
    entries: Vec<ClipboardEntry>,
    next_id: i64,
    clock: i64,
}

impl View for Database {
    type V = DbModel;

    closed spec fn view(&self) -> DbModel {
        DbModel {
            entries: self.entries@.map_values(|e: ClipboardEntry| e@),
            next_id: self.next_id as int,
            clock: self.clock as int,
        }
    }
}

impl Database {
    pub open spec fn inv(&self) -> bool {
        self@.wf()
    }

    /// A fresh, empty store.
    pub fn new() -> (db: Database)
        ensures
            db@ == DbModel::empty(),
            db.inv(),
    {
        let db = Database { entries: Vec::new(), next_id: 0, clock: 0 };
        proof {
            assert(db@ =~= DbModel::empty());
        }
        db
    }

    /// Rebuild a store from rows read back from the persisted table.  The
    /// rows must already be in recency order and satisfy every store
    /// invariant; anything else is rejected as `InvalidData`.  The clock
    /// resumes at the newest timestamp and identities resume past the
    /// largest one live.
    pub fn load(rows: Vec<ClipboardEntry>) -> (r: Result<Database, StorageError>)
        ensures
            (r matches Ok(db)) <==> loadable(rows@.map_values(|e: ClipboardEntry| e@)),
            r matches Ok(db) ==> {
                let s = rows@.map_values(|e: ClipboardEntry| e@);
                &&& db.inv()
                &&& db@.entries == s
                &&& db@.clock == (if s.len() == 0 {
                    0int
                } else {
                    s[0].timestamp
                })
                &&& (s.len() == 0 ==> db@.next_id == 0)
                &&& (s.len() > 0 ==> exists|a: int|
                    0 <= a < s.len() && (#[trigger] s[a]).id + 1 == db@.next_id)
            },
            r matches Err(e) ==> e == StorageError::InvalidData,
    {
        let ghost s = rows@.map_values(|e: ClipboardEntry| e@);
        let n = rows.len();
        if n > HISTORY_CAP {
            return Err(StorageError::InvalidData);
        }
        let mut i: usize = 0;
        while i < n
            invariant
                n == rows@.len(),
                s == rows@.map_values(|e: ClipboardEntry| e@),
                i <= n,
                forall|a: int|
                    0 <= a < i ==> 0 <= (#[trigger] s[a]).id < i64::MAX && 0 < s[a].timestamp,
                forall|a: int, b: int|
                    0 <= a < b < n && a < i ==> (#[trigger] s[a]).timestamp
                        > (#[trigger] s[b]).timestamp && s[a].content != s[b].content && s[a].id
                        != s[b].id,
            decreases n - i,
        {
            if rows[i].id < 0 || rows[i].id == i64::MAX || rows[i].timestamp <= 0 {
                proof {
                    assert(s[i as int] == rows@[i as int]@);
                    assert(!loadable(s));
                }
                return Err(StorageError::InvalidData);
            }
            proof {
                assert(s[i as int] == rows@[i as int]@);
            }
            let mut j: usize = i + 1;
            while j < n
                invariant
                    n == rows@.len(),
                    s == rows@.map_values(|e: ClipboardEntry| e@),
                    i < j <= n,
                    forall|b: int|
                        i < b < j ==> s[i as int].timestamp > (#[trigger] s[b]).timestamp
                            && s[i as int].content != s[b].content && s[i as int].id != s[b].id,
                decreases n - j,
            {
                if rows[j].timestamp >= rows[i].timestamp || rows[i].content == rows[j].content
                    || rows[i].id == rows[j].id {
                    proof {
                        assert(s[i as int] == rows@[i as int]@);
                        assert(s[j as int] == rows@[j as int]@);
                        assert(!loadable(s));
                    }
                    return Err(StorageError::InvalidData);
                }
                proof {
                    assert(s[i as int] == rows@[i as int]@);
                    assert(s[j as int] == rows@[j as int]@);
                }
                j += 1;
            }
            i += 1;
        }
        let mut d: Option<usize> = None;
        let mut k: usize = 0;
        while k < n
            invariant
                n == rows@.len(),
                s == rows@.map_values(|e: ClipboardEntry| e@),
                k <= n,
                match d {
                    Some(di) => di < k && s[di as int].is_default && forall|a: int|
                        0 <= a < k && a != di ==> !(#[trigger] s[a]).is_default,
                    None => forall|a: int| 0 <= a < k ==> !(#[trigger] s[a]).is_default,
                },
            decreases n - k,
        {
            proof {
                assert(s[k as int] == rows@[k as int]@);
            }
            if rows[k].is_default {
                if d.is_some() {
                    proof {
                        let di = d->Some_0;
                        assert(s[di as int].is_default && s[k as int].is_default && di != k);
                        assert(!at_most_one_default(s));
                    }
                    return Err(StorageError::InvalidData);
                }
                d = Some(k);
            }
            k += 1;
        }
        if n > 0 && d.is_none() {
            return Err(StorageError::InvalidData);
        }
        let mut max_id: i64 = -1;
        let mut t: usize = 0;
        while t < n
            invariant
                n == rows@.len(),
                s == rows@.map_values(|e: ClipboardEntry| e@),
                t <= n,
                forall|a: int| 0 <= a < n ==> 0 <= (#[trigger] s[a]).id < i64::MAX,
                -1 <= max_id < i64::MAX,
                forall|a: int| 0 <= a < t ==> (#[trigger] s[a]).id <= max_id,
                max_id >= 0 ==> exists|a: int| 0 <= a < t && (#[trigger] s[a]).id == max_id,
            decreases n - t,
        {
            proof {
                assert(s[t as int] == rows@[t as int]@);
            }
            if rows[t].id > max_id {
                max_id = rows[t].id;
            }
            t += 1;
        }
        let clock: i64 = if n == 0 {
            0
        } else {
            rows[0].timestamp
        };
        let db = Database { entries: rows, next_id: max_id + 1, clock };
        proof {
            assert(db@.entries == s);
            if n > 0 {
                assert(some_default(s));
                assert(s[0] == db@.entries[0]);
                assert(forall|a: int|
                    0 < a < s.len() ==> (#[trigger] s[a]).timestamp < s[0].timestamp);
                assert(max_id >= 0 && s[0].id <= max_id);
            }
            assert(loadable(s));
            assert(db@.wf());
        }
        Ok(db)
    }

    /// Index of the entry holding `content`, if any.
    fn index_of_content(&self, content: &String) -> (r: Option<usize>)
        ensures
            match r {
                Some(i) => i < self@.entries.len() && self@.entries[i as int].content
                    == content@,
                None => !has_content(self@.entries, content@),
            },
    {
        let mut i: usize = 0;
        while i < self.entries.len()
            invariant
                i <= self.entries@.len(),
                forall|k: int| 0 <= k < i ==> (#[trigger] self.entries@[k])@.content != content@,
            decreases self.entries@.len() - i,
        {
            if self.entries[i].content == *content {
                return Some(i);
            }
            i += 1;
        }
        None
    }

    /// Index of the entry with identity `id`, if any.
    fn index_of_id(&self, id: i64) -> (r: Option<usize>)
        ensures
            match r {
                Some(i) => i < self@.entries.len() && self@.entries[i as int].id == id as int,
                None => !has_id(self@.entries, id as int),
            },
    {
        let mut i: usize = 0;
        while i < self.entries.len()
            invariant
                i <= self.entries@.len(),
                forall|k: int| 0 <= k < i ==> (#[trigger] self.entries@[k])@.id != id as int,
            decreases self.entries@.len() - i,
        {
            if self.entries[i].id == id {
                return Some(i);
            }
            i += 1;
        }
        None
    }

    /// Index of the current default entry, if any.
    fn index_of_default(&self) -> (r: Option<usize>)
        ensures
            match r {
                Some(i) => i < self@.entries.len() && self@.entries[i as int].is_default,
                None => !some_default(self@.entries),
            },
    {
        let mut i: usize = 0;
        while i < self.entries.len()
            invariant
                i <= self.entries@.len(),
                forall|k: int| 0 <= k < i ==> !(#[trigger] self.entries@[k])@.is_default,
            decreases self.entries@.len() - i,
        {
            if self.entries[i].is_default {
                return Some(i);
            }
            i += 1;
        }
        None
    }

    /// Up to `limit` entries, most recently touched first.  The result is the
    /// prefix of the store's recency order, so it is strictly ordered by
    /// timestamp descending and never longer than `limit`.
    pub fn get_recent_entries(&self, limit: i64) -> (r: Vec<ClipboardEntry>)
        requires
            self.inv(),
        ensures
            r@.map_values(|e: ClipboardEntry| e@) == self@.entries.take(
                clamped(limit as int, self@.entries.len() as int),
            ),
            r@.len() <= self@.entries.len(),
            limit >= 0 ==> r@.len() <= limit,
            strictly_recency_ordered(r@.map_values(|e: ClipboardEntry| e@)),
    {
        let n = self.entries.len();
        let k: usize = if limit <= 0 {
            0
        } else if limit >= n as i64 {
            n
        } else {
            limit as usize
        };
        let mut r: Vec<ClipboardEntry> = Vec::new();
        let mut i: usize = 0;
        while i < k
            invariant
                i <= k <= self.entries@.len(),
                self.inv(),
                r@.map_values(|e: ClipboardEntry| e@) == self@.entries.take(i as int),
            decreases k - i,
        {
            let ghost rold = r@;
            let e = self.entries[i].clone();
            proof {
                assert(e@ == self@.entries[i as int]);
            }
            r.push(e);
            proof {
                assert(r@.map_values(|x: ClipboardEntry| x@) =~= rold.map_values(
                    |x: ClipboardEntry| x@,
                ).push(e@));
                assert(self@.entries.take((i + 1) as int) =~= self@.entries.take(i as int).push(
                    self@.entries[i as int],
                ));
            }
            i += 1;
        }
        proof {
            assert(k as int == clamped(limit as int, self@.entries.len() as int));
        }
        r
    }

    /// The single default entry, or nothing when the store is empty.
    pub fn get_default_entry(&self) -> (r: Option<ClipboardEntry>)
        requires
            self.inv(),
        ensures
            match r {
                Some(e) => some_default(self@.entries) && e@.is_default && exists|i: int|
                    0 <= i < self@.entries.len() && #[trigger] self@.entries[i] == e@,
                None => !some_default(self@.entries),
            },
    {
        match self.index_of_default() {
            Some(i) => Some(self.entries[i].clone()),
            None => None,
        }
    }

    /// Record a captured text.  A content already live is refreshed to the
    /// newest instant (its default marker untouched); a new content is
    /// inserted at the front as the new default and the least recently
    /// touched entries beyond the cap are evicted.  The only failure is
    /// counter exhaustion, which leaves the store unchanged.
    pub fn add_entry(&mut self, content: String) -> (r: Result<(), StorageError>)
        requires
            old(self).inv(),
        ensures
            final(self).inv(),
            (r matches Ok(())) <==> can_add(old(self)@, content@),
            r matches Ok(()) ==> final(self)@ == step_add(old(self)@, content@),
            r matches Ok(()) ==> final(self)@.entries.len() > 0 && final(self)@.entries[0].content
                == content@ && final(self)@.entries[0].timestamp == old(self)@.clock + 1,
            r matches Err(e) ==> final(self)@ == old(self)@ && e == StorageError::CounterExhausted,
    {
        let ghost m0 = self@;
        let ghost c = content@;
        match self.index_of_content(&content) {
            Some(i) => {
                if self.clock == i64::MAX {
                    return Err(StorageError::CounterExhausted);
                }
                proof {
                    assert(has_content(m0.entries, c));
                    let ci = content_index(m0.entries, c);
                    assert(0 <= ci < m0.entries.len() && m0.entries[ci].content == c);
                    assert(ci == i as int);
                }
                let e = self.entries.remove(i);
                let ts = self.clock + 1;
                let e2 = ClipboardEntry {
                    id: e.id,
                    content: e.content,
                    timestamp: ts,
                    is_default: e.is_default,
                };
                self.entries.insert(0, e2);
                self.clock = ts;
                proof {
                    lemma_add_preserves_wf(m0, c);
                    assert(self@.entries =~= step_add(m0, c).entries);
                    assert(self@ =~= step_add(m0, c));
                }
                Ok(())
            },
            None => {
                if self.clock == i64::MAX || self.next_id == i64::MAX {
                    return Err(StorageError::CounterExhausted);
                }
                let mut j: usize = 0;
                while j < self.entries.len()
                    invariant
                        j <= self.entries@.len(),
                        self.entries@.len() == m0.entries.len(),
                        self.next_id as int == m0.next_id,
                        self.clock as int == m0.clock,
                        forall|k: int|
                            0 <= k < j ==> (#[trigger] self.entries@[k])@ == with_default(
                                m0.entries[k],
                                false,
                            ),
                        forall|k: int|
                            j <= k < self.entries@.len() ==> (#[trigger] self.entries@[k])@
                                == m0.entries[k],
                    decreases self.entries@.len() - j,
                {
                    if self.entries[j].is_default {
                        let ne = ClipboardEntry {
                            id: self.entries[j].id,
                            content: self.entries[j].content.clone(),
                            timestamp: self.entries[j].timestamp,
                            is_default: false,
                        };
                        self.entries[j] = ne;
                    } else {
                        proof {
                            assert(self.entries@[j as int]@ =~= with_default(
                                m0.entries[j as int],
                                false,
                            ));
                        }
                    }
                    j += 1;
                }
                let ts = self.clock + 1;
                let ne = ClipboardEntry {
                    id: self.next_id,
                    content,
                    timestamp: ts,
                    is_default: true,
                };
                self.entries.insert(0, ne);
                self.next_id = self.next_id + 1;
                self.clock = ts;
                if self.entries.len() > HISTORY_CAP {
                    let _ = self.entries.pop();
                }
                proof {
                    lemma_add_preserves_wf(m0, c);
                    assert(self@.entries =~= step_add(m0, c).entries);
                    assert(self@ =~= step_add(m0, c));
                }
                Ok(())
            },
        }
    }

    /// Promote the entry with identity `id` to be the only default.  An `id`
    /// matching no live entry is reported as `EntryNotFound` and leaves the
    /// store unchanged, preserving the previous default.
    pub fn set_default_entry(&mut self, id: i64) -> (r: Result<(), StorageError>)
        requires
            old(self).inv(),
        ensures
            final(self).inv(),
            final(self)@ == step_set_default(old(self)@, id as int),
            (r matches Ok(())) <==> has_id(old(self)@.entries, id as int),
            r matches Err(e) ==> e == StorageError::EntryNotFound,
    {
        let ghost m0 = self@;
        if self.index_of_id(id).is_none() {
            return Err(StorageError::EntryNotFound);
        }
        let mut j: usize = 0;
        while j < self.entries.len()
            invariant
                j <= self.entries@.len(),
                self.entries@.len() == m0.entries.len(),
                self.next_id as int == m0.next_id,
                self.clock as int == m0.clock,
                forall|k: int|
                    0 <= k < j ==> (#[trigger] self.entries@[k])@ == with_default(
                        m0.entries[k],
                        m0.entries[k].id == id as int,
                    ),
                forall|k: int|
                    j <= k < self.entries@.len() ==> (#[trigger] self.entries@[k])@
                        == m0.entries[k],
            decreases self.entries@.len() - j,
        {
            let ne = ClipboardEntry {
                id: self.entries[j].id,
                content: self.entries[j].content.clone(),
                timestamp: self.entries[j].timestamp,
                is_default: self.entries[j].id == id,
            };
            self.entries[j] = ne;
            j += 1;
        }
        proof {
            lemma_set_default_preserves_wf(m0, id as int);
            assert(self@ =~= step_set_default(m0, id as int));
        }
        Ok(())
    }
}

/// Recording a capture preserves the store invariant.  A dedup hit permutes
/// the live entries (one timestamp refreshed); a fresh insert stamps the new
/// entry with a strictly newer instant and a strictly larger identity than
/// everything live, clears the old default, and evicts only from the stale
/// end.
pub proof fn lemma_add_preserves_wf(m: DbModel, c: Seq<char>)
    requires
        m.wf(),
        can_add(m, c),
    ensures
        step_add(m, c).wf(),
{
    if has_content(m.entries, c) {
        let i = content_index(m.entries, c);
        assert(0 <= i < m.entries.len() && m.entries[i].content == c);
        let upd = refreshed(m.entries[i], m.clock + 1);
        let rest = m.entries.remove(i);
        let s2 = seq![upd] + rest;
        m.entries.remove_ensures(i);
        // Where each element of the permuted sequence came from.
        assert(s2[0] == upd);
        assert forall|k: int| 1 <= k < s2.len() implies s2[k] == m.entries[orig_index(i, k)]
            && 0 <= orig_index(i, k) < m.entries.len() && orig_index(i, k) != i by {
            assert(s2[k] == rest[k - 1]);
        }
        assert forall|a: int, b: int|
            0 <= a < b < s2.len() implies (#[trigger] s2[a]).timestamp
            > (#[trigger] s2[b]).timestamp by {
            if a >= 1 {
                assert(orig_index(i, a) < orig_index(i, b));
            }
        }
        assert forall|a: int, b: int|
            0 <= a < b < s2.len() implies (#[trigger] s2[a]).content != (#[trigger] s2[b]).content
            && (#[trigger] s2[a]).id != (#[trigger] s2[b]).id by {
            if a == 0 {
                let ob = orig_index(i, b);
                assert(m.entries[ob].content != m.entries[i].content);
                assert(m.entries[ob].id != m.entries[i].id);
            } else {
                assert(orig_index(i, a) < orig_index(i, b));
            }
        }
        assert forall|a: int, b: int|
            0 <= a < s2.len() && 0 <= b < s2.len() && (#[trigger] s2[a]).is_default
                && (#[trigger] s2[b]).is_default implies a == b by {
            if a != b {
                let oa = if a == 0 {
                    i
                } else {
                    orig_index(i, a)
                };
                let ob = if b == 0 {
                    i
                } else {
                    orig_index(i, b)
                };
                assert(m.entries[oa].is_default && m.entries[ob].is_default);
                assert(oa != ob);
            }
        }
        if s2.len() > 0 {
            let d = choose|k: int| 0 <= k < m.entries.len() && (#[trigger] m.entries[k]).is_default;
            if d == i {
                assert(s2[0].is_default);
            } else if d < i {
                assert(s2[d + 1] == m.entries[d]);
                assert(s2[d + 1].is_default);
            } else {
                assert(s2[d] == m.entries[d]);
                assert(s2[d].is_default);
            }
        }
    } else {
        let fresh = AbsEntry { id: m.next_id, content: c, timestamp: m.clock + 1, is_default: true };
        let cleared = m.entries.map_values(|e: AbsEntry| with_default(e, false));
        let grown = seq![fresh] + cleared;
        let s3 = step_add(m, c).entries;
        assert(grown[0] == fresh);
        assert forall|k: int| 1 <= k < grown.len() implies (#[trigger] grown[k]) == with_default(
            m.entries[k - 1],
            false,
        ) by {}
        assert forall|k: int| 0 <= k < s3.len() implies s3[k] == grown[k] by {}
        assert forall|a: int, b: int|
            0 <= a < b < s3.len() implies (#[trigger] s3[a]).timestamp
            > (#[trigger] s3[b]).timestamp by {
            if a == 0 {
                assert(s3[b].timestamp == m.entries[b - 1].timestamp <= m.clock);
            }
        }
        assert forall|a: int, b: int|
            0 <= a < b < s3.len() implies (#[trigger] s3[a]).content != (#[trigger] s3[b]).content
            && (#[trigger] s3[a]).id != (#[trigger] s3[b]).id by {
            if a == 0 {
                assert(!has_content(m.entries, c));
                assert(m.entries[b - 1].content != c);
                assert(m.entries[b - 1].id < m.next_id);
            }
        }
        assert(s3[0].is_default);
        assert forall|k: int| 1 <= k < s3.len() implies !(#[trigger] s3[k]).is_default by {}
    }
}

/// Position, in a sequence before index `i` was removed from it, of the
/// element now at position `k` of `seq![x] + removed` (for `k >= 1`).
pub open spec fn orig_index(i: int, k: int) -> int {
    if k - 1 < i {
        k - 1
    } else {
        k
    }
}

/// Promoting an entry preserves the store invariant: every field other than
/// the default markers is untouched, and the markers single out exactly the
/// promoted identity.
pub proof fn lemma_set_default_preserves_wf(m: DbModel, id: int)
    requires
        m.wf(),
    ensures
        step_set_default(m, id).wf(),
{
    if has_id(m.entries, id) {
        let s2 = m.entries.map_values(|e: AbsEntry| with_default(e, e.id == id));
        assert forall|i: int, j: int|
            0 <= i < s2.len() && 0 <= j < s2.len() && (#[trigger] s2[i]).is_default
                && (#[trigger] s2[j]).is_default implies i == j by {
            assert(m.entries[i].id == id && m.entries[j].id == id);
        }
        let w = choose|i: int| 0 <= i < m.entries.len() && (#[trigger] m.entries[i]).id == id;
        assert(s2[w].is_default);
    }
}

} // verus!
