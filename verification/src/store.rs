//! The generic persistence table and the mutation dispatcher.
//!
//! Every writable resource kind follows the same protocol: a record is
//! identified by a natural key, and a mutation is one of Create, Update,
//! Upsert or Delete.  `Table` keeps one kind's records with unique keys, is
//! modelled as a map from natural key to record, and `dispatch` is the single
//! algorithm that all resource kinds share; per-kind behaviour enters only
//! through the `Resource` descriptor.

use vstd::prelude::*;
use vstd::map::*;

verus! {

/// A natural key: one name, or a pair of names for composite keys.  Records
/// with a single name leave the second component empty.
pub type KeyPair = (Seq<char>, Seq<char>);

/// The per-kind resource descriptor: how to read a record's natural key and
/// how an update payload is folded into an existing record.
pub trait Resource: Sized {
    /// The record's natural key.
    spec fn key(&self) -> KeyPair;

    /// The record that an update with `payload` leaves in place of
    /// `current`.
    spec fn merge_spec(current: Self, payload: Self) -> Self;

    /// Folding a payload in never changes the key under which the record is
    /// stored.
    proof fn merge_keeps_key(current: Self, payload: Self)
        requires
            current.key() == payload.key(),
        ensures
            Self::merge_spec(current, payload).key() == payload.key(),
    ;

    /// Folding the same payload in twice changes nothing more than folding
    /// it in once.
    proof fn merge_absorbs(current: Self, payload: Self)
        ensures
            Self::merge_spec(Self::merge_spec(current, payload), payload) == Self::merge_spec(
                current,
                payload,
            ),
            Self::merge_spec(payload, payload) == payload,
    ;

    /// Whether two records share one natural key.
    fn key_eq(&self, other: &Self) -> (r: bool)
        ensures
            r == (self.key() == other.key()),
    ;

    /// Folds `payload` into `current`.
    fn merged(current: Self, payload: Self) -> (r: Self)
        ensures
            r == Self::merge_spec(current, payload),
    ;
}

/// Whether some record in `s` has key `k`.
pub open spec fn seq_contains_key<R: Resource>(s: Seq<R>, k: KeyPair) -> bool {
    exists|i: int| 0 <= i < s.len() && (#[trigger] s[i]).key() == k
}

pub open spec fn seq_key_index<R: Resource>(s: Seq<R>, k: KeyPair) -> int {
    choose|i: int| 0 <= i < s.len() && (#[trigger] s[i]).key() == k
}

/// Whether the records of `s` carry pairwise distinct keys.
pub open spec fn seq_keys_unique<R: Resource>(s: Seq<R>) -> bool {
    forall|i: int, j: int|
        0 <= i < j < s.len() ==> (#[trigger] s[i]).key() != (#[trigger] s[j]).key()
}

/// The keyed view of a record sequence.
pub open spec fn seq_to_map<R: Resource>(s: Seq<R>) -> Map<KeyPair, R> {
    Map::new(|k: KeyPair| seq_contains_key(s, k), |k: KeyPair| s[seq_key_index(s, k)])
}

proof fn lemma_seq_to_map_empty<R: Resource>()
    ensures
        seq_to_map(Seq::<R>::empty()) == Map::<KeyPair, R>::empty(),
{
    assert_maps_equal!(seq_to_map(Seq::<R>::empty()), Map::<KeyPair, R>::empty(), k => {
        assert(!seq_contains_key(Seq::<R>::empty(), k));
    });
}

proof fn lemma_push_map<R: Resource>(s: Seq<R>, row: R)
    requires
        seq_keys_unique(s),
        !seq_contains_key(s, row.key()),
    ensures
        seq_keys_unique(s.push(row)),
        seq_to_map(s.push(row)) == seq_to_map(s).insert(row.key(), row),
{
    let s2 = s.push(row);
    assert forall|i: int, j: int| 0 <= i < j < s2.len() implies (#[trigger] s2[i]).key() != (
    #[trigger] s2[j]).key() by {
        if j < s.len() {
            assert(s2[i] == s[i] && s2[j] == s[j]);
        } else {
            assert(s2[j] == row && s2[i] == s[i]);
            assert(!seq_contains_key(s, row.key()));
        }
    }
    assert_maps_equal!(seq_to_map(s.push(row)), seq_to_map(s).insert(row.key(), row), k => {
        if k == row.key() {
            assert(s2[s.len() as int].key() == k);
            assert(seq_contains_key(s2, k));
            let i = seq_key_index(s2, k);
            if i < s.len() {
                assert(s[i].key() == k);
            }
            assert(s2[i] == row);
        } else {
            if seq_contains_key(s, k) {
                let i = seq_key_index(s, k);
                assert(s2[i].key() == k);
                assert(seq_contains_key(s2, k));
                let i2 = seq_key_index(s2, k);
                assert(i2 < s.len() && s[i2].key() == k);
                if i < i2 {
                    assert(s[i].key() != s[i2].key());
                }
                if i2 < i {
                    assert(s[i2].key() != s[i].key());
                }
            }
            if seq_contains_key(s2, k) {
                let i2 = seq_key_index(s2, k);
                assert(i2 < s.len() && s[i2].key() == k);
                assert(seq_contains_key(s, k));
            }
        }
    });
}

proof fn lemma_remove_map<R: Resource>(s: Seq<R>, at: int)
    requires
        seq_keys_unique(s),
        0 <= at < s.len(),
    ensures
        seq_keys_unique(s.remove(at)),
        seq_to_map(s.remove(at)) == seq_to_map(s).remove(s[at].key()),
{
    let s2 = s.remove(at);
    let removed = s[at].key();
    assert forall|i: int, j: int| 0 <= i < j < s2.len() implies (#[trigger] s2[i]).key() != (
    #[trigger] s2[j]).key() by {
        let i0 = if i < at { i } else { i + 1 };
        let j0 = if j < at { j } else { j + 1 };
        assert(s2[i] == s[i0] && s2[j] == s[j0]);
    }
    assert_maps_equal!(seq_to_map(s.remove(at)), seq_to_map(s).remove(s[at].key()), k => {
        if k == removed {
            if seq_contains_key(s2, k) {
                let i = seq_key_index(s2, k);
                let i0 = if i < at { i } else { i + 1 };
                assert(s2[i] == s[i0]);
                if i0 < at {
                    assert(s[i0].key() != s[at].key());
                } else if at < i0 {
                    assert(s[at].key() != s[i0].key());
                }
            }
        } else {
            if seq_contains_key(s, k) {
                let i = seq_key_index(s, k);
                assert(s[i].key() == k && i != at);
                let i2 = if i < at { i } else { i - 1 };
                assert(s2[i2] == s[i]);
                assert(seq_contains_key(s2, k));
                let w = seq_key_index(s2, k);
                let w0 = if w < at { w } else { w + 1 };
                assert(s2[w] == s[w0]);
                if w0 < i {
                    assert(s[w0].key() != s[i].key());
                }
                if i < w0 {
                    assert(s[i].key() != s[w0].key());
                }
            }
            if seq_contains_key(s2, k) {
                let w = seq_key_index(s2, k);
                let w0 = if w < at { w } else { w + 1 };
                assert(s2[w] == s[w0]);
                assert(seq_contains_key(s, k));
            }
        }
    });
}

proof fn lemma_seq_to_map_len<R: Resource>(s: Seq<R>)
    requires
        seq_keys_unique(s),
    ensures
        seq_to_map(s).dom().finite(),
        seq_to_map(s).dom().len() == s.len(),
    decreases s.len(),
{
    if s.len() == 0 {
        assert(s =~= Seq::<R>::empty());
        lemma_seq_to_map_empty::<R>();
    } else {
        let prefix = s.drop_last();
        let last = s.last();
        assert(s =~= prefix.push(last));
        assert(seq_keys_unique(prefix));
        assert(!seq_contains_key(prefix, last.key())) by {
            if seq_contains_key(prefix, last.key()) {
                let i = seq_key_index(prefix, last.key());
                assert(s[i].key() == s[s.len() - 1].key());
            }
        }
        lemma_seq_to_map_len(prefix);
        lemma_push_map(prefix, last);
        assert(seq_to_map(s).dom() =~= seq_to_map(prefix).dom().insert(last.key()));
        vstd::set::axiom_set_insert_len(seq_to_map(prefix).dom(), last.key());
    }
}

/// A collection of one resource kind's records, with pairwise distinct
/// natural keys.  Its model is the map from natural key to record.
pub struct Table<R> {
    rows: Vec<R>,
}

impl<R: Resource> View for Table<R> {
    type V = Map<KeyPair, R>;

    closed spec fn view(&self) -> Map<KeyPair, R> {
        seq_to_map(self.rows@)
    }
}

impl<R: Resource> Table<R> {
    /// Keys are pairwise distinct.
    pub closed spec fn wf(&self) -> bool {
        seq_keys_unique(self.rows@)
    }

    /// The records in storage order, for read-only scans.
    pub closed spec fn rows_seq(&self) -> Seq<R> {
        self.rows@
    }

    /// The keyed view is the keyed reading of the record sequence.
    pub proof fn lemma_view_rows(&self)
        ensures
            self@ == seq_to_map(self.rows_seq()),
            self.wf() == seq_keys_unique(self.rows_seq()),
    {
    }

    /// A record is always stored under its own key.
    pub proof fn lemma_value_key(&self, k: KeyPair)
        requires
            self@.contains_key(k),
        ensures
            self@[k].key() == k,
    {
        let s = self.rows@;
        let w = seq_key_index(s, k);
        assert(seq_contains_key(s, k));
        assert(s[w].key() == k);
    }

    /// How many records the table holds in storage order.
    pub fn row_count(&self) -> (r: usize)
        ensures
            r == self.rows_seq().len(),
    {
        self.rows.len()
    }

    /// The record at one storage position.
    pub fn row_at(&self, i: usize) -> (r: &R)
        requires
            i < self.rows_seq().len(),
        ensures
            *r == self.rows_seq()[i as int],
    {
        &self.rows[i]
    }

    pub fn new() -> (r: Table<R>)
        ensures
            r.wf(),
            r@ == Map::<KeyPair, R>::empty(),
    {
        proof {
            lemma_seq_to_map_empty::<R>();
        }
        Table { rows: Vec::new() }
    }

    fn find(&self, probe: &R) -> (r: Option<usize>)
        ensures
            match r {
                Some(i) => i < self.rows@.len() && self.rows@[i as int].key() == probe.key(),
                None => !seq_contains_key(self.rows@, probe.key()),
            },
    {
        let n = self.rows.len();
        let mut i: usize = 0;
        while i < n
            invariant
                n == self.rows@.len(),
                i <= n,
                forall|j: int| 0 <= j < i ==> (#[trigger] self.rows@[j]).key() != probe.key(),
            decreases n - i,
        {
            if self.rows[i].key_eq(probe) {
                return Some(i);
            }
            i = i + 1;
        }
        proof {
            if seq_contains_key(self.rows@, probe.key()) {
                let w = seq_key_index(self.rows@, probe.key());
                assert(self.rows@[w].key() != probe.key());
            }
        }
        None
    }

    /// Whether a record with `probe`'s key is present.
    pub fn contains(&self, probe: &R) -> (r: bool)
        ensures
            r == self@.contains_key(probe.key()),
    {
        self.find(probe).is_some()
    }

    /// The record stored under `probe`'s key, if any.
    pub fn get(&self, probe: &R) -> (r: Option<&R>)
        requires
            self.wf(),
        ensures
            match r {
                Some(row) => self@.contains_key(probe.key()) && *row == self@[probe.key()],
                None => !self@.contains_key(probe.key()),
            },
    {
        match self.find(probe) {
            None => None,
            Some(i) => {
                proof {
                    let w = seq_key_index(self.rows@, probe.key());
                    if w < i {
                        assert(self.rows@[w].key() != self.rows@[i as int].key());
                    }
                    if i < w {
                        assert(self.rows@[i as int].key() != self.rows@[w].key());
                    }
                }
                Some(&self.rows[i])
            },
        }
    }

    /// How many records the table holds.
    pub fn len(&self) -> (r: usize)
        requires
            self.wf(),
        ensures
            r == self@.dom().len(),
    {
        proof {
            lemma_seq_to_map_len(self.rows@);
        }
        self.rows.len()
    }

    /// Inserts a new record; `Conflict` when its key is already taken.
    pub fn create(&mut self, row: R) -> (r: Option<StoreError>)
        requires
            old(self).wf(),
        ensures
            final(self).wf(),
            match r {
                None => !old(self)@.contains_key(row.key()) && final(self)@ == old(self)@.insert(
                    row.key(),
                    row,
                ),
                Some(StoreError::Conflict) => old(self)@.contains_key(row.key()) && final(self)@
                    == old(self)@,
                Some(_) => false,
            },
    {
        match self.find(&row) {
            Some(_) => Some(StoreError::Conflict),
            None => {
                proof {
                    lemma_push_map(self.rows@, row);
                }
                self.rows.push(row);
                None
            },
        }
    }

    /// Folds the payload into the record under its key; `NotFound` when no
    /// record carries that key.
    pub fn update(&mut self, payload: R) -> (r: Option<StoreError>)
        requires
            old(self).wf(),
        ensures
            final(self).wf(),
            match r {
                None => old(self)@.contains_key(payload.key()) && final(self)@
                    == old(self)@.insert(
                    payload.key(),
                    R::merge_spec(old(self)@[payload.key()], payload),
                ),
                Some(StoreError::NotFound) => !old(self)@.contains_key(payload.key())
                    && final(self)@ == old(self)@,
                Some(_) => false,
            },
    {
        match self.find(&payload) {
            None => Some(StoreError::NotFound),
            Some(i) => {
                self.replace_at(i, payload);
                None
            },
        }
    }

    /// Updates the record when the key is present, inserts the payload when
    /// it is not.  Never fails.
    pub fn upsert(&mut self, payload: R)
        requires
            old(self).wf(),
        ensures
            final(self).wf(),
            final(self)@ == spec_upsert(old(self)@, payload),
    {
        match self.find(&payload) {
            None => {
                proof {
                    lemma_push_map(self.rows@, payload);
                }
                self.rows.push(payload);
            },
            Some(i) => {
                self.replace_at(i, payload);
            },
        }
    }

    fn replace_at(&mut self, i: usize, payload: R)
        requires
            old(self).wf(),
            i < old(self).rows@.len(),
            old(self).rows@[i as int].key() == payload.key(),
        ensures
            final(self).wf(),
            final(self)@ == old(self)@.insert(
                payload.key(),
                R::merge_spec(old(self)@[payload.key()], payload),
            ),
    {
        let ghost s = self.rows@;
        let ghost k = payload.key();
        proof {
            let w = seq_key_index(s, k);
            assert(s[i as int].key() == k);
            assert(seq_contains_key(s, k));
            if w < i {
                assert(s[w].key() != s[i as int].key());
            }
            if i < w {
                assert(s[i as int].key() != s[w].key());
            }
            assert(self@[k] == s[i as int]);
            lemma_remove_map(s, i as int);
        }
        let current = self.rows.remove(i);
        let merged = R::merged(current, payload);
        proof {
            R::merge_keeps_key(current, payload);
            if seq_contains_key(self.rows@, k) {
                let w = seq_key_index(self.rows@, k);
                let w0 = if w < i { w as int } else { w + 1 };
                assert(self.rows@[w] == s[w0]);
                if w0 < i {
                    assert(s[w0].key() != s[i as int].key());
                }
                if i < w0 {
                    assert(s[i as int].key() != s[w0].key());
                }
            }
            lemma_push_map(self.rows@, merged);
            assert_maps_equal!(
                seq_to_map(s).remove(k).insert(k, R::merge_spec(s[i as int], payload)),
                seq_to_map(s).insert(k, R::merge_spec(s[i as int], payload)),
                key => {}
            );
        }
        self.rows.push(merged);
    }

    /// Removes the record under the probe's key; `NotFound` when no record
    /// carries that key.
    pub fn delete(&mut self, probe: &R) -> (r: Option<StoreError>)
        requires
            old(self).wf(),
        ensures
            final(self).wf(),
            match r {
                None => old(self)@.contains_key(probe.key()) && final(self)@ == old(self)@.remove(
                    probe.key(),
                ),
                Some(StoreError::NotFound) => !old(self)@.contains_key(probe.key())
                    && final(self)@ == old(self)@,
                Some(_) => false,
            },
    {
        match self.find(probe) {
            None => Some(StoreError::NotFound),
            Some(i) => {
                proof {
                    let w = seq_key_index(self.rows@, probe.key());
                    if w < i {
                        assert(self.rows@[w].key() != self.rows@[i as int].key());
                    }
                    if i < w {
                        assert(self.rows@[i as int].key() != self.rows@[w].key());
                    }
                    lemma_remove_map(self.rows@, i as int);
                }
                self.rows.remove(i);
                None
            },
        }
    }

    /// Removes every record.
    pub fn clear(&mut self)
        ensures
            final(self).wf(),
            final(self)@ == Map::<KeyPair, R>::empty(),
    {
        self.rows.clear();
        proof {
            lemma_seq_to_map_empty::<R>();
        }
    }
}

/// The operation kinds of the mutation protocol.
#[derive(Debug, Clone, Copy, PartialEq, Eq, Structural)]
pub enum ModType {
    Delete,
    Update,
    Create,
    Upsert,
}

/// What the persistence layer can report about a single mutation.
#[derive(Debug, Clone, Copy, PartialEq, Eq, Structural)]
pub enum StoreError {
    NotFound,
    Conflict,
    Unavailable,
}

/// The map an upsert leaves behind: fold into the present record, or insert
/// the payload.
pub open spec fn spec_upsert<R: Resource>(m: Map<KeyPair, R>, payload: R) -> Map<KeyPair, R> {
    if m.contains_key(payload.key()) {
        m.insert(payload.key(), R::merge_spec(m[payload.key()], payload))
    } else {
        m.insert(payload.key(), payload)
    }
}

/// The state and outcome of one mutation on the keyed model: Create demands
/// an absent key, Update and Delete demand a present one, Upsert always
/// succeeds.
pub open spec fn spec_dispatch<R: Resource>(m: Map<KeyPair, R>, op: ModType, payload: R) -> (
    Map<KeyPair, R>,
    Option<StoreError>,
) {
    match op {
        ModType::Create => if m.contains_key(payload.key()) {
            (m, Some(StoreError::Conflict))
        } else {
            (m.insert(payload.key(), payload), None)
        },
        ModType::Update => if m.contains_key(payload.key()) {
            (m.insert(payload.key(), R::merge_spec(m[payload.key()], payload)), None)
        } else {
            (m, Some(StoreError::NotFound))
        },
        ModType::Upsert => (spec_upsert(m, payload), None),
        ModType::Delete => if m.contains_key(payload.key()) {
            (m.remove(payload.key()), None)
        } else {
            (m, Some(StoreError::NotFound))
        },
    }
}

/// The one mutation algorithm shared by every resource kind.
pub fn dispatch<R: Resource>(table: &mut Table<R>, op: ModType, payload: R) -> (r: Option<
    StoreError,
>)
    requires
        old(table).wf(),
    ensures
        final(table).wf(),
        (final(table)@, r) == spec_dispatch(old(table)@, op, payload),
{
    match op {
        ModType::Create => table.create(payload),
        ModType::Update => table.update(payload),
        ModType::Upsert => {
            table.upsert(payload);
            None
        },
        ModType::Delete => table.delete(&payload),
    }
}

/// Applying one upsert payload twice leaves exactly the state that applying
/// it once leaves: upserts are idempotent and never duplicate a record.
pub proof fn lemma_upsert_idempotent<R: Resource>(m: Map<KeyPair, R>, payload: R)
    ensures
        spec_upsert(spec_upsert(m, payload), payload) == spec_upsert(m, payload),
{
    let k = payload.key();
    let m1 = spec_upsert(m, payload);
    if m.contains_key(k) {
        R::merge_absorbs(m[k], payload);
        assert(spec_upsert(m1, payload) =~= m1);
    } else {
        R::merge_absorbs(payload, payload);
        assert(spec_upsert(m1, payload) =~= m1);
    }
}

} // verus!
