//! The metric registry: the latest value of every registered metric.

use vstd::prelude::*;

verus! {

/// How a metric's value is to be read by a scraper.
#[derive(Clone, Copy, Debug, PartialEq, Eq, Structural)]
pub enum MetricKind {
    Counter,
    Gauge,
    Histogram,
}

/// What the registry knows of one metric.
#[derive(Clone, Copy, Debug, PartialEq, Eq, Structural)]
pub struct MetricValue {
    pub kind: MetricKind,
    /// The latest value observed; meaningful only once `populated`.
    pub value: i64,
    /// Whether a collection has ever succeeded.
    pub populated: bool,
    /// When the latest successful collection was written.
    pub updated_at: u64,
    /// Whether the most recent collection attempt failed.
    pub last_attempt_failed: bool,
}

#[derive(Clone, Copy, Debug, PartialEq, Eq, Structural)]
pub enum RegistryError {
    /// The name is already registered with another kind.
    DuplicateMetricName,
    /// The name was never registered.
    UnknownMetric,
}

/// The registry as mathematics: (name, value) pairs in registration order.
pub type Entries = Seq<(Seq<char>, MetricValue)>;

pub open spec fn names_distinct(m: Entries) -> bool {
    forall|i: int, j: int| 0 <= i < j < m.len() ==> (#[trigger] m[i]).0 != (#[trigger] m[j]).0
}

pub open spec fn has_name(m: Entries, name: Seq<char>) -> bool {
    exists|i: int| 0 <= i < m.len() && (#[trigger] m[i]).0 == name
}

/// Where `name` stands, if it is registered.
pub open spec fn index_of(m: Entries, name: Seq<char>) -> Option<int> {
    if has_name(m, name) {
        Some(choose|i: int| 0 <= i < m.len() && (#[trigger] m[i]).0 == name)
    } else {
        None
    }
}

pub open spec fn lookup(m: Entries, name: Seq<char>) -> Option<MetricValue> {
    match index_of(m, name) {
        Some(i) => Some(m[i].1),
        None => None,
    }
}

/// The state of a metric that was registered and never collected.
pub open spec fn fresh_value(kind: MetricKind) -> MetricValue {
    MetricValue { kind, value: 0, populated: false, updated_at: 0, last_attempt_failed: false }
}

/// Whether `register(name, kind)` is accepted: the name is new, or it is
/// held with the same kind.
pub open spec fn register_accepts(m: Entries, name: Seq<char>, kind: MetricKind) -> bool {
    match lookup(m, name) {
        Some(v) => v.kind == kind,
        None => true,
    }
}

/// The entries after `register(name, kind)`.
pub open spec fn registered(m: Entries, name: Seq<char>, kind: MetricKind) -> Entries {
    if has_name(m, name) {
        m
    } else {
        m.push((name, fresh_value(kind)))
    }
}

/// The entries after a successful collection of `name`.
pub open spec fn updated(m: Entries, name: Seq<char>, value: i64, now: u64) -> Entries {
    match index_of(m, name) {
        Some(i) => m.update(
            i,
            (
                name,
                MetricValue {
                    kind: m[i].1.kind,
                    value,
                    populated: true,
                    updated_at: now,
                    last_attempt_failed: false,
                },
            ),
        ),
        None => m,
    }
}

/// The entries after a failed collection of `name`: the last good value stays.
pub open spec fn failed(m: Entries, name: Seq<char>) -> Entries {
    match index_of(m, name) {
        Some(i) => m.update(
            i,
            (
                name,
                MetricValue {
                    kind: m[i].1.kind,
                    value: m[i].1.value,
                    populated: m[i].1.populated,
                    updated_at: m[i].1.updated_at,
                    last_attempt_failed: true,
                },
            ),
        ),
        None => m,
    }
}

/// With distinct names, the one place that holds `name` is its index.
pub proof fn lemma_index_of(m: Entries, name: Seq<char>, i: int)
    requires
        names_distinct(m),
        0 <= i < m.len(),
        m[i].0 == name,
    ensures
        has_name(m, name),
        index_of(m, name) == Some(i),
        lookup(m, name) == Some(m[i].1),
{
    let j = choose|j: int| 0 <= j < m.len() && (#[trigger] m[j]).0 == name;
    if j < i {
        assert(m[j].0 != m[i].0);
    } else if i < j {
        assert(m[i].0 != m[j].0);
    }
}

/// A collection, good or failed, touches one entry only: every name and
/// kind stays where it was, and every entry under another name is as before.
pub proof fn lemma_collection_touches_one(m: Entries, name: Seq<char>, value: i64, now: u64)
    ensures
        updated(m, name, value, now).len() == m.len(),
        failed(m, name).len() == m.len(),
        forall|k: int|
            0 <= k < m.len() ==> (#[trigger] updated(m, name, value, now)[k]).0 == m[k].0
                && updated(m, name, value, now)[k].1.kind == m[k].1.kind && (m[k].0 != name
                ==> updated(m, name, value, now)[k] == m[k]),
        forall|k: int|
            0 <= k < m.len() ==> (#[trigger] failed(m, name)[k]).0 == m[k].0 && failed(
                m,
                name,
            )[k].1.kind == m[k].1.kind && failed(m, name)[k].1.value == m[k].1.value && failed(
                m,
                name,
            )[k].1.populated == m[k].1.populated && failed(m, name)[k].1.updated_at
                == m[k].1.updated_at && (m[k].0 != name ==> failed(m, name)[k] == m[k]),
        names_distinct(m) ==> names_distinct(updated(m, name, value, now)) && names_distinct(
            failed(m, name),
        ),
{
    let u = updated(m, name, value, now);
    let f = failed(m, name);
    if names_distinct(m) {
        assert forall|i: int, j: int| 0 <= i < j < u.len() implies (#[trigger] u[i]).0 != (
        #[trigger] u[j]).0 by {
            assert(m[i].0 != m[j].0);
        }
        assert forall|i: int, j: int| 0 <= i < j < f.len() implies (#[trigger] f[i]).0 != (
        #[trigger] f[j]).0 by {
            assert(m[i].0 != m[j].0);
        }
    }
}

/// What is written is what is read: after a successful collection the
/// metric holds the new value and time under its old kind, and is healthy;
/// after a failed one it holds what it held, marked as failed. Every other
/// name reads as before.
pub proof fn lemma_collection_is_read_back(
    m: Entries,
    name: Seq<char>,
    value: i64,
    now: u64,
    other: Seq<char>,
)
    requires
        names_distinct(m),
        has_name(m, name),
        other != name,
    ensures
        lookup(updated(m, name, value, now), name) == Some(
            MetricValue {
                kind: lookup(m, name).unwrap().kind,
                value,
                populated: true,
                updated_at: now,
                last_attempt_failed: false,
            },
        ),
        lookup(failed(m, name), name) == Some(
            MetricValue {
                kind: lookup(m, name).unwrap().kind,
                value: lookup(m, name).unwrap().value,
                populated: lookup(m, name).unwrap().populated,
                updated_at: lookup(m, name).unwrap().updated_at,
                last_attempt_failed: true,
            },
        ),
        lookup(updated(m, name, value, now), other) == lookup(m, other),
        lookup(failed(m, name), other) == lookup(m, other),
{
    let i = index_of(m, name).unwrap();
    let u = updated(m, name, value, now);
    let f = failed(m, name);
    lemma_collection_touches_one(m, name, value, now);
    lemma_index_of(u, name, i);
    lemma_index_of(f, name, i);
    if has_name(m, other) {
        let j = index_of(m, other).unwrap();
        assert(u[j] == m[j]);
        assert(f[j] == m[j]);
        lemma_index_of(u, other, j);
        lemma_index_of(f, other, j);
    } else {
        assert forall|k: int| 0 <= k < u.len() implies (#[trigger] u[k]).0 != other by {
            assert(m[k].0 != other);
        }
        assert forall|k: int| 0 <= k < f.len() implies (#[trigger] f[k]).0 != other by {
            assert(m[k].0 != other);
        }
    }
}

/// Registering twice is registering once: with the same kind the second
/// call is accepted and changes nothing, so the name is held exactly once;
/// with another kind the second call is refused.
pub proof fn lemma_register_idempotent(
    m: Entries,
    name: Seq<char>,
    kind: MetricKind,
    other: MetricKind,
)
    requires
        names_distinct(m),
        register_accepts(m, name, kind),
    ensures
        names_distinct(registered(m, name, kind)),
        has_name(registered(m, name, kind), name),
        register_accepts(registered(m, name, kind), name, kind),
        registered(registered(m, name, kind), name, kind) == registered(m, name, kind),
        other != kind ==> !register_accepts(registered(m, name, kind), name, other),
        forall|i: int, j: int|
            0 <= i < registered(m, name, kind).len() && 0 <= j < registered(m, name, kind).len()
                && (#[trigger] registered(m, name, kind)[i]).0 == name && (#[trigger] registered(
                m,
                name,
                kind,
            )[j]).0 == name ==> i == j,
{
    let r = registered(m, name, kind);
    if has_name(m, name) {
        let i = index_of(m, name).unwrap();
        lemma_index_of(m, name, i);
    } else {
        assert forall|i: int, j: int| 0 <= i < j < r.len() implies (#[trigger] r[i]).0 != (
        #[trigger] r[j]).0 by {
            if j == m.len() {
                assert(m[i].0 != name);
            } else {
                assert(m[i].0 != m[j].0);
            }
        }
        assert(r[m.len() as int].0 == name);
        lemma_index_of(r, name, m.len() as int);
    }
    assert forall|i: int, j: int|
        0 <= i < r.len() && 0 <= j < r.len() && (#[trigger] r[i]).0 == name && (#[trigger] r[j]).0
            == name implies i == j by {
        if i < j {
            assert(r[i].0 != r[j].0);
        } else if j < i {
            assert(r[j].0 != r[i].0);
        }
    }
}

/// One entry of a snapshot.
pub struct SnapshotEntry {
    pub name: String,
    pub value: MetricValue,
}

/// An immutable copy of the registry at one moment.
pub struct Snapshot {
    pub entries: Vec<SnapshotEntry>,
}

impl View for Snapshot {
    type V = Entries;

    open spec fn view(&self) -> Entries {
        Seq::new(self.entries@.len(), |i: int| (self.entries@[i].name@, self.entries@[i].value))
    }
}

/// Maps metric names to their latest values. Entries are created once and
/// never removed.
pub struct Registry {
    names: Vec<String>,
    values: Vec<MetricValue>,
}

impl View for Registry {
    type V = Entries;

    closed spec fn view(&self) -> Entries {
        Seq::new(self.names@.len(), |i: int| (self.names@[i]@, self.values@[i]))
    }
}

impl Registry {
    /// Every name is held once.
    pub closed spec fn wf(&self) -> bool {
        &&& self.names@.len() == self.values@.len()
        &&& names_distinct(self@)
    }

    pub fn new() -> (r: Registry)
        ensures
            r.wf(),
            r@ == Seq::<(Seq<char>, MetricValue)>::empty(),
    {
        let r = Registry { names: Vec::new(), values: Vec::new() };
        assert(r@ =~= Seq::<(Seq<char>, MetricValue)>::empty());
        r
    }

    pub fn len(&self) -> (n: usize)
        ensures
            n == self@.len(),
    {
        self.names.len()
    }

    fn find(&self, name: &str) -> (r: Option<usize>)
        requires
            self.wf(),
        ensures
            match r {
                Some(i) => i < self@.len() && index_of(self@, name@) == Some(i as int),
                None => !has_name(self@, name@),
            },
    {
        let key = String::from_str(name);
        let mut i: usize = 0;
        while i < self.names.len()
            invariant
                self.wf(),
                key@ == name@,
                i <= self.names@.len(),
                forall|j: int| 0 <= j < i ==> (#[trigger] self@[j]).0 != name@,
            decreases self.names@.len() - i,
        {
            if self.names[i] == key {
                proof {
                    lemma_index_of(self@, name@, i as int);
                }
                return Some(i);
            }
            i += 1;
        }
        None
    }

    /// The value held for `name`, if it is registered.
    pub fn get(&self, name: &str) -> (r: Option<MetricValue>)
        requires
            self.wf(),
        ensures
            r == lookup(self@, name@),
    {
        match self.find(name) {
            Some(i) => Some(self.values[i]),
            None => None,
        }
    }

    /// Reserves `name` with `kind`. A name that is held with the same kind
    /// is accepted again and nothing changes; one held with another kind is
    /// refused and nothing changes.
    pub fn register(&mut self, name: &str, kind: MetricKind) -> (r: Result<(), RegistryError>)
        requires
            old(self).wf(),
        ensures
            final(self).wf(),
            register_accepts(old(self)@, name@, kind) ==> r == Ok::<(), RegistryError>(())
                && final(self)@ == registered(old(self)@, name@, kind),
            !register_accepts(old(self)@, name@, kind) ==> r == Err::<(), RegistryError>(
                RegistryError::DuplicateMetricName,
            ) && final(self)@ == old(self)@,
    {
        match self.find(name) {
            Some(i) => {
                if self.values[i].kind == kind {
                    Ok(())
                } else {
                    Err(RegistryError::DuplicateMetricName)
                }
            },
            None => {
                let ghost before = self@;
                self.names.push(String::from_str(name));
                self.values.push(
                    MetricValue {
                        kind,
                        value: 0,
                        populated: false,
                        updated_at: 0,
                        last_attempt_failed: false,
                    },
                );
                proof {
                    assert(self@ =~= before.push((name@, fresh_value(kind))));
                    assert forall|i: int, j: int| 0 <= i < j < self@.len() implies (#[trigger] self@[i]).0
                        != (#[trigger] self@[j]).0 by {
                        if j == before.len() {
                            assert(before[i].0 != name@);
                        } else {
                            assert(before[i].0 != before[j].0);
                        }
                    }
                }
                Ok(())
            },
        }
    }

    /// Writes a successful collection: the value, the time, and health.
    /// Every other metric is left as it was.
    pub fn update(&mut self, name: &str, value: i64, now: u64) -> (r: Result<(), RegistryError>)
        requires
            old(self).wf(),
        ensures
            final(self).wf(),
            final(self)@ == updated(old(self)@, name@, value, now),
            has_name(old(self)@, name@) ==> r == Ok::<(), RegistryError>(()),
            !has_name(old(self)@, name@) ==> r == Err::<(), RegistryError>(
                RegistryError::UnknownMetric,
            ),
    {
        match self.find(name) {
            Some(i) => {
                let ghost before = self@;
                let kind = self.values[i].kind;
                self.values.set(
                    i,
                    MetricValue {
                        kind,
                        value,
                        populated: true,
                        updated_at: now,
                        last_attempt_failed: false,
                    },
                );
                proof {
                    assert(self@ =~= updated(before, name@, value, now));
                    assert forall|a: int, b: int| 0 <= a < b < self@.len() implies (#[trigger] self@[a]).0
                        != (#[trigger] self@[b]).0 by {
                        assert(before[a].0 != before[b].0);
                    }
                }
                Ok(())
            },
            None => Err(RegistryError::UnknownMetric),
        }
    }

    /// Marks the latest attempt for `name` as failed. The last good value,
    /// its time and every other metric are left as they were.
    pub fn record_failure(&mut self, name: &str) -> (r: Result<(), RegistryError>)
        requires
            old(self).wf(),
        ensures
            final(self).wf(),
            final(self)@ == failed(old(self)@, name@),
            has_name(old(self)@, name@) ==> r == Ok::<(), RegistryError>(()),
            !has_name(old(self)@, name@) ==> r == Err::<(), RegistryError>(
                RegistryError::UnknownMetric,
            ),
    {
        match self.find(name) {
            Some(i) => {
                let ghost before = self@;
                let v = self.values[i];
                self.values.set(
                    i,
                    MetricValue {
                        kind: v.kind,
                        value: v.value,
                        populated: v.populated,
                        updated_at: v.updated_at,
                        last_attempt_failed: true,
                    },
                );
                proof {
                    assert(self@ =~= failed(before, name@));
                    assert forall|a: int, b: int| 0 <= a < b < self@.len() implies (#[trigger] self@[a]).0
                        != (#[trigger] self@[b]).0 by {
                        assert(before[a].0 != before[b].0);
                    }
                }
                Ok(())
            },
            None => Err(RegistryError::UnknownMetric),
        }
    }

    /// Copies the whole registry as it stands.
    pub fn snapshot(&self) -> (s: Snapshot)
        requires
            self.wf(),
        ensures
            s@ == self@,
    {
        let mut entries: Vec<SnapshotEntry> = Vec::new();
        let mut i: usize = 0;
        while i < self.names.len()
            invariant
                self.wf(),
                i <= self.names@.len(),
                entries@.len() == i,
                forall|j: int|
                    0 <= j < i ==> (#[trigger] entries@[j]).name@ == self.names@[j]@
                        && entries@[j].value == self.values@[j],
            decreases self.names@.len() - i,
        {
            entries.push(SnapshotEntry { name: self.names[i].clone(), value: self.values[i] });
            i += 1;
        }
        let s = Snapshot { entries };
        assert(s@ =~= self@);
        s
    }
}

} // verus!
