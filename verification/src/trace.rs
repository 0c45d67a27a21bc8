//! What the interpreter remembers of an evaluation: cached values and traces.
use crate::date::Date;
use crate::model::{Period, ScalarValue};
use crate::semantics::{RuleKey, TraceEvent, TraceSkipReason};
use crate::text::{owned, same};
use vstd::prelude::*;

verus! {

/// A rule for an entity over a period.
#[derive(Debug)]
pub struct CacheKey {
    pub derived: String,
    pub entity_id: String,
    pub period: Period,
}

impl CacheKey {
    pub open spec fn view(&self) -> RuleKey {
        RuleKey {
            derived: self.derived@,
            entity_id: self.entity_id@,
            period: self.period@,
        }
    }

    pub fn new(derived: &str, entity_id: &str, period: &Period) -> (r: CacheKey)
        ensures
            r@ == (RuleKey { derived: derived@, entity_id: entity_id@, period: period@ }),
    {
        CacheKey {
            derived: owned(derived),
            entity_id: owned(entity_id),
            period: period.duplicate(),
        }
    }

    pub fn same_key(&self, other: &CacheKey) -> (r: bool)
        ensures
            r == (self@ == other@),
    {
        same(self.derived.as_str(), other.derived.as_str()) && same(
            self.entity_id.as_str(),
            other.entity_id.as_str(),
        ) && self.period.same_period(&other.period)
    }

    pub fn duplicate(&self) -> (r: CacheKey)
        ensures
            r == *self,
    {
        CacheKey {
            derived: self.derived.clone(),
            entity_id: self.entity_id.clone(),
            period: self.period.duplicate(),
        }
    }
}

/// A rule or parameter that was mentioned and not evaluated.
#[allow(inconsistent_fields)]
#[derive(Debug)]
pub enum SkippedTraceDependency {
    Derived { key: CacheKey, reason: TraceSkipReason },
    Parameter { parameter: String, reason: TraceSkipReason },
}

impl SkippedTraceDependency {
    pub open spec fn view(&self) -> TraceEvent {
        match self {
            SkippedTraceDependency::Derived { key, reason } => TraceEvent::SkippedRule {
                key: key@,
                reason: *reason,
            },
            SkippedTraceDependency::Parameter { parameter, reason } => {
                TraceEvent::SkippedParameter { parameter: parameter@, reason: *reason }
            },
        }
    }

    fn same_dependency(&self, other: &SkippedTraceDependency) -> (r: bool)
        ensures
            r == (self@ == other@),
    {
        match (self, other) {
            (
                SkippedTraceDependency::Derived { key: a, reason: x },
                SkippedTraceDependency::Derived { key: b, reason: y },
            ) => a.same_key(b) && *x == *y,
            (
                SkippedTraceDependency::Parameter { parameter: a, reason: x },
                SkippedTraceDependency::Parameter { parameter: b, reason: y },
            ) => same(a.as_str(), b.as_str()) && *x == *y,
            _ => false,
        }
    }
}

/// A parameter value that was read.
#[derive(Debug)]
pub struct ParameterTraceRead {
    pub parameter: String,
    pub index: i64,
    pub value: ScalarValue,
    pub effective_from: Date,
    pub effective_to: Option<Date>,
}

/// Whether two reads are equal; values compare by value.
pub open spec fn same_read(a: TraceEvent, b: TraceEvent) -> bool {
    match (a, b) {
        (
            TraceEvent::Read {
                parameter: pa,
                index: ia,
                value: va,
                effective_from: fa,
                effective_to: ta,
            },
            TraceEvent::Read {
                parameter: pb,
                index: ib,
                value: vb,
                effective_from: fb,
                effective_to: tb,
            },
        ) => pa == pb && ia == ib && va.equals(vb) && fa == fb && ta == tb,
        _ => false,
    }
}

impl ParameterTraceRead {
    pub open spec fn view(&self) -> TraceEvent {
        TraceEvent::Read {
            parameter: self.parameter@,
            index: self.index,
            value: self.value,
            effective_from: self.effective_from,
            effective_to: self.effective_to,
        }
    }

    fn equal_read(&self, other: &ParameterTraceRead) -> (r: bool)
        ensures
            r == same_read(self@, other@),
    {
        let same_end = match (&self.effective_to, &other.effective_to) {
            (Some(a), Some(b)) => a.same_day(b),
            (None, None) => true,
            _ => false,
        };
        same(self.parameter.as_str(), other.parameter.as_str()) && self.index == other.index
            && self.value.equal_to(&other.value) && self.effective_from.same_day(
            &other.effective_from,
        ) && same_end
    }
}

/// The trace of one rule: what it evaluated, what it did not, and the parameter
/// values it read, each once in the order of first occurrence.
#[derive(Debug)]
pub struct NodeExecutionTrace {
    pub dependencies: Vec<CacheKey>,
    pub not_evaluated_dependencies: Vec<SkippedTraceDependency>,
    pub parameter_reads: Vec<ParameterTraceRead>,
}

/// The model of a [`NodeExecutionTrace`].
pub ghost struct TraceView {
    pub dependencies: Seq<RuleKey>,
    pub skipped: Seq<TraceEvent>,
    pub reads: Seq<TraceEvent>,
}

impl TraceView {
    /// Nothing recorded.
    pub open spec fn empty() -> TraceView {
        TraceView { dependencies: Seq::empty(), skipped: Seq::empty(), reads: Seq::empty() }
    }

    /// The trace after one more step; a step that is there already changes nothing.
    pub open spec fn with(self, event: TraceEvent) -> TraceView {
        match event {
            TraceEvent::Dependency(key) => if self.dependencies.contains(key) {
                self
            } else {
                TraceView { dependencies: self.dependencies.push(key), ..self }
            },
            TraceEvent::Read { .. } => if exists|i: int|
                0 <= i < self.reads.len() && same_read(#[trigger] self.reads[i], event) {
                self
            } else {
                TraceView { reads: self.reads.push(event), ..self }
            },
            _ => if self.skipped.contains(event) {
                self
            } else {
                TraceView { skipped: self.skipped.push(event), ..self }
            },
        }
    }

    /// The trace after the steps of `log`.
    pub open spec fn absorb(self, log: Seq<TraceEvent>) -> TraceView
        decreases log.len(),
    {
        if log.len() == 0 {
            self
        } else {
            self.absorb(log.drop_last()).with(log.last())
        }
    }

    /// Absorbing two logs one after the other is absorbing them joined.
    pub proof fn absorb_joined(self, a: Seq<TraceEvent>, b: Seq<TraceEvent>)
        ensures
            self.absorb(a + b) == self.absorb(a).absorb(b),
        decreases b.len(),
    {
        if b.len() == 0 {
            assert(a + b =~= a);
        } else {
            self.absorb_joined(a, b.drop_last());
            assert((a + b).drop_last() =~= a + b.drop_last());
            assert((a + b).last() == b.last());
        }
    }

    /// Absorbing one step is taking it.
    pub proof fn absorb_one(self, event: TraceEvent)
        ensures
            self.absorb(seq![event]) == self.with(event),
    {
        let log = seq![event];
        assert(log.drop_last() =~= Seq::<TraceEvent>::empty());
        assert(self.absorb(log.drop_last()) == self);
    }
}

impl NodeExecutionTrace {
    pub open spec fn view(&self) -> TraceView {
        TraceView {
            dependencies: self.dependencies@.map_values(|k: CacheKey| k@),
            skipped: self.not_evaluated_dependencies@.map_values(
                |d: SkippedTraceDependency| d@,
            ),
            reads: self.parameter_reads@.map_values(|r: ParameterTraceRead| r@),
        }
    }

    pub fn new() -> (r: NodeExecutionTrace)
        ensures
            r@ == TraceView::empty(),
    {
        let r = NodeExecutionTrace {
            dependencies: Vec::new(),
            not_evaluated_dependencies: Vec::new(),
            parameter_reads: Vec::new(),
        };
        assert(r@.dependencies =~= TraceView::empty().dependencies);
        assert(r@.skipped =~= TraceView::empty().skipped);
        assert(r@.reads =~= TraceView::empty().reads);
        r
    }

    pub(crate) fn record_evaluated_dependency(&mut self, key: CacheKey)
        ensures
            final(self)@ == old(self)@.absorb(seq![TraceEvent::Dependency(key@)]),
    {
        proof {
            self@.absorb_one(TraceEvent::Dependency(key@));
        }
        let mut i: usize = 0;
        while i < self.dependencies.len()
            invariant
                i <= self.dependencies@.len(),
                *self == *old(self),
                forall|j: int| 0 <= j < i ==> #[trigger] self@.dependencies[j] != key@,
                old(self)@.absorb(seq![TraceEvent::Dependency(key@)]) == old(self)@.with(
                    TraceEvent::Dependency(key@),
                ),
            decreases self.dependencies@.len() - i,
        {
            assert(self@.dependencies[i as int] == self.dependencies@[i as int]@);
            if self.dependencies[i].same_key(&key) {
                assert(self@.dependencies.contains(key@));
                return ;
            }
            i = i + 1;
        }
        assert(!self@.dependencies.contains(key@));
        self.dependencies.push(key);
        assert(self@.dependencies =~= old(self)@.dependencies.push(key@));
    }

    pub(crate) fn record_skipped_dependency(&mut self, dependency: SkippedTraceDependency)
        ensures
            final(self)@ == old(self)@.absorb(seq![dependency@]),
            final(self)@.dependencies == old(self)@.dependencies,
    {
        proof {
            self@.absorb_one(dependency@);
        }
        let mut i: usize = 0;
        while i < self.not_evaluated_dependencies.len()
            invariant
                i <= self.not_evaluated_dependencies@.len(),
                *self == *old(self),
                forall|j: int| 0 <= j < i ==> #[trigger] self@.skipped[j] != dependency@,
                old(self)@.absorb(seq![dependency@]) == old(self)@.with(dependency@),
            decreases self.not_evaluated_dependencies@.len() - i,
        {
            assert(self@.skipped[i as int] == self.not_evaluated_dependencies@[i as int]@);
            if self.not_evaluated_dependencies[i].same_dependency(&dependency) {
                assert(self@.skipped.contains(dependency@));
                return ;
            }
            i = i + 1;
        }
        assert(!self@.skipped.contains(dependency@));
        self.not_evaluated_dependencies.push(dependency);
        assert(self@.skipped =~= old(self)@.skipped.push(dependency@));
    }

    pub(crate) fn record_parameter_read(&mut self, read: ParameterTraceRead)
        ensures
            final(self)@ == old(self)@.absorb(seq![read@]),
            final(self)@.dependencies == old(self)@.dependencies,
    {
        proof {
            self@.absorb_one(read@);
        }
        let mut i: usize = 0;
        while i < self.parameter_reads.len()
            invariant
                i <= self.parameter_reads@.len(),
                *self == *old(self),
                forall|j: int| 0 <= j < i ==> !same_read(#[trigger] self@.reads[j], read@),
                old(self)@.absorb(seq![read@]) == old(self)@.with(read@),
            decreases self.parameter_reads@.len() - i,
        {
            assert(self@.reads[i as int] == self.parameter_reads@[i as int]@);
            if self.parameter_reads[i].equal_read(&read) {
                assert(same_read(self@.reads[i as int], read@));
                return ;
            }
            i = i + 1;
        }
        self.parameter_reads.push(read);
        assert(self@.reads =~= old(self)@.reads.push(read@));
    }

    pub fn duplicate(&self) -> (r: NodeExecutionTrace)
        ensures
            r@ == self@,
    {
        let mut dependencies: Vec<CacheKey> = Vec::new();
        let mut i: usize = 0;
        while i < self.dependencies.len()
            invariant
                i <= self.dependencies@.len(),
                dependencies@.len() == i,
                forall|j: int|
                    0 <= j < i ==> (#[trigger] dependencies@[j])@ == self.dependencies@[j]@,
            decreases self.dependencies@.len() - i,
        {
            dependencies.push(self.dependencies[i].duplicate());
            i = i + 1;
        }
        let mut skipped: Vec<SkippedTraceDependency> = Vec::new();
        let mut i: usize = 0;
        while i < self.not_evaluated_dependencies.len()
            invariant
                i <= self.not_evaluated_dependencies@.len(),
                skipped@.len() == i,
                forall|j: int|
                    0 <= j < i ==> (#[trigger] skipped@[j])@
                        == self.not_evaluated_dependencies@[j]@,
            decreases self.not_evaluated_dependencies@.len() - i,
        {
            let copy = match &self.not_evaluated_dependencies[i] {
                SkippedTraceDependency::Derived { key, reason } => {
                    SkippedTraceDependency::Derived { key: key.duplicate(), reason: *reason }
                },
                SkippedTraceDependency::Parameter { parameter, reason } => {
                    SkippedTraceDependency::Parameter {
                        parameter: parameter.clone(),
                        reason: *reason,
                    }
                },
            };
            skipped.push(copy);
            i = i + 1;
        }
        let mut reads: Vec<ParameterTraceRead> = Vec::new();
        let mut i: usize = 0;
        while i < self.parameter_reads.len()
            invariant
                i <= self.parameter_reads@.len(),
                reads@.len() == i,
                forall|j: int| 0 <= j < i ==> (#[trigger] reads@[j])@ == self.parameter_reads@[j]@,
            decreases self.parameter_reads@.len() - i,
        {
            let read = &self.parameter_reads[i];
            reads.push(
                ParameterTraceRead {
                    parameter: read.parameter.clone(),
                    index: read.index,
                    value: read.value.duplicate(),
                    effective_from: read.effective_from,
                    effective_to: read.effective_to,
                },
            );
            i = i + 1;
        }
        let r = NodeExecutionTrace {
            dependencies,
            not_evaluated_dependencies: skipped,
            parameter_reads: reads,
        };
        assert(r@.dependencies =~= self@.dependencies);
        assert(r@.skipped =~= self@.skipped);
        assert(r@.reads =~= self@.reads);
        r
    }
}

/// A value remembered for a key.
#[derive(Debug)]
pub struct Entry<V> {
    pub key: CacheKey,
    pub value: V,
}

/// The first index from `from` on whose entry has the key.
pub open spec fn entry_from<V>(entries: Seq<Entry<V>>, key: RuleKey, from: nat) -> Option<nat>
    decreases entries.len() - from,
{
    if from >= entries.len() {
        None
    } else if entries[from as int].key@ == key {
        Some(from)
    } else {
        entry_from(entries, key, from + 1)
    }
}

/// The value remembered for a key.
pub open spec fn entry_at<V>(entries: Seq<Entry<V>>, key: RuleKey) -> Option<V> {
    match entry_from(entries, key, 0) {
        Some(i) => Some(entries[i as int].value),
        None => None,
    }
}

proof fn entry_from_pushed<V>(entries: Seq<Entry<V>>, e: Entry<V>, key: RuleKey, from: nat)
    requires
        from <= entries.len(),
    ensures
        entry_from(entries.push(e), key, from) == match entry_from(entries, key, from) {
            Some(i) => Some(i),
            None => if e.key@ == key {
                Some(entries.len())
            } else {
                None
            },
        },
        entry_from(entries, key, from) matches Some(i) ==> i < entries.len(),
    decreases entries.len() - from,
{
    if from < entries.len() {
        if entries[from as int].key@ != key {
            entry_from_pushed(entries, e, key, from + 1);
        }
    } else {
        assert(entry_from(entries.push(e), key, from + 1) is None);
    }
}

/// Adding an entry leaves what is found for other keys, and for keys that are there.
pub proof fn entry_pushed<V>(entries: Seq<Entry<V>>, e: Entry<V>)
    ensures
        forall|key: RuleKey| #[trigger]
            entry_at(entries.push(e), key) == match entry_at(entries, key) {
                Some(v) => Some(v),
                None => if e.key@ == key {
                    Some(e.value)
                } else {
                    None
                },
            },
{
    assert forall|key: RuleKey| #[trigger] entry_at(entries.push(e), key) == match entry_at(
        entries,
        key,
    ) {
        Some(v) => Some(v),
        None => if e.key@ == key {
            Some(e.value)
        } else {
            None
        },
    } by {
        entry_from_pushed(entries, e, key, 0);
    }
}

proof fn entry_from_replaced<V>(
    entries: Seq<Entry<V>>,
    at: nat,
    e: Entry<V>,
    key: RuleKey,
    from: nat,
)
    requires
        at < entries.len(),
        e.key@ == entries[at as int].key@,
    ensures
        entry_from(entries.update(at as int, e), key, from) == entry_from(entries, key, from),
    decreases entries.len() - from,
{
    if from < entries.len() {
        entry_from_replaced(entries, at, e, key, from + 1);
    }
}

/// The index of the entry of a key.
pub(crate) fn find_entry<V>(entries: &Vec<Entry<V>>, key: &CacheKey) -> (r: Option<usize>)
    ensures
        entry_from(entries@, key@, 0) == match r {
            Some(i) => Some(i as nat),
            None => None,
        },
        r matches Some(i) ==> i < entries@.len() && entries@[i as int].key@ == key@,
{
    let mut i: usize = 0;
    while i < entries.len()
        invariant
            i <= entries@.len(),
            entry_from(entries@, key@, 0) == entry_from(entries@, key@, i as nat),
        decreases entries@.len() - i,
    {
        if entries[i].key.same_key(key) {
            return Some(i);
        }
        i = i + 1;
    }
    None
}

/// Remembers a value for a key, in place of the one that is there.
pub(crate) fn set_entry<V>(entries: &mut Vec<Entry<V>>, key: CacheKey, value: V)
    ensures
        forall|k: RuleKey| #[trigger]
            entry_at(final(entries)@, k) == if k == key@ {
                Some(value)
            } else {
                entry_at(old(entries)@, k)
            },
{
    let ghost before = entries@;
    match find_entry(entries, &key) {
        Some(i) => {
            let ghost e = Entry { key, value };
            entries[i] = Entry { key, value };
            proof {
                assert(entries@ =~= before.update(i as int, e));
                assert forall|k: RuleKey| #[trigger] entry_at(entries@, k) == if k == key@ {
                    Some(value)
                } else {
                    entry_at(before, k)
                } by {
                    entry_from_replaced(before, i as nat, e, k, 0);
                    if k != key@ {
                        entry_from_meaning(before, k, 0);
                    }
                }
            }
        },
        None => {
            let ghost e = Entry { key, value };
            entries.push(Entry { key, value });
            proof {
                entry_pushed(before, e);
            }
        },
    }
}

pub proof fn entry_from_meaning<V>(entries: Seq<Entry<V>>, key: RuleKey, from: nat)
    ensures
        entry_from(entries, key, from) matches Some(i) ==> from <= i < entries.len()
            && entries[i as int].key@ == key,
    decreases entries.len() - from,
{
    if from < entries.len() && entries[from as int].key@ != key {
        entry_from_meaning(entries, key, from + 1);
    }
}

} // verus!
