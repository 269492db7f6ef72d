//! The registry of live contexts whose stored DD version differs from the
//! HLI's, and of the pulse contexts those are opened under.
//!
//! Context ids come from one shared live namespace, so an id identifies at
//! most one live record: recording under a recycled id replaces whatever
//! used it before, and removing an id affects no other. A root record is
//! its own root; a child record takes its pulse, its conversion map, its
//! root and both versions from its live parent, and names that parent. A
//! pulse context carries the stored versions already found to mismatch for
//! the occurrences opened under it. Each root owns one loss log, which its
//! children's losses reach as well and which ends with the root.
//!
//! The conversion map a record resolves through is held as `M`, a shared
//! handle the caller provides; the registry only hands out clones of it.
use vstd::prelude::*;

use crate::conversion_map::{Direction, Fidelity};
use crate::dd_version::{DdVersion, DdVersionView};
use crate::loss::{
    fidelity_c_code, fidelity_code, law_only_non_exact_operations_are_retained, operation_code, retained, LossLog, LossOperation, LossView,
};
use crate::text::owned;
use vstd::utf8::encode_utf8;
use crate::text::str_eq;

verus! {

broadcast use vstd::std_specs::hash::group_hash_axioms;

/// A context id, as passed across the ABI.
pub type ContextId = i32;

/// The `(IDS name, stored DD version, HLI DD version)` a shared conversion
/// map is kept under.
#[derive(Debug, Clone, PartialEq, Eq, Hash)]
pub struct MapCacheKey {
    pub ids: String,
    pub stored_version: DdVersion,
    pub hli_version: DdVersion,
}

impl MapCacheKey {
    pub fn new(ids: String, stored_version: DdVersion, hli_version: DdVersion) -> (r: MapCacheKey)
        ensures
            r.ids@ == ids@,
            r.stored_version@ == stored_version@,
            r.hli_version@ == hli_version@,
    {
        MapCacheKey { ids, stored_version, hli_version }
    }

    /// Whether the two versions differ, so that conversion applies.
    pub fn needs_conversion(&self) -> (r: bool)
        ensures
            r == (self.stored_version@ != self.hli_version@),
    {
        !self.stored_version.same_as(&self.hli_version)
    }
}

/// A live conversion-eligible context: a root or a child.
#[derive(Debug)]
pub struct ConversionRecord<M> {
    /// The path this context resolves to, in the HLI's own DD spelling.
    pub resolved_path: String,
    /// The pulse context this record's occurrence belongs to.
    pub pulse_ctx_id: ContextId,
    /// The conversion map this record resolves through.
    pub map: M,
    /// The record's root; a root's own id.
    pub root_id: ContextId,
    /// The direction that takes an HLI spelling to the stored spelling.
    pub direction_to_stored: Direction,
    pub stored_version: DdVersion,
    pub hli_version: DdVersion,
    /// The direct parent, or `None` for a root.
    pub parent_id: Option<ContextId>,
}

/// The value of a [`ConversionRecord`].
pub struct RecordView<M> {
    pub resolved_path: Seq<char>,
    pub pulse_ctx_id: ContextId,
    pub map: M,
    pub root_id: ContextId,
    pub direction_to_stored: Direction,
    pub stored_version: DdVersionView,
    pub hli_version: DdVersionView,
    pub parent_id: Option<ContextId>,
}

pub open spec fn record_view<M>(r: ConversionRecord<M>) -> RecordView<M> {
    RecordView {
        resolved_path: r.resolved_path@,
        pulse_ctx_id: r.pulse_ctx_id,
        map: r.map,
        root_id: r.root_id,
        direction_to_stored: r.direction_to_stored,
        stored_version: r.stored_version@,
        hli_version: r.hli_version@,
        parent_id: r.parent_id,
    }
}

/// Two records agree on everything, the map handle being a clone.
pub open spec fn same_record<M: Clone>(a: RecordView<M>, b: RecordView<M>) -> bool {
    &&& a.resolved_path == b.resolved_path
    &&& a.pulse_ctx_id == b.pulse_ctx_id
    &&& cloned::<M>(a.map, b.map)
    &&& a.root_id == b.root_id
    &&& a.direction_to_stored == b.direction_to_stored
    &&& a.stored_version == b.stored_version
    &&& a.hli_version == b.hli_version
    &&& a.parent_id == b.parent_id
}

/// One entry of the shared id namespace.
#[derive(Debug)]
pub enum Entry<M> {
    /// A pulse context and the mismatched versions found under it, by
    /// data-object name.
    DataEntry(Vec<(String, DdVersion)>),
    /// A conversion-eligible context.
    Conversion(ConversionRecord<M>),
}

/// The value of an [`Entry`].
pub enum EntryView<M> {
    DataEntry(Map<Seq<char>, DdVersionView>),
    Conversion(RecordView<M>),
}

/// The versions a pulse context remembers, by data-object name; a later
/// pair for one name shadows an earlier one.
pub open spec fn known_view(v: Seq<(String, DdVersion)>) -> Map<Seq<char>, DdVersionView>
    decreases v.len(),
{
    if v.len() == 0 {
        Map::empty()
    } else {
        known_view(v.drop_last()).insert(v.last().0@, v.last().1@)
    }
}

pub open spec fn entry_view<M>(e: Entry<M>) -> EntryView<M> {
    match e {
        Entry::DataEntry(known) => EntryView::DataEntry(known_view(known@)),
        Entry::Conversion(r) => EntryView::Conversion(record_view(r)),
    }
}

/// The value of a registry: its entries and its loss logs, by id.
pub struct RegistryView<M> {
    pub entries: Map<ContextId, EntryView<M>>,
    pub logs: Map<ContextId, Seq<LossView>>,
}

/// The catalogue of live contexts.
#[derive(Debug)]
pub struct ContextRegistry<M> {
    entries: std::collections::HashMap<ContextId, Entry<M>>,
    loss_logs: std::collections::HashMap<ContextId, LossLog>,
}

impl<M> View for ContextRegistry<M> {
    type V = RegistryView<M>;

    closed spec fn view(&self) -> RegistryView<M> {
        RegistryView {
            entries: self.entries@.map_values(|e: Entry<M>| entry_view(e)),
            logs: self.loss_logs@.map_values(|l: LossLog| l@),
        }
    }
}

/// What a lookup of `ctx` finds: the conversion record there, if any.
pub open spec fn record_at<M>(v: RegistryView<M>, ctx: ContextId) -> Option<RecordView<M>> {
    if v.entries.contains_key(ctx) {
        match v.entries[ctx] {
            EntryView::Conversion(r) => Some(r),
            EntryView::DataEntry(_) => None,
        }
    } else {
        None
    }
}

/// The loss log `ctx`'s root owns, if `ctx` names a live record whose root
/// still has one.
pub open spec fn log_of<M>(v: RegistryView<M>, ctx: ContextId) -> Option<Seq<LossView>> {
    match record_at(v, ctx) {
        Some(r) => if v.logs.contains_key(r.root_id) {
            Some(v.logs[r.root_id])
        } else {
            None
        },
        None => None,
    }
}

/// What the live pulse context `ctx` remembers, if `ctx` names one.
pub open spec fn known_at<M>(v: RegistryView<M>, ctx: ContextId) -> Option<Map<Seq<char>, DdVersionView>> {
    if v.entries.contains_key(ctx) {
        match v.entries[ctx] {
            EntryView::DataEntry(known) => Some(known),
            EntryView::Conversion(_) => None,
        }
    } else {
        None
    }
}

/// The registry after a loss is retained on root `root`'s log.
pub open spec fn with_loss<M>(
    v: RegistryView<M>,
    root: ContextId,
    dd_path: Seq<char>,
    fidelity: Fidelity,
    operation: LossOperation,
) -> RegistryView<M> {
    RegistryView {
        entries: v.entries,
        logs: if v.logs.contains_key(root) {
            v.logs.insert(root, retained(v.logs[root], dd_path, fidelity, operation))
        } else {
            v.logs
        },
    }
}

/// The registry with `ctx` and its log removed.
pub open spec fn removed<M>(v: RegistryView<M>, ctx: ContextId) -> RegistryView<M> {
    RegistryView { entries: v.entries.remove(ctx), logs: v.logs.remove(ctx) }
}

impl<M: Clone> ContextRegistry<M> {
    /// An empty registry.
    pub fn new() -> (r: ContextRegistry<M>)
        ensures
            r@.entries == Map::<ContextId, EntryView<M>>::empty(),
            r@.logs == Map::<ContextId, Seq<LossView>>::empty(),
    {
        let r = ContextRegistry {
            entries: std::collections::HashMap::new(),
            loss_logs: std::collections::HashMap::new(),
        };
        assert(r@.entries =~= Map::<ContextId, EntryView<M>>::empty());
        assert(r@.logs =~= Map::<ContextId, Seq<LossView>>::empty());
        r
    }

    /// Records `ctx_id` as a pulse context with nothing remembered,
    /// replacing whatever lived there.
    pub fn record_dataentry(&mut self, ctx_id: ContextId)
        ensures
            final(self)@.entries == old(self)@.entries.insert(
                ctx_id,
                EntryView::DataEntry(Map::empty()),
            ),
            final(self)@.logs == old(self)@.logs.remove(ctx_id),
    {
        let ghost before = self@;
        self.entries.insert(ctx_id, Entry::DataEntry(Vec::new()));
        self.loss_logs.remove(&ctx_id);
        assert(self@.entries =~= before.entries.insert(ctx_id, EntryView::DataEntry(Map::empty())));
        assert(self@.logs =~= before.logs.remove(ctx_id));
    }

    /// Removes exactly the record at `ctx_id` and its log, if any.
    pub fn remove(&mut self, ctx_id: ContextId)
        ensures
            final(self)@ == removed(old(self)@, ctx_id),
    {
        let ghost before = self@;
        self.entries.remove(&ctx_id);
        self.loss_logs.remove(&ctx_id);
        assert(self@.entries =~= before.entries.remove(ctx_id));
        assert(self@.logs =~= before.logs.remove(ctx_id));
    }

    /// Records `ctx_id` as a root when the two versions of `key` differ,
    /// with a map obtained from `obtain_map`, an empty loss log and itself
    /// as its root, replacing whatever lived there. For matching versions
    /// the map is never obtained: any record at `ctx_id` is removed and the
    /// answer is `false`.
    pub fn record_root<F: FnOnce() -> M>(
        &mut self,
        ctx_id: ContextId,
        resolved_path: String,
        pulse_ctx_id: ContextId,
        key: MapCacheKey,
        direction_to_stored: Direction,
        obtain_map: F,
    ) -> (recorded: bool)
        requires
            key.stored_version@ != key.hli_version@ ==> call_requires(obtain_map, ()),
        ensures
            recorded == (key.stored_version@ != key.hli_version@),
            !recorded ==> final(self)@ == removed(old(self)@, ctx_id),
            recorded ==> exists|map: M|
                call_ensures(obtain_map, (), map) && final(self)@.entries == old(self)@.entries.insert(
                    ctx_id,
                    EntryView::Conversion(
                        RecordView {
                            resolved_path: resolved_path@,
                            pulse_ctx_id,
                            map,
                            root_id: ctx_id,
                            direction_to_stored,
                            stored_version: key.stored_version@,
                            hli_version: key.hli_version@,
                            parent_id: None,
                        },
                    ),
                ),
            recorded ==> final(self)@.logs == old(self)@.logs.insert(ctx_id, Seq::empty()),
    {
        if !key.needs_conversion() {
            self.remove(ctx_id);
            return false;
        }
        let ghost before = self@;
        let map = obtain_map();
        let ghost map_value = map;
        let MapCacheKey { ids: _, stored_version, hli_version } = key;
        let record = ConversionRecord {
            resolved_path,
            pulse_ctx_id,
            map,
            root_id: ctx_id,
            direction_to_stored,
            stored_version,
            hli_version,
            parent_id: None,
        };
        self.entries.insert(ctx_id, Entry::Conversion(record));
        self.loss_logs.insert(ctx_id, LossLog::new());
        assert(self@.logs =~= before.logs.insert(ctx_id, Seq::empty()));
        assert(self@.entries =~= before.entries.insert(
            ctx_id,
            EntryView::Conversion(
                RecordView {
                    resolved_path: resolved_path@,
                    pulse_ctx_id,
                    map: map_value,
                    root_id: ctx_id,
                    direction_to_stored,
                    stored_version: stored_version@,
                    hli_version: hli_version@,
                    parent_id: None,
                },
            ),
        ));
        true
    }

    /// A copy of the live conversion record at `ctx_id`, if any.
    pub fn lookup(&self, ctx_id: ContextId) -> (r: Option<ConversionRecord<M>>)
        ensures
            match (r, record_at(self@, ctx_id)) {
                (Some(x), Some(y)) => same_record(y, record_view(x)),
                (None, None) => true,
                _ => false,
            },
    {
        match self.entries.get(&ctx_id) {
            Some(Entry::Conversion(record)) => Some(copy_record(record)),
            _ => None,
        }
    }

    /// Records `ctx_id` as a child of the live conversion record at
    /// `parent_ctx_id`, inheriting its pulse, map, root and versions,
    /// replacing whatever lived at `ctx_id`. When the parent is no live
    /// conversion record, any record at `ctx_id` is removed instead and the
    /// answer is `false`.
    pub fn record_child(&mut self, ctx_id: ContextId, parent_ctx_id: ContextId, resolved_path: String) -> (recorded:
        bool)
        ensures
            recorded == record_at(old(self)@, parent_ctx_id) is Some,
            !recorded ==> final(self)@ == removed(old(self)@, ctx_id),
            recorded ==> {
                let p = record_at(old(self)@, parent_ctx_id)->0;
                &&& final(self)@.logs == old(self)@.logs.remove(ctx_id)
                &&& final(self)@.entries.dom() == old(self)@.entries.dom().insert(ctx_id)
                &&& forall|k: ContextId| k != ctx_id && #[trigger] old(self)@.entries.contains_key(k)
                    ==> final(self)@.entries[k] == old(self)@.entries[k]
                &&& final(self)@.entries[ctx_id] matches EntryView::Conversion(c) && {
                    &&& c.resolved_path == resolved_path@
                    &&& c.pulse_ctx_id == p.pulse_ctx_id
                    &&& cloned::<M>(p.map, c.map)
                    &&& c.root_id == p.root_id
                    &&& c.direction_to_stored == p.direction_to_stored
                    &&& c.stored_version == p.stored_version
                    &&& c.hli_version == p.hli_version
                    &&& c.parent_id == Some(parent_ctx_id)
                }
            },
    {
        let ghost before = self@;
        let parent = match self.entries.get(&parent_ctx_id) {
            Some(Entry::Conversion(record)) => copy_record(record),
            _ => {
                self.remove(ctx_id);
                return false;
            },
        };
        self.loss_logs.remove(&ctx_id);
        let child = ConversionRecord {
            resolved_path,
            pulse_ctx_id: parent.pulse_ctx_id,
            map: parent.map,
            root_id: parent.root_id,
            direction_to_stored: parent.direction_to_stored,
            stored_version: parent.stored_version,
            hli_version: parent.hli_version,
            parent_id: Some(parent_ctx_id),
        };
        self.entries.insert(ctx_id, Entry::Conversion(child));
        assert(self@.logs =~= before.logs.remove(ctx_id));
        assert(self@.entries.dom() =~= before.entries.dom().insert(ctx_id));
        true
    }

    /// `ctx_id` itself, when it names a live pulse context.
    pub fn pulse_ctx_id(&self, ctx_id: ContextId) -> (r: Option<ContextId>)
        ensures
            r == (if self@.entries.contains_key(ctx_id) && self@.entries[ctx_id] is DataEntry {
                Some(ctx_id)
            } else {
                None
            }),
    {
        match self.entries.get(&ctx_id) {
            Some(Entry::DataEntry(_)) => Some(ctx_id),
            _ => None,
        }
    }

    /// The mismatched stored version remembered for `dataobjectname` under
    /// the live pulse context `pulse_ctx_id`, if any.
    pub fn known_stored_version(&self, pulse_ctx_id: ContextId, dataobjectname: &str) -> (r: Option<
        DdVersion,
    >)
        ensures
            match (r, known_at(self@, pulse_ctx_id)) {
                (Some(v), Some(known)) => known.contains_key(dataobjectname@) && known[dataobjectname@]
                    == v@,
                (Some(_), None) => false,
                (None, Some(known)) => !known.contains_key(dataobjectname@),
                (None, None) => true,
            },
    {
        match self.entries.get(&pulse_ctx_id) {
            Some(Entry::DataEntry(known)) => lookup_known(known, dataobjectname),
            _ => None,
        }
    }

    /// Remembers that `dataobjectname` under the live pulse context
    /// `pulse_ctx_id` is stored at `version`; nothing changes if
    /// `pulse_ctx_id` names no live pulse context.
    pub fn remember_mismatched_occurrence(
        &mut self,
        pulse_ctx_id: ContextId,
        dataobjectname: String,
        version: DdVersion,
    )
        ensures
            final(self)@.logs == old(self)@.logs,
            match (if old(self)@.entries.contains_key(pulse_ctx_id) {
                Some(old(self)@.entries[pulse_ctx_id])
            } else {
                None
            }) {
                Some(EntryView::DataEntry(known)) => final(self)@.entries == old(self)@.entries.insert(
                    pulse_ctx_id,
                    EntryView::DataEntry(known.insert(dataobjectname@, version@)),
                ),
                _ => final(self)@.entries == old(self)@.entries,
            },
    {
        let ghost before = self@;
        match self.entries.remove(&pulse_ctx_id) {
            Some(Entry::DataEntry(mut known)) => {
                let ghost kv = known@;
                known.push((dataobjectname, version));
                assert(known@.drop_last() =~= kv);
                self.entries.insert(pulse_ctx_id, Entry::DataEntry(known));
                assert(self@.entries =~= before.entries.insert(
                    pulse_ctx_id,
                    EntryView::DataEntry(known_view(kv).insert(known@.last().0@, known@.last().1@)),
                ));
            },
            Some(other) => {
                self.entries.insert(pulse_ctx_id, other);
                assert(self@.entries =~= before.entries);
            },
            None => {
                assert(self@.entries =~= before.entries);
            },
        }
    }

    /// Forgets the version remembered for `dataobjectname` under the live
    /// pulse context `pulse_ctx_id`; nothing changes if there is none.
    pub fn forget_occurrence_version(&mut self, pulse_ctx_id: ContextId, dataobjectname: &str)
        ensures
            final(self)@.logs == old(self)@.logs,
            match (if old(self)@.entries.contains_key(pulse_ctx_id) {
                Some(old(self)@.entries[pulse_ctx_id])
            } else {
                None
            }) {
                Some(EntryView::DataEntry(known)) => final(self)@.entries == old(self)@.entries.insert(
                    pulse_ctx_id,
                    EntryView::DataEntry(known.remove(dataobjectname@)),
                ),
                _ => final(self)@.entries == old(self)@.entries,
            },
    {
        let ghost before = self@;
        match self.entries.remove(&pulse_ctx_id) {
            Some(Entry::DataEntry(known)) => {
                let kept = without_name(known, dataobjectname);
                self.entries.insert(pulse_ctx_id, Entry::DataEntry(kept));
                assert(self@.entries =~= before.entries.insert(
                    pulse_ctx_id,
                    EntryView::DataEntry(known_view(kept@)),
                ));
            },
            Some(other) => {
                self.entries.insert(pulse_ctx_id, other);
                assert(self@.entries =~= before.entries);
            },
            None => {
                assert(self@.entries =~= before.entries);
            },
        }
    }

    /// Retains a loss on the log of root `root_id`, captured before the
    /// seam ran: nothing is retained if that root has ended, and an exact
    /// operation is never retained.
    pub fn retain_loss_at_root(
        &mut self,
        root_id: ContextId,
        dd_path: String,
        fidelity: Fidelity,
        operation: LossOperation,
    )
        ensures
            final(self)@ == with_loss(old(self)@, root_id, dd_path@, fidelity, operation),
    {
        let ghost before = self@;
        match self.loss_logs.remove(&root_id) {
            Some(mut log) => {
                log.retain(dd_path, fidelity, operation);
                self.loss_logs.insert(root_id, log);
                assert(self@.logs =~= before.logs.insert(
                    root_id,
                    retained(before.logs[root_id], dd_path@, fidelity, operation),
                ));
            },
            None => {
                assert(self@.logs =~= before.logs);
            },
        }
        assert(self@.entries =~= before.entries);
    }

    /// The number of losses on `ctx_id`'s root log; zero when `ctx_id`
    /// names no live record or its root has ended.
    pub fn loss_count(&self, ctx_id: ContextId) -> (r: usize)
        ensures
            r == match log_of(self@, ctx_id) {
                Some(l) => l.len(),
                None => 0,
            },
    {
        match self.entries.get(&ctx_id) {
            Some(Entry::Conversion(record)) => match self.loss_logs.get(&record.root_id) {
                Some(log) => log.len(),
                None => 0,
            },
            _ => 0,
        }
    }

    /// The `index`-th loss on `ctx_id`'s root log, in the order retained.
    pub fn loss_at(&self, ctx_id: ContextId, index: usize) -> (r: Option<(&str, Fidelity, LossOperation)>)
        ensures
            match r {
                Some((p, f, o)) => log_of(self@, ctx_id) matches Some(l) && index < l.len() && l[index as int]
                    == (p@, f, o) && f != Fidelity::Exact,
                None => !(log_of(self@, ctx_id) matches Some(l) && index < l.len()),
            },
    {
        match self.entries.get(&ctx_id) {
            Some(Entry::Conversion(record)) => match self.loss_logs.get(&record.root_id) {
                Some(log) => log.entry_at(index),
                None => None,
            },
            _ => None,
        }
    }
}

/// A copy of `record`, the map handle cloned.
fn copy_record<M: Clone>(record: &ConversionRecord<M>) -> (r: ConversionRecord<M>)
    ensures
        same_record(record_view(*record), record_view(r)),
{
    ConversionRecord {
        resolved_path: record.resolved_path.clone(),
        pulse_ctx_id: record.pulse_ctx_id,
        map: record.map.clone(),
        root_id: record.root_id,
        direction_to_stored: record.direction_to_stored,
        stored_version: record.stored_version.duplicate(),
        hli_version: record.hli_version.duplicate(),
        parent_id: record.parent_id,
    }
}

proof fn lemma_known_step(known: Seq<(String, DdVersion)>, i: int)
    requires
        0 <= i < known.len(),
    ensures
        known_view(known.subrange(0, i + 1)) == known_view(known.subrange(0, i)).insert(
            known[i].0@,
            known[i].1@,
        ),
{
    assert(known.subrange(0, i + 1).drop_last() =~= known.subrange(0, i));
}

/// The version remembered for `name`: the last pair naming it.
fn lookup_known(known: &Vec<(String, DdVersion)>, name: &str) -> (r: Option<DdVersion>)
    ensures
        match r {
            Some(v) => known_view(known@).contains_key(name@) && known_view(known@)[name@] == v@,
            None => !known_view(known@).contains_key(name@),
        },
{
    let mut found: Option<usize> = None;
    let mut i: usize = 0;
    assert(known@.subrange(0, 0) =~= Seq::<(String, DdVersion)>::empty());
    while i < known.len()
        invariant
            i <= known@.len(),
            match found {
                Some(j) => j < i && known_view(known@.subrange(0, i as int)).contains_key(name@)
                    && known_view(known@.subrange(0, i as int))[name@] == known@[j as int].1@,
                None => !known_view(known@.subrange(0, i as int)).contains_key(name@),
            },
        decreases known@.len() - i,
    {
        proof {
            lemma_known_step(known@, i as int);
        }
        if str_eq(known[i].0.as_str(), name) {
            found = Some(i);
        }
        i = i + 1;
    }
    assert(known@.subrange(0, known@.len() as int) =~= known@);
    match found {
        Some(j) => Some(known[j].1.duplicate()),
        None => None,
    }
}

/// `known` without any pair naming `name`.
fn without_name(known: Vec<(String, DdVersion)>, name: &str) -> (r: Vec<(String, DdVersion)>)
    ensures
        known_view(r@) == known_view(known@).remove(name@),
{
    let mut kept: Vec<(String, DdVersion)> = Vec::new();
    let mut i: usize = 0;
    assert(known@.subrange(0, 0) =~= Seq::<(String, DdVersion)>::empty());
    assert(known_view(kept@) =~= known_view(known@.subrange(0, 0)).remove(name@));
    while i < known.len()
        invariant
            i <= known@.len(),
            known_view(kept@) == known_view(known@.subrange(0, i as int)).remove(name@),
        decreases known@.len() - i,
    {
        proof {
            lemma_known_step(known@, i as int);
        }
        let ghost before = kept@;
        if !str_eq(known[i].0.as_str(), name) {
            let pair = (known[i].0.clone(), known[i].1.duplicate());
            kept.push(pair);
            assert(kept@.drop_last() =~= before);
            assert(known_view(kept@) =~= known_view(known@.subrange(0, i as int + 1)).remove(name@));
        } else {
            assert(known_view(kept@) =~= known_view(known@.subrange(0, i as int + 1)).remove(name@));
        }
        i = i + 1;
    }
    assert(known@.subrange(0, known@.len() as int) =~= known@);
    kept
}

// ---------------------------------------------------------------------------
// Laws
// ---------------------------------------------------------------------------

/// Removing one context never affects another: every other id keeps its
/// record, its pulse memory and its loss log.
pub proof fn law_remove_affects_only_that_id<M>(v: RegistryView<M>, ctx: ContextId, other: ContextId)
    requires
        ctx != other,
    ensures
        record_at(removed(v, ctx), other) == record_at(v, other),
        known_at(removed(v, ctx), other) == known_at(v, other),
        removed(v, ctx).logs.contains_key(other) == v.logs.contains_key(other),
        v.logs.contains_key(other) ==> removed(v, ctx).logs[other] == v.logs[other],
        record_at(removed(v, ctx), ctx) is None,
        known_at(removed(v, ctx), ctx) is None,
{
}

/// A loss retained on a root is seen through every live context whose
/// record names that root: a child's losses and its root's are one log.
pub proof fn law_losses_reach_the_root_log<M>(
    v: RegistryView<M>,
    ctx: ContextId,
    dd_path: Seq<char>,
    fidelity: Fidelity,
    operation: LossOperation,
)
    requires
        record_at(v, ctx) is Some,
        log_of(v, ctx) is Some,
    ensures
        log_of(with_loss(v, record_at(v, ctx)->0.root_id, dd_path, fidelity, operation), ctx)
            == Some(retained(log_of(v, ctx)->0, dd_path, fidelity, operation)),
{
}

/// A root's loss log ends with the root: once the root is removed, no
/// context that named it reports a log any more, and a loss retained for it
/// afterwards is dropped.
pub proof fn law_loss_log_ends_with_its_root<M>(
    v: RegistryView<M>,
    root: ContextId,
    ctx: ContextId,
    dd_path: Seq<char>,
    fidelity: Fidelity,
    operation: LossOperation,
)
    requires
        record_at(v, ctx) matches Some(r) && r.root_id == root,
        ctx != root,
    ensures
        log_of(removed(v, root), ctx) is None,
        with_loss(removed(v, root), root, dd_path, fidelity, operation) == removed(v, root),
{
}

/// The registry after the losses of `history` are retained, in order, at
/// root `root`.
pub open spec fn with_losses<M>(
    v: RegistryView<M>,
    root: ContextId,
    history: Seq<(Seq<char>, Fidelity, LossOperation)>,
) -> RegistryView<M>
    decreases history.len(),
{
    if history.len() == 0 {
        v
    } else {
        let last = history.last();
        with_loss(with_losses(v, root, history.drop_last()), root, last.0, last.1, last.2)
    }
}

/// How many losses of `history` are not exact.
pub open spec fn non_exact_count(history: Seq<(Seq<char>, Fidelity, LossOperation)>) -> nat
    decreases history.len(),
{
    if history.len() == 0 {
        0
    } else {
        non_exact_count(history.drop_last()) + if history.last().1 == Fidelity::Exact {
            0nat
        } else {
            1nat
        }
    }
}

/// Over any history of losses retained at one root, the count every
/// context sharing that root's log reports grows by exactly the number of
/// losses that were not exact, so a freshly recorded root reports exactly
/// that number through itself and through each of its children; a context
/// with no live record reports nothing, and no other root's log changes.
pub proof fn law_loss_count_follows_the_history<M>(
    v: RegistryView<M>,
    root: ContextId,
    ctx: ContextId,
    other: ContextId,
    history: Seq<(Seq<char>, Fidelity, LossOperation)>,
)
    ensures
        with_losses(v, root, history).entries == v.entries,
        record_at(v, ctx) matches Some(r) && r.root_id == root && v.logs.contains_key(root) ==> (
        log_of(with_losses(v, root, history), ctx) matches Some(l) && l.len() == v.logs[root].len()
            + non_exact_count(history)),
        record_at(v, ctx) matches Some(r) && r.root_id == root && log_of(v, ctx) == Some(
            Seq::<LossView>::empty(),
        ) ==> (log_of(with_losses(v, root, history), ctx) matches Some(l) && l.len()
            == non_exact_count(history)),
        record_at(v, ctx) is None ==> log_of(with_losses(v, root, history), ctx) is None,
        other != root ==> with_losses(v, root, history).logs.contains_key(other) == v.logs.contains_key(
            other,
        ),
        other != root && v.logs.contains_key(other) ==> with_losses(v, root, history).logs[other]
            == v.logs[other],
    decreases history.len(),
{
    if history.len() > 0 {
        law_loss_count_follows_the_history(v, root, ctx, other, history.drop_last());
        let w = with_losses(v, root, history.drop_last());
        let last = history.last();
        law_only_non_exact_operations_are_retained(w.logs[root], last.0, last.1, last.2);
    }
}

// ---------------------------------------------------------------------------
// Copying a loss out to a caller
// ---------------------------------------------------------------------------

/// What copying the `index`-th loss of `ctx_id`'s root log into a caller
/// buffer of `buf_len` bytes gives: the path and its verdict code, or why
/// the copy refuses. The path needs room for its bytes and a trailing NUL.
pub open spec fn loss_copy_spec<M>(v: RegistryView<M>, ctx_id: ContextId, index: i32, buf_len: i32) -> Result<
    (Seq<char>, i32),
    Seq<char>,
> {
    if index < 0 {
        Err("imas_mvdd_context_loss_at index must not be negative"@)
    } else if buf_len < 0 {
        Err("imas_mvdd_context_loss_at buffer length must not be negative"@)
    } else {
        match log_of(v, ctx_id) {
            Some(l) => if index < l.len() {
                let (p, f, _) = l[index as int];
                if encode_utf8(p).len() >= buf_len {
                    Err("imas_mvdd_context_loss_at buffer is too small for this path"@)
                } else {
                    Ok((p, fidelity_code(f)))
                }
            } else {
                Err("imas_mvdd_context_loss_at index is out of range for this context"@)
            },
            None => Err("imas_mvdd_context_loss_at index is out of range for this context"@),
        }
    }
}

/// Copies the `index`-th loss of `ctx_id`'s root log out for a caller
/// whose path buffer holds `buf_len` bytes.
pub fn context_loss_at<M: Clone>(registry: &ContextRegistry<M>, ctx_id: ContextId, index: i32, buf_len: i32) -> (r:
    Result<(String, i32), &'static str>)
    ensures
        match loss_copy_spec(registry@, ctx_id, index, buf_len) {
            Ok((p, c)) => r matches Ok((s, d)) && s@ == p && d == c,
            Err(m) => r matches Err(e) && e@ == m,
        },
{
    if index < 0 {
        return Err("imas_mvdd_context_loss_at index must not be negative");
    }
    if buf_len < 0 {
        return Err("imas_mvdd_context_loss_at buffer length must not be negative");
    }
    match registry.loss_at(ctx_id, index as usize) {
        None => Err("imas_mvdd_context_loss_at index is out of range for this context"),
        Some((path, fidelity, _)) => {
            if path.as_bytes().len() >= buf_len as usize {
                Err("imas_mvdd_context_loss_at buffer is too small for this path")
            } else {
                Ok((owned(path), fidelity_c_code(fidelity)))
            }
        },
    }
}

/// What reporting the operation of the `index`-th loss of `ctx_id`'s root
/// log gives: its operation code, or why the report refuses.
pub open spec fn loss_operation_spec<M>(v: RegistryView<M>, ctx_id: ContextId, index: i32) -> Result<
    i32,
    Seq<char>,
> {
    if index < 0 {
        Err("imas_mvdd_context_loss_operation_at index must not be negative"@)
    } else {
        match log_of(v, ctx_id) {
            Some(l) => if index < l.len() {
                Ok(operation_code(l[index as int].2))
            } else {
                Err("imas_mvdd_context_loss_operation_at index is out of range for this context"@)
            },
            None => Err("imas_mvdd_context_loss_operation_at index is out of range for this context"@),
        }
    }
}

/// Reports which operation earned the `index`-th loss of `ctx_id`'s root
/// log.
pub fn context_loss_operation_at<M: Clone>(registry: &ContextRegistry<M>, ctx_id: ContextId, index: i32) -> (r:
    Result<i32, &'static str>)
    ensures
        match loss_operation_spec(registry@, ctx_id, index) {
            Ok(c) => r == Ok::<i32, &'static str>(c),
            Err(m) => r matches Err(e) && e@ == m,
        },
{
    if index < 0 {
        return Err("imas_mvdd_context_loss_operation_at index must not be negative");
    }
    match registry.loss_at(ctx_id, index as usize) {
        None => Err("imas_mvdd_context_loss_operation_at index is out of range for this context"),
        Some((_, _, operation)) => Ok(operation.c_code()),
    }
}

} // verus!
