use vstd::prelude::*;

use crate::text::{decimal, push_decimal, push_decimal_wide, push_str};

verus! {

/// Counts of the graph rows one persistence step wrote or closed.
#[derive(Debug, Clone, Copy, PartialEq, Eq, Structural)]
pub struct PersistenceSummary {
    pub workspace_id: i64,
    pub run_id: i64,
    pub files: usize,
    pub nodes: usize,
    pub edges: usize,
    pub reference_edges: usize,
    pub call_edges: usize,
    pub occurrences: usize,
    pub reference_occurrences: usize,
    pub call_occurrences: usize,
    pub evidence: usize,
    pub routes_complete: usize,
    pub stale_nodes_closed: usize,
    pub stale_edges_closed: usize,
}

/// What a reference route queried and found.
#[derive(Debug, Clone, Copy, PartialEq, Eq, Structural)]
pub struct ReferenceRouteSummary {
    pub targets_queried: usize,
    pub reference_edges: usize,
    pub reference_occurrences: usize,
    pub file_fallbacks: usize,
    pub skipped_external: usize,
}

/// What a call route queried and found.
#[derive(Debug, Clone, Copy, PartialEq, Eq, Structural)]
pub struct CallRouteSummary {
    pub callable_nodes: usize,
    pub call_edges: usize,
    pub call_occurrences: usize,
    pub skipped_external_targets: usize,
    pub skipped_unresolved_targets: usize,
    pub skipped_non_callable_prepare_items: usize,
}

/// The persistence and route totals of one file-relation worker.
#[derive(Debug, Clone, Copy, PartialEq, Eq, Structural)]
pub struct FileRelationWorkerSummary {
    pub reference_persistence: PersistenceSummary,
    pub reference_route: ReferenceRouteSummary,
    pub call_persistence: PersistenceSummary,
    pub call_route: CallRouteSummary,
}

/// A summary with the given ids and every count zero.
pub open spec fn spec_empty_summary(workspace_id: i64, run_id: i64) -> PersistenceSummary {
    PersistenceSummary {
        workspace_id,
        run_id,
        files: 0,
        nodes: 0,
        edges: 0,
        reference_edges: 0,
        call_edges: 0,
        occurrences: 0,
        reference_occurrences: 0,
        call_occurrences: 0,
        evidence: 0,
        routes_complete: 0,
        stale_nodes_closed: 0,
        stale_edges_closed: 0,
    }
}

/// Whether adding the counts of `s` to those of `t` stays within `usize`.
pub open spec fn summary_sum_fits(t: PersistenceSummary, s: PersistenceSummary) -> bool {
    &&& t.files + s.files <= usize::MAX
    &&& t.nodes + s.nodes <= usize::MAX
    &&& t.edges + s.edges <= usize::MAX
    &&& t.reference_edges + s.reference_edges <= usize::MAX
    &&& t.call_edges + s.call_edges <= usize::MAX
    &&& t.occurrences + s.occurrences <= usize::MAX
    &&& t.reference_occurrences + s.reference_occurrences <= usize::MAX
    &&& t.call_occurrences + s.call_occurrences <= usize::MAX
    &&& t.evidence + s.evidence <= usize::MAX
    &&& t.routes_complete + s.routes_complete <= usize::MAX
    &&& t.stale_nodes_closed + s.stale_nodes_closed <= usize::MAX
    &&& t.stale_edges_closed + s.stale_edges_closed <= usize::MAX
}

/// `t` with the counts of `s` added; the ids stay those of `t`.
pub open spec fn spec_merge_summary(t: PersistenceSummary, s: PersistenceSummary) -> PersistenceSummary {
    PersistenceSummary {
        workspace_id: t.workspace_id,
        run_id: t.run_id,
        files: (t.files + s.files) as usize,
        nodes: (t.nodes + s.nodes) as usize,
        edges: (t.edges + s.edges) as usize,
        reference_edges: (t.reference_edges + s.reference_edges) as usize,
        call_edges: (t.call_edges + s.call_edges) as usize,
        occurrences: (t.occurrences + s.occurrences) as usize,
        reference_occurrences: (t.reference_occurrences + s.reference_occurrences) as usize,
        call_occurrences: (t.call_occurrences + s.call_occurrences) as usize,
        evidence: (t.evidence + s.evidence) as usize,
        routes_complete: (t.routes_complete + s.routes_complete) as usize,
        stale_nodes_closed: (t.stale_nodes_closed + s.stale_nodes_closed) as usize,
        stale_edges_closed: (t.stale_edges_closed + s.stale_edges_closed) as usize,
    }
}

/// A summary with the given ids and every count zero.
pub fn empty_summary(workspace_id: i64, run_id: i64) -> (summary: PersistenceSummary)
    ensures
        summary == spec_empty_summary(workspace_id, run_id),
{
    PersistenceSummary {
        workspace_id,
        run_id,
        files: 0,
        nodes: 0,
        edges: 0,
        reference_edges: 0,
        call_edges: 0,
        occurrences: 0,
        reference_occurrences: 0,
        call_occurrences: 0,
        evidence: 0,
        routes_complete: 0,
        stale_nodes_closed: 0,
        stale_edges_closed: 0,
    }
}

/// Adds every count of `source` to `target`; the ids of `target` stay.
pub fn merge_summary(target: &mut PersistenceSummary, source: &PersistenceSummary)
    requires
        summary_sum_fits(*old(target), *source),
    ensures
        *final(target) == spec_merge_summary(*old(target), *source),
{
    target.files = target.files + source.files;
    target.nodes = target.nodes + source.nodes;
    target.edges = target.edges + source.edges;
    target.reference_edges = target.reference_edges + source.reference_edges;
    target.call_edges = target.call_edges + source.call_edges;
    target.occurrences = target.occurrences + source.occurrences;
    target.reference_occurrences = target.reference_occurrences + source.reference_occurrences;
    target.call_occurrences = target.call_occurrences + source.call_occurrences;
    target.evidence = target.evidence + source.evidence;
    target.routes_complete = target.routes_complete + source.routes_complete;
    target.stale_nodes_closed = target.stale_nodes_closed + source.stale_nodes_closed;
    target.stale_edges_closed = target.stale_edges_closed + source.stale_edges_closed;
}

/// Merging an empty summary changes nothing; merging into an empty summary
/// copies the counts.
pub proof fn lemma_merge_empty_identity(s: PersistenceSummary, workspace_id: i64, run_id: i64)
    ensures
        spec_merge_summary(s, spec_empty_summary(workspace_id, run_id)) == s,
        spec_merge_summary(spec_empty_summary(workspace_id, run_id), s) == (PersistenceSummary {
            workspace_id,
            run_id,
            ..s
        }),
{
}

/// The order in which summaries are merged does not change the counts.
pub proof fn lemma_merge_commutes(a: PersistenceSummary, b: PersistenceSummary)
    requires
        summary_sum_fits(a, b),
    ensures
        spec_merge_summary(a, b) == (PersistenceSummary {
            workspace_id: a.workspace_id,
            run_id: a.run_id,
            ..spec_merge_summary(b, a)
        }),
{
}

/// Merging is associative.
pub proof fn lemma_merge_associates(a: PersistenceSummary, b: PersistenceSummary, c: PersistenceSummary)
    requires
        summary_sum_fits(a, b),
        summary_sum_fits(b, c),
        summary_sum_fits(spec_merge_summary(a, b), c),
    ensures
        summary_sum_fits(a, spec_merge_summary(b, c)),
        spec_merge_summary(spec_merge_summary(a, b), c) == spec_merge_summary(
            a,
            spec_merge_summary(b, c),
        ),
{
}

/// Whether adding the reference route counts of `s` to `t` stays within `usize`.
pub open spec fn reference_route_sum_fits(t: ReferenceRouteSummary, s: ReferenceRouteSummary) -> bool {
    &&& t.targets_queried + s.targets_queried <= usize::MAX
    &&& t.reference_edges + s.reference_edges <= usize::MAX
    &&& t.reference_occurrences + s.reference_occurrences <= usize::MAX
    &&& t.file_fallbacks + s.file_fallbacks <= usize::MAX
    &&& t.skipped_external + s.skipped_external <= usize::MAX
}

/// `t` with the reference route counts of `s` added.
pub open spec fn spec_merge_reference_route(t: ReferenceRouteSummary, s: ReferenceRouteSummary) -> ReferenceRouteSummary {
    ReferenceRouteSummary {
        targets_queried: (t.targets_queried + s.targets_queried) as usize,
        reference_edges: (t.reference_edges + s.reference_edges) as usize,
        reference_occurrences: (t.reference_occurrences + s.reference_occurrences) as usize,
        file_fallbacks: (t.file_fallbacks + s.file_fallbacks) as usize,
        skipped_external: (t.skipped_external + s.skipped_external) as usize,
    }
}

/// Whether adding the call route counts of `s` to `t` stays within `usize`.
pub open spec fn call_route_sum_fits(t: CallRouteSummary, s: CallRouteSummary) -> bool {
    &&& t.callable_nodes + s.callable_nodes <= usize::MAX
    &&& t.call_edges + s.call_edges <= usize::MAX
    &&& t.call_occurrences + s.call_occurrences <= usize::MAX
    &&& t.skipped_external_targets + s.skipped_external_targets <= usize::MAX
    &&& t.skipped_unresolved_targets + s.skipped_unresolved_targets <= usize::MAX
    &&& t.skipped_non_callable_prepare_items + s.skipped_non_callable_prepare_items <= usize::MAX
}

/// `t` with the call route counts of `s` added.
pub open spec fn spec_merge_call_route(t: CallRouteSummary, s: CallRouteSummary) -> CallRouteSummary {
    CallRouteSummary {
        callable_nodes: (t.callable_nodes + s.callable_nodes) as usize,
        call_edges: (t.call_edges + s.call_edges) as usize,
        call_occurrences: (t.call_occurrences + s.call_occurrences) as usize,
        skipped_external_targets: (t.skipped_external_targets + s.skipped_external_targets) as usize,
        skipped_unresolved_targets: (t.skipped_unresolved_targets + s.skipped_unresolved_targets) as usize,
        skipped_non_callable_prepare_items: (t.skipped_non_callable_prepare_items
            + s.skipped_non_callable_prepare_items) as usize,
    }
}

/// A reference route summary with every count zero.
pub fn empty_reference_route_summary() -> (summary: ReferenceRouteSummary)
    ensures
        summary == (ReferenceRouteSummary {
            targets_queried: 0,
            reference_edges: 0,
            reference_occurrences: 0,
            file_fallbacks: 0,
            skipped_external: 0,
        }),
{
    ReferenceRouteSummary {
        targets_queried: 0,
        reference_edges: 0,
        reference_occurrences: 0,
        file_fallbacks: 0,
        skipped_external: 0,
    }
}

/// A call route summary with every count zero.
pub fn empty_call_route_summary() -> (summary: CallRouteSummary)
    ensures
        summary == (CallRouteSummary {
            callable_nodes: 0,
            call_edges: 0,
            call_occurrences: 0,
            skipped_external_targets: 0,
            skipped_unresolved_targets: 0,
            skipped_non_callable_prepare_items: 0,
        }),
{
    CallRouteSummary {
        callable_nodes: 0,
        call_edges: 0,
        call_occurrences: 0,
        skipped_external_targets: 0,
        skipped_unresolved_targets: 0,
        skipped_non_callable_prepare_items: 0,
    }
}

/// A worker summary with every count zero, for the given workspace and runs.
pub fn empty_file_relation_worker_summary(workspace_id: i64, reference_run_id: i64, call_run_id: i64) -> (summary:
    FileRelationWorkerSummary)
    ensures
        summary.reference_persistence == spec_empty_summary(workspace_id, reference_run_id),
        summary.call_persistence == spec_empty_summary(workspace_id, call_run_id),
        summary.reference_route == (ReferenceRouteSummary {
            targets_queried: 0,
            reference_edges: 0,
            reference_occurrences: 0,
            file_fallbacks: 0,
            skipped_external: 0,
        }),
        summary.call_route == (CallRouteSummary {
            callable_nodes: 0,
            call_edges: 0,
            call_occurrences: 0,
            skipped_external_targets: 0,
            skipped_unresolved_targets: 0,
            skipped_non_callable_prepare_items: 0,
        }),
{
    FileRelationWorkerSummary {
        reference_persistence: empty_summary(workspace_id, reference_run_id),
        reference_route: empty_reference_route_summary(),
        call_persistence: empty_summary(workspace_id, call_run_id),
        call_route: empty_call_route_summary(),
    }
}

/// Adds every count of one worker's summary to another's.
pub fn merge_file_relation_summary(target: &mut FileRelationWorkerSummary, source: &FileRelationWorkerSummary)
    requires
        summary_sum_fits(old(target).reference_persistence, source.reference_persistence),
        summary_sum_fits(old(target).call_persistence, source.call_persistence),
        reference_route_sum_fits(old(target).reference_route, source.reference_route),
        call_route_sum_fits(old(target).call_route, source.call_route),
    ensures
        final(target).reference_persistence == spec_merge_summary(
            old(target).reference_persistence,
            source.reference_persistence,
        ),
        final(target).call_persistence == spec_merge_summary(
            old(target).call_persistence,
            source.call_persistence,
        ),
        final(target).reference_route == spec_merge_reference_route(
            old(target).reference_route,
            source.reference_route,
        ),
        final(target).call_route == spec_merge_call_route(old(target).call_route, source.call_route),
{
    merge_summary(&mut target.reference_persistence, &source.reference_persistence);
    target.reference_route.targets_queried = target.reference_route.targets_queried
        + source.reference_route.targets_queried;
    target.reference_route.reference_edges = target.reference_route.reference_edges
        + source.reference_route.reference_edges;
    target.reference_route.reference_occurrences = target.reference_route.reference_occurrences
        + source.reference_route.reference_occurrences;
    target.reference_route.file_fallbacks = target.reference_route.file_fallbacks
        + source.reference_route.file_fallbacks;
    target.reference_route.skipped_external = target.reference_route.skipped_external
        + source.reference_route.skipped_external;

    merge_summary(&mut target.call_persistence, &source.call_persistence);
    target.call_route.callable_nodes = target.call_route.callable_nodes + source.call_route.callable_nodes;
    target.call_route.call_edges = target.call_route.call_edges + source.call_route.call_edges;
    target.call_route.call_occurrences = target.call_route.call_occurrences
        + source.call_route.call_occurrences;
    target.call_route.skipped_external_targets = target.call_route.skipped_external_targets
        + source.call_route.skipped_external_targets;
    target.call_route.skipped_unresolved_targets = target.call_route.skipped_unresolved_targets
        + source.call_route.skipped_unresolved_targets;
    target.call_route.skipped_non_callable_prepare_items = target.call_route.skipped_non_callable_prepare_items
        + source.call_route.skipped_non_callable_prepare_items;
}

/// The views of benchmark entries.
pub open spec fn entry_views(entries: Seq<(String, String)>) -> Seq<(Seq<char>, Seq<char>)> {
    entries.map_values(|e: (String, String)| (e.0@, e.1@))
}

/// The metrics of one file-relation worker: its index, files, reference
/// targets, call targets and elapsed milliseconds.
pub type FileRelationWorkerMetric = (usize, usize, usize, usize, u128);

/// How many workers handled at least one file.
pub open spec fn active_workers(metrics: Seq<FileRelationWorkerMetric>) -> nat
    decreases metrics.len(),
{
    if metrics.len() == 0 {
        0
    } else {
        active_workers(metrics.drop_last()) + if metrics.last().1 > 0 {
            1nat
        } else {
            0nat
        }
    }
}

/// The entries of one worker: its files, reference targets, call targets
/// and elapsed time, under `shared_workspace.worker.<index>`.
pub open spec fn worker_entries(m: FileRelationWorkerMetric) -> Seq<(Seq<char>, Seq<char>)> {
    let prefix = "shared_workspace.worker."@ + decimal(m.0 as nat);
    seq![
        (prefix + ".files"@, decimal(m.1 as nat)),
        (prefix + ".reference_targets"@, decimal(m.2 as nat)),
        (prefix + ".call_targets"@, decimal(m.3 as nat)),
        (prefix + ".elapsed"@, decimal(m.4 as nat)),
    ]
}

/// The entries of all workers, worker by worker.
pub open spec fn all_worker_entries(metrics: Seq<FileRelationWorkerMetric>) -> Seq<(Seq<char>, Seq<char>)>
    decreases metrics.len(),
{
    if metrics.len() == 0 {
        Seq::empty()
    } else {
        all_worker_entries(metrics.drop_last()) + worker_entries(metrics.last())
    }
}

/// Named measurements of one run, in insertion order.
pub struct BenchmarkSummary {
    pub entries: Vec<(String, String)>,
}

impl BenchmarkSummary {
    /// A summary with no entries.
    pub fn new() -> (summary: Self)
        ensures
            summary.entries@.len() == 0,
    {
        Self { entries: Vec::new() }
    }

    /// Records a text label.
    pub fn insert_label(&mut self, key: &str, value: &str)
        ensures
            final(self).entries@.len() == old(self).entries@.len() + 1,
            forall|i: int| 0 <= i < old(self).entries@.len() ==> final(self).entries@[i] == old(self).entries@[i],
            final(self).entries@.last().0@ == key@,
            final(self).entries@.last().1@ == value@,
    {
        let mut k = String::new();
        push_str(&mut k, key);
        let mut v = String::new();
        push_str(&mut v, value);
        self.entries.push((k, v));
    }

    /// Records a count, rendered in decimal.
    pub fn insert_count(&mut self, key: &str, value: usize)
        ensures
            final(self).entries@.len() == old(self).entries@.len() + 1,
            forall|i: int| 0 <= i < old(self).entries@.len() ==> final(self).entries@[i] == old(self).entries@[i],
            final(self).entries@.last().0@ == key@,
            final(self).entries@.last().1@ == crate::text::decimal(value as nat),
    {
        let mut k = String::new();
        push_str(&mut k, key);
        let mut v = String::new();
        push_decimal(&mut v, value);
        self.entries.push((k, v));
    }
}

impl BenchmarkSummary {
    /// Records a duration in milliseconds, rendered in decimal.
    pub fn insert_duration_ms(&mut self, key: &str, millis: u128)
        ensures
            entry_views(final(self).entries@) == entry_views(old(self).entries@).push((key@, decimal(millis as nat))),
    {
        let mut k = String::new();
        push_str(&mut k, key);
        let mut v = String::new();
        push_decimal_wide(&mut v, millis);
        let ghost before = entry_views(self.entries@);
        self.entries.push((k, v));
        assert(entry_views(self.entries@) =~= before.push((key@, decimal(millis as nat))));
    }
}

/// A string with the key of one worker entry.
fn worker_key(index: usize, suffix: &str) -> (key: String)
    ensures
        key@ == "shared_workspace.worker."@ + decimal(index as nat) + suffix@,
{
    let mut key = String::new();
    push_str(&mut key, "shared_workspace.worker.");
    push_decimal(&mut key, index);
    push_str(&mut key, suffix);
    key
}

/// Records the worker counts and each worker's files, targets and elapsed
/// time.
pub fn insert_file_relation_worker_metrics(benchmark: &mut BenchmarkSummary, worker_metrics: &Vec<FileRelationWorkerMetric>)
    ensures
        entry_views(final(benchmark).entries@) == entry_views(old(benchmark).entries@) + seq![
            ("shared_workspace.file_relation_workers"@, decimal(worker_metrics@.len())),
            ("shared_workspace.file_relation_active_workers"@, decimal(active_workers(worker_metrics@))),
        ] + all_worker_entries(worker_metrics@),
{
    let ghost start = entry_views(benchmark.entries@);
    let ghost ms = worker_metrics@;
    let mut active: usize = 0;
    let mut i: usize = 0;
    while i < worker_metrics.len()
        invariant
            ms == worker_metrics@,
            i <= ms.len(),
            active == active_workers(ms.take(i as int)),
            active <= i,
        decreases ms.len() - i,
    {
        assert(ms.take(i + 1).drop_last() =~= ms.take(i as int));
        if worker_metrics[i].1 > 0 {
            active = active + 1;
        }
        i = i + 1;
    }
    assert(ms.take(i as int) =~= ms);
    let count = worker_metrics.len();
    let ghost before_count = entry_views(benchmark.entries@);
    benchmark.insert_count("shared_workspace.file_relation_workers", count);
    assert(entry_views(benchmark.entries@) =~= before_count.push(("shared_workspace.file_relation_workers"@, decimal(count as nat))));
    let ghost before_active = entry_views(benchmark.entries@);
    benchmark.insert_count("shared_workspace.file_relation_active_workers", active);
    assert(entry_views(benchmark.entries@) =~= before_active.push(("shared_workspace.file_relation_active_workers"@, decimal(active as nat))));
    let ghost head = entry_views(benchmark.entries@);
    assert(head =~= start + seq![
        ("shared_workspace.file_relation_workers"@, decimal(ms.len())),
        ("shared_workspace.file_relation_active_workers"@, decimal(active_workers(ms))),
    ]);
    let mut j: usize = 0;
    assert(ms.take(0) =~= Seq::<FileRelationWorkerMetric>::empty());
    while j < worker_metrics.len()
        invariant
            ms == worker_metrics@,
            j <= ms.len(),
            entry_views(benchmark.entries@) == head + all_worker_entries(ms.take(j as int)),
        decreases ms.len() - j,
    {
        let (index, files, reference_targets, call_targets, elapsed) = worker_metrics[j];
        let ghost before = entry_views(benchmark.entries@);
        let k1 = worker_key(index, ".files");
        let v1 = {
            let mut v = String::new();
            push_decimal(&mut v, files);
            v
        };
        let k2 = worker_key(index, ".reference_targets");
        let v2 = {
            let mut v = String::new();
            push_decimal(&mut v, reference_targets);
            v
        };
        let k3 = worker_key(index, ".call_targets");
        let v3 = {
            let mut v = String::new();
            push_decimal(&mut v, call_targets);
            v
        };
        let k4 = worker_key(index, ".elapsed");
        let v4 = {
            let mut v = String::new();
            push_decimal_wide(&mut v, elapsed);
            v
        };
        let ghost added = seq![(k1@, v1@), (k2@, v2@), (k3@, v3@), (k4@, v4@)];
        benchmark.entries.push((k1, v1));
        benchmark.entries.push((k2, v2));
        benchmark.entries.push((k3, v3));
        benchmark.entries.push((k4, v4));
        proof {
            assert(entry_views(benchmark.entries@) =~= before + added);
            assert(added =~= worker_entries(ms[j as int]));
            assert(ms.take(j + 1).drop_last() =~= ms.take(j as int));
            assert(ms.take(j + 1).last() == ms[j as int]);
            assert(head + all_worker_entries(ms.take(j + 1)) =~= head + all_worker_entries(ms.take(j as int))
                + worker_entries(ms[j as int]));
        }
        j = j + 1;
    }
    assert(ms.take(j as int) =~= ms);
}

/// The summaries of a threaded workspace run over every route.
pub struct WorkspaceAllSummary {
    pub benchmark: BenchmarkSummary,
    pub document_summary: PersistenceSummary,
    pub reference_summary: PersistenceSummary,
    pub call_summary: PersistenceSummary,
    pub reference_route_summary: ReferenceRouteSummary,
    pub call_route_summary: CallRouteSummary,
}


/// The persister of extraction results. Its methods decide what each write
/// to the graph store holds: the records of a file's symbol batch, and the
/// relations whose nodes the store has; the store performs the writes.
pub struct ExtractionPersister;

} // verus!
