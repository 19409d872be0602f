use vstd::prelude::*;

use crate::routes::WorkspaceExtractionRoutes;
use crate::summary::{
    entry_views, BenchmarkSummary, CallRouteSummary, FileRelationWorkerSummary, PersistenceSummary, ReferenceRouteSummary,
};
use crate::text::decimal;

verus! {

/// Worker and job counts of a threaded workspace run, and its routes.
#[derive(Debug, Clone, Copy, PartialEq, Eq)]
pub struct ThreadedWorkspaceAllConfig {
    reference_jobs: usize,
    call_jobs: usize,
    analysis_workers: usize,
    reference_analysis_workers: usize,
    call_analysis_workers: usize,
    routes: WorkspaceExtractionRoutes,
}

/// The abstract content of a configuration.
pub ghost struct ThreadedWorkspaceAllConfigView {
    pub reference_jobs: nat,
    pub call_jobs: nat,
    pub analysis_workers: nat,
    pub reference_analysis_workers: nat,
    pub call_analysis_workers: nat,
    pub routes: WorkspaceExtractionRoutes,
}

impl View for ThreadedWorkspaceAllConfig {
    type V = ThreadedWorkspaceAllConfigView;

    closed spec fn view(&self) -> ThreadedWorkspaceAllConfigView {
        ThreadedWorkspaceAllConfigView {
            reference_jobs: self.reference_jobs as nat,
            call_jobs: self.call_jobs as nat,
            analysis_workers: self.analysis_workers as nat,
            reference_analysis_workers: self.reference_analysis_workers as nat,
            call_analysis_workers: self.call_analysis_workers as nat,
            routes: self.routes,
        }
    }
}

impl ThreadedWorkspaceAllConfig {
    /// A configuration that refreshes every route.
    pub fn new(
        reference_jobs: usize,
        call_jobs: usize,
        analysis_workers: usize,
        reference_analysis_workers: usize,
        call_analysis_workers: usize,
    ) -> (config: Self)
        ensures
            config@.reference_jobs == reference_jobs,
            config@.call_jobs == call_jobs,
            config@.analysis_workers == analysis_workers,
            config@.reference_analysis_workers == reference_analysis_workers,
            config@.call_analysis_workers == call_analysis_workers,
            config@.routes.spec_symbols() && config@.routes.spec_references()
                && config@.routes.spec_calls(),
            config@ == (ThreadedWorkspaceAllConfigView {
                reference_jobs: reference_jobs as nat,
                call_jobs: call_jobs as nat,
                analysis_workers: analysis_workers as nat,
                reference_analysis_workers: reference_analysis_workers as nat,
                call_analysis_workers: call_analysis_workers as nat,
                routes: WorkspaceExtractionRoutes::spec_all(),
            }),
    {
        Self {
            reference_jobs,
            call_jobs,
            analysis_workers,
            reference_analysis_workers,
            call_analysis_workers,
            routes: WorkspaceExtractionRoutes::all(),
        }
    }

    /// A configuration that refreshes `routes`.
    pub fn with_routes(
        reference_jobs: usize,
        call_jobs: usize,
        analysis_workers: usize,
        reference_analysis_workers: usize,
        call_analysis_workers: usize,
        routes: WorkspaceExtractionRoutes,
    ) -> (config: Self)
        ensures
            config@ == (ThreadedWorkspaceAllConfigView {
                reference_jobs: reference_jobs as nat,
                call_jobs: call_jobs as nat,
                analysis_workers: analysis_workers as nat,
                reference_analysis_workers: reference_analysis_workers as nat,
                call_analysis_workers: call_analysis_workers as nat,
                routes,
            }),
    {
        Self {
            reference_jobs,
            call_jobs,
            analysis_workers,
            reference_analysis_workers,
            call_analysis_workers,
            routes,
        }
    }

    /// A configuration is its view: configurations with the same view are
    /// the same configuration.
    pub proof fn lemma_config_equal(a: Self, b: Self)
        requires
            a@ == b@,
        ensures
            a == b,
    {
    }

    /// Requested reference jobs.
    pub fn reference_jobs(&self) -> (r: usize)
        ensures
            r == self@.reference_jobs,
    {
        self.reference_jobs
    }

    /// Requested call jobs.
    pub fn call_jobs(&self) -> (r: usize)
        ensures
            r == self@.call_jobs,
    {
        self.call_jobs
    }

    /// Shared analysis workers.
    pub fn analysis_workers(&self) -> (r: usize)
        ensures
            r == self@.analysis_workers,
    {
        self.analysis_workers
    }

    /// Analysis workers reserved for references.
    pub fn reference_analysis_workers(&self) -> (r: usize)
        ensures
            r == self@.reference_analysis_workers,
    {
        self.reference_analysis_workers
    }

    /// Analysis workers reserved for calls.
    pub fn call_analysis_workers(&self) -> (r: usize)
        ensures
            r == self@.call_analysis_workers,
    {
        self.call_analysis_workers
    }

    /// The routes to refresh.
    pub fn routes(&self) -> (r: WorkspaceExtractionRoutes)
        ensures
            r == self@.routes,
    {
        self.routes
    }
}

/// The analysis worker count a run starts: the split reference and call
/// workers when any are configured, else the shared worker count.
pub open spec fn spec_effective_analysis_worker_count(c: ThreadedWorkspaceAllConfigView) -> nat {
    let split = c.reference_analysis_workers + c.call_analysis_workers;
    if split == 0 {
        c.analysis_workers
    } else {
        split
    }
}

/// The analysis worker count a run starts.
pub fn effective_analysis_worker_count(config: &ThreadedWorkspaceAllConfig) -> (count: usize)
    requires
        config@.reference_analysis_workers + config@.call_analysis_workers <= usize::MAX,
    ensures
        count == spec_effective_analysis_worker_count(config@),
{
    let split_workers = config.reference_analysis_workers() + config.call_analysis_workers();
    if split_workers == 0 {
        config.analysis_workers()
    } else {
        split_workers
    }
}

/// The execution mode of the threaded workspace runner.
pub fn execution_mode_label() -> (label: &'static str)
    ensures
        label@ == "file_grained_analysis_worker_pool"@,
{
    "file_grained_analysis_worker_pool"
}

/// The execution mode of the shared workspace runner.
pub fn shared_execution_mode_label() -> (label: &'static str)
    ensures
        label@ == "shared_analysis_snapshot"@,
{
    "shared_analysis_snapshot"
}

/// The diagnostics a relation route records when it starts.
#[derive(Debug, Clone, PartialEq, Eq)]
pub struct ExecutionDiagnostics {
    pub requested_execution_mode: &'static str,
    pub actual_execution_mode: &'static str,
    pub requested_jobs: usize,
    pub actual_jobs: usize,
    pub analysis_workers: usize,
    pub scheduling_unit: &'static str,
    pub file_work_items: usize,
}

/// Start diagnostics for a file-grained relation route: the requested job
/// count, the analysis workers that actually run, and the work items.
pub fn execution_diagnostics(requested_jobs: usize, analysis_workers: usize, file_work_items: usize) -> (d:
    ExecutionDiagnostics)
    ensures
        d.requested_execution_mode@ == "file_grained_analysis_worker_pool"@,
        d.actual_execution_mode@ == "file_grained_analysis_worker_pool"@,
        d.requested_jobs == requested_jobs,
        d.actual_jobs == analysis_workers,
        d.analysis_workers == analysis_workers,
        d.scheduling_unit@ == "file"@,
        d.file_work_items == file_work_items,
{
    ExecutionDiagnostics {
        requested_execution_mode: execution_mode_label(),
        actual_execution_mode: execution_mode_label(),
        requested_jobs,
        actual_jobs: analysis_workers,
        analysis_workers,
        scheduling_unit: "file",
        file_work_items,
    }
}


/// The workspace run that refreshes every route with a pool of
/// file-grained analysis workers.
pub struct ThreadedWorkspaceAllRunner;

/// The workspace run that refreshes the selected routes on one shared
/// analysis snapshot.
pub struct SharedWorkspaceExtractionRunner;

/// Records a label, keeping the earlier entries.
fn add_label(benchmark: &mut BenchmarkSummary, key: &str, value: &str)
    ensures
        entry_views(final(benchmark).entries@) == entry_views(old(benchmark).entries@).push((key@, value@)),
{
    let ghost before = entry_views(benchmark.entries@);
    benchmark.insert_label(key, value);
    assert(entry_views(benchmark.entries@) =~= before.push((key@, value@)));
}

/// Records a count, keeping the earlier entries.
fn add_count(benchmark: &mut BenchmarkSummary, key: &str, value: usize)
    ensures
        entry_views(final(benchmark).entries@) == entry_views(old(benchmark).entries@).push((key@, decimal(value as nat))),
{
    let ghost before = entry_views(benchmark.entries@);
    benchmark.insert_count(key, value);
    assert(entry_views(benchmark.entries@) =~= before.push((key@, decimal(value as nat))));
}

/// A flag counted as 0 or 1.
pub open spec fn flag_count(b: bool) -> nat {
    if b {
        1
    } else {
        0
    }
}

/// The entries that open a threaded run's benchmark: its mode, its job and
/// worker counts, the workers it starts, and its input files.
pub open spec fn threaded_header(c: ThreadedWorkspaceAllConfigView, input_files: nat) -> Seq<(Seq<char>, Seq<char>)> {
    seq![
        ("threaded.actual_execution_mode"@, "file_grained_analysis_worker_pool"@),
        ("threaded.reference_jobs"@, decimal(c.reference_jobs)),
        ("threaded.call_jobs"@, decimal(c.call_jobs)),
        ("threaded.analysis_workers"@, decimal(c.analysis_workers)),
        ("threaded.reference_analysis_workers"@, decimal(c.reference_analysis_workers)),
        ("threaded.call_analysis_workers"@, decimal(c.call_analysis_workers)),
        ("threaded.effective_analysis_workers"@, decimal(spec_effective_analysis_worker_count(c))),
        ("threaded.input_files"@, decimal(input_files)),
    ]
}

impl ThreadedWorkspaceAllRunner {
    /// Records the run's configuration at the start of its benchmark and
    /// returns the number of analysis workers to start.
    pub fn record_configuration(
        benchmark: &mut BenchmarkSummary,
        config: &ThreadedWorkspaceAllConfig,
        input_files: usize,
    ) -> (workers: usize)
        requires
            config@.reference_analysis_workers + config@.call_analysis_workers <= usize::MAX,
        ensures
            workers == spec_effective_analysis_worker_count(config@),
            entry_views(final(benchmark).entries@) == entry_views(old(benchmark).entries@) + threaded_header(
                config@,
                input_files as nat,
            ),
    {
        let ghost start = entry_views(benchmark.entries@);
        let workers = effective_analysis_worker_count(config);
        add_label(benchmark, "threaded.actual_execution_mode", execution_mode_label());
        add_count(benchmark, "threaded.reference_jobs", config.reference_jobs());
        add_count(benchmark, "threaded.call_jobs", config.call_jobs());
        add_count(benchmark, "threaded.analysis_workers", config.analysis_workers());
        add_count(benchmark, "threaded.reference_analysis_workers", config.reference_analysis_workers());
        add_count(benchmark, "threaded.call_analysis_workers", config.call_analysis_workers());
        add_count(benchmark, "threaded.effective_analysis_workers", workers);
        add_count(benchmark, "threaded.input_files", input_files);
        assert(entry_views(benchmark.entries@) =~= start + threaded_header(config@, input_files as nat));
        workers
    }
}

impl ThreadedWorkspaceAllRunner {
    /// The route summaries of a run whose file relation workers all
    /// succeeded, once both relation routes are completed: each
    /// persistence summary counts its one complete route.
    pub fn completed_route_summaries(summary: FileRelationWorkerSummary) -> (r: (
        PersistenceSummary,
        ReferenceRouteSummary,
        PersistenceSummary,
        CallRouteSummary,
    ))
        ensures
            r.0 == (PersistenceSummary { routes_complete: 1, ..summary.reference_persistence }),
            r.1 == summary.reference_route,
            r.2 == (PersistenceSummary { routes_complete: 1, ..summary.call_persistence }),
            r.3 == summary.call_route,
    {
        let mut reference = summary.reference_persistence;
        let mut call = summary.call_persistence;
        reference.routes_complete = 1;
        call.routes_complete = 1;
        (reference, summary.reference_route, call, summary.call_route)
    }
}

/// What a shared run does for its routes.
#[derive(Debug, Clone, Copy, PartialEq, Eq, Structural)]
pub struct SharedRunPlan {
    /// Persist the document symbols (else the workspace must exist already).
    pub persist_symbols: bool,
    /// Build the reference targets.
    pub reference_targets: bool,
    /// Build the call targets.
    pub call_targets: bool,
    /// Run the file relation workers.
    pub relation_workers: bool,
}

/// The entries that open a shared run's benchmark.
pub open spec fn shared_header(
    routes: WorkspaceExtractionRoutes,
    label: Seq<char>,
    workers: nat,
    input_files: nat,
    close_stale: bool,
) -> Seq<(Seq<char>, Seq<char>)> {
    seq![
        ("shared_workspace.execution_mode"@, "shared_analysis_snapshot"@),
        ("shared_workspace.routes"@, label),
        ("shared_workspace.analysis_workers"@, decimal(workers)),
        ("shared_workspace.input_files"@, decimal(input_files)),
        ("shared_workspace.extract_symbols"@, decimal(flag_count(routes.spec_symbols()))),
        ("shared_workspace.extract_references"@, decimal(flag_count(routes.spec_references()))),
        ("shared_workspace.extract_calls"@, decimal(flag_count(routes.spec_calls()))),
        ("shared_workspace.close_stale_document_symbols"@, decimal(flag_count(close_stale))),
    ]
}

/// A flag as a count.
fn count_of_flag(b: bool) -> (n: usize)
    ensures
        n == flag_count(b),
{
    if b {
        1
    } else {
        0
    }
}

impl SharedWorkspaceExtractionRunner {
    /// Which steps a shared run takes for its routes: document symbols are
    /// persisted only when symbols are selected, targets are built for the
    /// selected relation routes, and the relation workers run only when a
    /// relation route is selected.
    pub fn run_plan(routes: WorkspaceExtractionRoutes) -> (plan: SharedRunPlan)
        ensures
            plan == (SharedRunPlan {
                persist_symbols: routes.spec_symbols(),
                reference_targets: routes.spec_references(),
                call_targets: routes.spec_calls(),
                relation_workers: routes.spec_references() || routes.spec_calls(),
            }),
    {
        SharedRunPlan {
            persist_symbols: routes.includes_symbols(),
            reference_targets: routes.includes_references(),
            call_targets: routes.includes_calls(),
            relation_workers: routes.includes_relations(),
        }
    }

    /// Records the run's configuration at the start of its benchmark.
    pub fn record_configuration(
        benchmark: &mut BenchmarkSummary,
        routes: WorkspaceExtractionRoutes,
        analysis_workers: usize,
        input_files: usize,
        close_stale_document_symbols: bool,
    )
        ensures
            entry_views(final(benchmark).entries@) == entry_views(old(benchmark).entries@) + shared_header(
                routes,
                crate::routes::spec_routes_label(routes.spec_symbols(), routes.spec_references(), routes.spec_calls()),
                analysis_workers as nat,
                input_files as nat,
                close_stale_document_symbols,
            ),
    {
        let ghost start = entry_views(benchmark.entries@);
        add_label(benchmark, "shared_workspace.execution_mode", shared_execution_mode_label());
        add_label(benchmark, "shared_workspace.routes", routes.label());
        add_count(benchmark, "shared_workspace.analysis_workers", analysis_workers);
        add_count(benchmark, "shared_workspace.input_files", input_files);
        add_count(benchmark, "shared_workspace.extract_symbols", count_of_flag(routes.includes_symbols()));
        add_count(benchmark, "shared_workspace.extract_references", count_of_flag(routes.includes_references()));
        add_count(benchmark, "shared_workspace.extract_calls", count_of_flag(routes.includes_calls()));
        add_count(
            benchmark,
            "shared_workspace.close_stale_document_symbols",
            count_of_flag(close_stale_document_symbols),
        );
        assert(entry_views(benchmark.entries@) =~= start + shared_header(
            routes,
            crate::routes::spec_routes_label(routes.spec_symbols(), routes.spec_references(), routes.spec_calls()),
            analysis_workers as nat,
            input_files as nat,
            close_stale_document_symbols,
        ));
    }
}

} // verus!
