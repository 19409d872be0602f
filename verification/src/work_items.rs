use vstd::prelude::*;

use crate::lsif_discovery::{has_parts, insert_unique_path, sorted_unique_paths};
use crate::model::{LspRange, ResolvedCallTarget, ResolvedReferenceTarget};
use crate::paths::{path_eq, path_parts};
use crate::symbols::string_views;

verus! {

/// The relation targets of one file, handed to one analysis job.
pub struct FileSemanticWork {
    pub file_path: String,
    pub reference_targets: Vec<ResolvedReferenceTarget>,
    pub call_targets: Vec<ResolvedCallTarget>,
}

/// The targets of a list whose path has the components of `p`, in order.
pub open spec fn targets_at(targets: Seq<(Seq<char>, LspRange)>, p: Seq<char>) -> Seq<(Seq<char>, LspRange)>
    decreases targets.len(),
{
    if targets.len() == 0 {
        Seq::empty()
    } else {
        targets_at(targets.drop_last(), p) + if path_parts(targets.last().0) == path_parts(p) {
            seq![targets.last()]
        } else {
            Seq::empty()
        }
    }
}

/// The paths of a list of targets.
pub open spec fn target_paths(targets: Seq<(Seq<char>, LspRange)>) -> Seq<Seq<char>> {
    targets.map_values(|t: (Seq<char>, LspRange)| t.0)
}

/// The views of reference targets.
pub open spec fn reference_target_views(targets: Seq<ResolvedReferenceTarget>) -> Seq<(Seq<char>, LspRange)> {
    targets.map_values(|t: ResolvedReferenceTarget| t@)
}

/// The views of call targets.
pub open spec fn call_target_views(targets: Seq<ResolvedCallTarget>) -> Seq<(Seq<char>, LspRange)> {
    targets.map_values(|t: ResolvedCallTarget| t@)
}

/// The reference targets whose path has the components of `p`.
fn reference_targets_at(targets: &Vec<ResolvedReferenceTarget>, p: &str) -> (r: Vec<ResolvedReferenceTarget>)
    ensures
        reference_target_views(r@) == targets_at(reference_target_views(targets@), p@),
{
    let ghost tv = reference_target_views(targets@);
    let mut r: Vec<ResolvedReferenceTarget> = Vec::new();
    let mut i: usize = 0;
    while i < targets.len()
        invariant
            tv == reference_target_views(targets@),
            i <= targets@.len(),
            reference_target_views(r@) == targets_at(tv.take(i as int), p@),
        decreases targets@.len() - i,
    {
        let ghost before = reference_target_views(r@);
        assert(tv.take(i + 1).drop_last() =~= tv.take(i as int));
        assert(tv.take(i + 1).last() == targets@[i as int]@);
        if path_eq(targets[i].file_path.as_str(), p) {
            r.push(targets[i].copy());
            assert(reference_target_views(r@) =~= before.push(targets@[i as int]@));
        }
        assert(reference_target_views(r@) =~= targets_at(tv.take(i + 1), p@));
        i = i + 1;
    }
    assert(tv.take(i as int) =~= tv);
    r
}

/// The call targets whose path has the components of `p`.
fn call_targets_at(targets: &Vec<ResolvedCallTarget>, p: &str) -> (r: Vec<ResolvedCallTarget>)
    ensures
        call_target_views(r@) == targets_at(call_target_views(targets@), p@),
{
    let ghost tv = call_target_views(targets@);
    let mut r: Vec<ResolvedCallTarget> = Vec::new();
    let mut i: usize = 0;
    while i < targets.len()
        invariant
            tv == call_target_views(targets@),
            i <= targets@.len(),
            call_target_views(r@) == targets_at(tv.take(i as int), p@),
        decreases targets@.len() - i,
    {
        let ghost before = call_target_views(r@);
        assert(tv.take(i + 1).drop_last() =~= tv.take(i as int));
        assert(tv.take(i + 1).last() == targets@[i as int]@);
        if path_eq(targets[i].file_path.as_str(), p) {
            r.push(targets[i].copy());
            assert(call_target_views(r@) =~= before.push(targets@[i as int]@));
        }
        assert(call_target_views(r@) =~= targets_at(tv.take(i + 1), p@));
        i = i + 1;
    }
    assert(tv.take(i as int) =~= tv);
    r
}

/// The analysis jobs for relation targets, one per file: files in path
/// order, each with its reference targets and its call targets in the
/// order given. A file is named by the first target path with its
/// components, reference targets first.
pub fn file_semantic_work_items(
    reference_targets: Vec<ResolvedReferenceTarget>,
    call_targets: Vec<ResolvedCallTarget>,
) -> (work: Vec<FileSemanticWork>)
    ensures
        sorted_unique_paths(
            work@.map_values(|w: FileSemanticWork| w.file_path@),
            target_paths(reference_target_views(reference_targets@)) + target_paths(call_target_views(call_targets@)),
        ),
        forall|i: int|
            0 <= i < work@.len() ==> reference_target_views((#[trigger] work@[i]).reference_targets@) == targets_at(
                reference_target_views(reference_targets@),
                work@[i].file_path@,
            ) && call_target_views(work@[i].call_targets@) == targets_at(
                call_target_views(call_targets@),
                work@[i].file_path@,
            ),
{
    let ghost all = target_paths(reference_target_views(reference_targets@)) + target_paths(
        call_target_views(call_targets@),
    );
    let ghost nr = reference_targets@.len();
    let mut keys: Vec<String> = Vec::new();
    let mut i: usize = 0;
    assert(string_views(keys@) =~= Seq::<Seq<char>>::empty());
    assert(all.take(0) =~= Seq::<Seq<char>>::empty());
    while i < reference_targets.len()
        invariant
            nr == reference_targets@.len(),
            all == target_paths(reference_target_views(reference_targets@)) + target_paths(
                call_target_views(call_targets@),
            ),
            i <= nr,
            sorted_unique_paths(string_views(keys@), all.take(i as int)),
        decreases nr - i,
    {
        assert(all.take(i + 1) =~= all.take(i as int).push(reference_targets@[i as int].file_path@));
        insert_unique_path(&mut keys, reference_targets[i].file_path.clone(), Ghost(all.take(i as int)));
        i = i + 1;
    }
    let mut j: usize = 0;
    while j < call_targets.len()
        invariant
            nr == reference_targets@.len(),
            all == target_paths(reference_target_views(reference_targets@)) + target_paths(
                call_target_views(call_targets@),
            ),
            j <= call_targets@.len(),
            sorted_unique_paths(string_views(keys@), all.take(nr + j)),
        decreases call_targets@.len() - j,
    {
        assert(all.take(nr + j + 1) =~= all.take(nr + j).push(call_targets@[j as int].file_path@));
        insert_unique_path(&mut keys, call_targets[j].file_path.clone(), Ghost(all.take(nr + j)));
        j = j + 1;
    }
    assert(all.take(nr + j) =~= all);
    let mut work: Vec<FileSemanticWork> = Vec::new();
    let mut k: usize = 0;
    while k < keys.len()
        invariant
            k <= keys@.len(),
            work@.len() == k,
            forall|a: int| 0 <= a < k ==> (#[trigger] work@[a]).file_path@ == keys@[a]@,
            forall|a: int|
                0 <= a < k ==> reference_target_views((#[trigger] work@[a]).reference_targets@) == targets_at(
                    reference_target_views(reference_targets@),
                    work@[a].file_path@,
                ) && call_target_views(work@[a].call_targets@) == targets_at(
                    call_target_views(call_targets@),
                    work@[a].file_path@,
                ),
        decreases keys@.len() - k,
    {
        let refs = reference_targets_at(&reference_targets, keys[k].as_str());
        let calls = call_targets_at(&call_targets, keys[k].as_str());
        work.push(FileSemanticWork { file_path: keys[k].clone(), reference_targets: refs, call_targets: calls });
        k = k + 1;
    }
    assert(work@.map_values(|w: FileSemanticWork| w.file_path@) =~= string_views(keys@));
    work
}


/// How many targets the files `keys` hold together.
pub open spec fn targets_total(keys: Seq<Seq<char>>, targets: Seq<(Seq<char>, LspRange)>) -> nat
    decreases keys.len(),
{
    if keys.len() == 0 {
        0
    } else {
        targets_total(keys.drop_last(), targets) + targets_at(targets, keys.last()).len()
    }
}

/// How many of `keys` have the components of `p`.
pub open spec fn parts_count(keys: Seq<Seq<char>>, p: Seq<char>) -> nat
    decreases keys.len(),
{
    if keys.len() == 0 {
        0
    } else {
        parts_count(keys.drop_last(), p) + if path_parts(keys.last()) == path_parts(p) {
            1nat
        } else {
            0nat
        }
    }
}

/// No files of `keys` share components, and `p` has those of one of them:
/// it is counted once.
proof fn lemma_parts_count_once(keys: Seq<Seq<char>>, p: Seq<char>)
    requires
        forall|i: int, j: int| 0 <= i < j < keys.len() ==> path_parts(#[trigger] keys[i]) != path_parts(#[trigger] keys[j]),
        has_parts(keys, p),
    ensures
        parts_count(keys, p) == 1,
    decreases keys.len(),
{
    let q = keys.drop_last();
    assert forall|i: int, j: int| 0 <= i < j < q.len() implies path_parts(#[trigger] q[i]) != path_parts(#[trigger] q[j]) by {
        assert(q[i] == keys[i] && q[j] == keys[j]);
    }
    if path_parts(keys.last()) == path_parts(p) {
        lemma_parts_count_none(q, p, keys);
    } else {
        let i = choose|i: int| 0 <= i < keys.len() && path_parts(#[trigger] keys[i]) == path_parts(p);
        assert(q[i] == keys[i]);
        lemma_parts_count_once(q, p);
    }
}

/// Files that all differ from `p` in components count nothing.
proof fn lemma_parts_count_none(q: Seq<Seq<char>>, p: Seq<char>, keys: Seq<Seq<char>>)
    requires
        q.len() + 1 == keys.len(),
        forall|i: int| 0 <= i < q.len() ==> q[i] == keys[i],
        path_parts(keys.last()) == path_parts(p),
        forall|i: int, j: int| 0 <= i < j < keys.len() ==> path_parts(#[trigger] keys[i]) != path_parts(#[trigger] keys[j]),
    ensures
        parts_count(q, p) == 0,
    decreases q.len(),
{
    if q.len() > 0 {
        let q2 = q.drop_last();
        let keys2 = keys.subrange(0, q.len() as int).push(keys.last());
        assert(path_parts(keys[q.len() - 1]) != path_parts(keys[keys.len() - 1]));
        assert forall|i: int, j: int| 0 <= i < j < keys2.len() implies path_parts(#[trigger] keys2[i]) != path_parts(
            #[trigger] keys2[j],
        ) by {
            if j == keys2.len() - 1 {
                assert(keys2[j] == keys[keys.len() - 1]);
                assert(keys2[i] == keys[i]);
            } else {
                assert(keys2[i] == keys[i] && keys2[j] == keys[j]);
            }
        }
        lemma_parts_count_none(q2, p, keys2.subrange(0, q2.len() as int).push(keys.last()));
    }
}

/// One more target adds one for each file with its components.
proof fn lemma_targets_total_push(keys: Seq<Seq<char>>, targets: Seq<(Seq<char>, LspRange)>, t: (Seq<char>, LspRange))
    ensures
        targets_total(keys, targets.push(t)) == targets_total(keys, targets) + parts_count(keys, t.0),
    decreases keys.len(),
{
    if keys.len() > 0 {
        lemma_targets_total_push(keys.drop_last(), targets, t);
        assert(targets.push(t).drop_last() =~= targets);
    }
}

/// Files with distinct components that cover every target hold each target
/// exactly once.
proof fn lemma_targets_held_once(keys: Seq<Seq<char>>, targets: Seq<(Seq<char>, LspRange)>)
    requires
        forall|i: int, j: int| 0 <= i < j < keys.len() ==> path_parts(#[trigger] keys[i]) != path_parts(#[trigger] keys[j]),
        forall|k: int| 0 <= k < targets.len() ==> has_parts(keys, (#[trigger] targets[k]).0),
    ensures
        targets_total(keys, targets) == targets.len(),
    decreases targets.len(),
{
    if targets.len() == 0 {
        lemma_targets_total_empty(keys, targets);
    } else {
        let p = targets.drop_last();
        assert forall|k: int| 0 <= k < p.len() implies has_parts(keys, (#[trigger] p[k]).0) by {
            assert(p[k] == targets[k]);
        }
        lemma_targets_held_once(keys, p);
        assert(p.push(targets.last()) =~= targets);
        lemma_targets_total_push(keys, p, targets.last());
        assert(has_parts(keys, targets[targets.len() - 1].0));
        lemma_parts_count_once(keys, targets.last().0);
    }
}

/// No target, no count.
proof fn lemma_targets_total_empty(keys: Seq<Seq<char>>, targets: Seq<(Seq<char>, LspRange)>)
    requires
        targets.len() == 0,
    ensures
        targets_total(keys, targets) == 0,
    decreases keys.len(),
{
    if keys.len() > 0 {
        lemma_targets_total_empty(keys.drop_last(), targets);
    }
}


/// The jobs of `file_semantic_work_items` hold every target exactly once:
/// over the jobs' files, the reference targets add up to all reference
/// targets, and the call targets to all call targets.
pub proof fn lemma_work_items_hold_each_target_once(
    files: Seq<Seq<char>>,
    reference_targets: Seq<(Seq<char>, LspRange)>,
    call_targets: Seq<(Seq<char>, LspRange)>,
)
    requires
        sorted_unique_paths(files, target_paths(reference_targets) + target_paths(call_targets)),
    ensures
        targets_total(files, reference_targets) == reference_targets.len(),
        targets_total(files, call_targets) == call_targets.len(),
{
    let all = target_paths(reference_targets) + target_paths(call_targets);
    assert forall|i: int, j: int| 0 <= i < j < files.len() implies path_parts(#[trigger] files[i]) != path_parts(
        #[trigger] files[j],
    ) by {
        assert(crate::paths::path_less(files[i], files[j]));
        crate::paths::lemma_parts_less_total(path_parts(files[i]), path_parts(files[j]));
    }
    assert forall|k: int| 0 <= k < reference_targets.len() implies has_parts(files, (#[trigger] reference_targets[k]).0) by {
        assert(all[k] == reference_targets[k].0);
        assert(has_parts(files, all[k]));
    }
    assert forall|k: int| 0 <= k < call_targets.len() implies has_parts(files, (#[trigger] call_targets[k]).0) by {
        let n = reference_targets.len() as int;
        assert(all[n + k] == call_targets[k].0);
        assert(has_parts(files, all[n + k]));
    }
    lemma_targets_held_once(files, reference_targets);
    lemma_targets_held_once(files, call_targets);
}

} // verus!
