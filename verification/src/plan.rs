//! The scan snapshot and the eligibility filter that turns it into the
//! ordered work list.
//!
//! The scanner walks the tree once and hands in every entry it reached, as a
//! root-relative path plus the result of the metadata lookup. The filter
//! keeps an entry when it is a regular file, stands in no hidden component,
//! carries an allowed extension, and has no compressed sibling in the
//! snapshot. The work list keeps the scan's order and is fixed before any
//! compression begins.

use vstd::prelude::*;

use crate::paths::artifact_path;
use crate::paths::artifact_path_of;
use crate::paths::bytes_equal;
use crate::paths::copy_bytes;
use crate::paths::has_allowed_extension;
use crate::paths::has_hidden_component;
use crate::paths::lemma_artifact_not_wanted;
use crate::paths::path_has_hidden_component;
use crate::paths::wants_compression;
use crate::paths::wf_path;

verus! {

/// One entry of the scan snapshot: a root-relative path and whether the
/// metadata lookup confirmed a regular file. Entries whose metadata could
/// not be read arrive with `is_file` false, or not at all; either way they
/// are dropped.
pub struct ScanEntry {
    pub path: Vec<u8>,
    pub is_file: bool,
}

/// The mathematical shape of a snapshot entry.
pub struct EntryModel {
    pub path: Seq<u8>,
    pub is_file: bool,
}

impl View for ScanEntry {
    type V = EntryModel;

    open spec fn view(&self) -> EntryModel {
        EntryModel { path: self.path@, is_file: self.is_file }
    }
}

/// The snapshot as mathematical values.
pub open spec fn snapshot_view(s: Seq<ScanEntry>) -> Seq<EntryModel> {
    s.map_values(|e: ScanEntry| e@)
}

/// The work list as mathematical values.
pub open spec fn work_list_view(s: Seq<Vec<u8>>) -> Seq<Seq<u8>> {
    s.map_values(|v: Vec<u8>| v@)
}

/// The snapshot holds an entry with this exact path, file or not.
pub open spec fn snapshot_has_path(snap: Seq<EntryModel>, p: Seq<u8>) -> bool {
    exists|i: int| 0 <= i < snap.len() && snap[i].path == p
}

/// The eligibility decision for one entry against the whole snapshot: a
/// regular file, in no hidden component, of an allowed asset type, and with
/// no compressed sibling already present.
pub open spec fn eligible(e: EntryModel, snap: Seq<EntryModel>) -> bool {
    &&& e.is_file
    &&& !has_hidden_component(e.path)
    &&& wants_compression(e.path)
    &&& !snapshot_has_path(snap, artifact_path_of(e.path))
}

/// The eligibility decision against a fixed snapshot, as a predicate on
/// entries.
pub open spec fn eligible_in(snap: Seq<EntryModel>) -> spec_fn(EntryModel) -> bool {
    |e: EntryModel| eligible(e, snap)
}

/// The paths of a run of entries, in order.
pub open spec fn paths_of(s: Seq<EntryModel>) -> Seq<Seq<u8>> {
    s.map_values(|e: EntryModel| e.path)
}

/// The work list: the paths of the eligible entries, in scan order.
pub open spec fn work_list(snap: Seq<EntryModel>) -> Seq<Seq<u8>> {
    paths_of(snap.filter(eligible_in(snap)))
}

/// Taking paths distributes over appending one entry.
proof fn lemma_paths_of_push(s: Seq<EntryModel>, e: EntryModel)
    ensures
        paths_of(s.push(e)) == paths_of(s).push(e.path),
{
    assert(paths_of(s.push(e)) =~= paths_of(s).push(e.path));
}

/// Taking views distributes over appending one item.
proof fn lemma_work_list_view_push(s: Seq<Vec<u8>>, v: Vec<u8>)
    ensures
        work_list_view(s.push(v)) == work_list_view(s).push(v@),
{
    assert(work_list_view(s.push(v)) =~= work_list_view(s).push(v@));
}

/// Decides whether the snapshot holds an entry with this exact path.
fn snapshot_contains(entries: &Vec<ScanEntry>, p: &Vec<u8>) -> (r: bool)
    ensures
        r == snapshot_has_path(snapshot_view(entries@), p@),
{
    let ghost snap = snapshot_view(entries@);
    let n = entries.len();
    let mut i: usize = 0;
    while i < n
        invariant
            0 <= i <= n,
            n == entries@.len(),
            snap == snapshot_view(entries@),
            forall|k: int| 0 <= k < i ==> snap[k].path != p@,
        decreases n - i,
    {
        if bytes_equal(&entries[i].path, p) {
            proof {
                assert(snap[i as int].path == p@);
            }
            return true;
        }
        i = i + 1;
    }
    false
}

/// Materializes the work list from the scan snapshot: the paths of the
/// eligible entries, in scan order.
pub fn build_work_list(entries: &Vec<ScanEntry>) -> (r: Vec<Vec<u8>>)
    ensures
        work_list_view(r@) == work_list(snapshot_view(entries@)),
{
    let ghost snap = snapshot_view(entries@);
    let n = entries.len();
    let mut out: Vec<Vec<u8>> = Vec::new();
    let mut i: usize = 0;
    while i < n
        invariant
            0 <= i <= n,
            n == entries@.len(),
            snap == snapshot_view(entries@),
            work_list_view(out@) == paths_of(snap.take(i as int).filter(eligible_in(snap))),
        decreases n - i,
    {
        let e = &entries[i];
        let included = e.is_file && !path_has_hidden_component(&e.path) && has_allowed_extension(
            &e.path,
        ) && !snapshot_contains(entries, &artifact_path(&e.path));
        proof {
            assert(snap[i as int] == entries@[i as int]@);
            assert(included == eligible_in(snap)(snap[i as int]));
            assert(snap.take(i + 1) =~= snap.take(i as int).push(snap[i as int]));
            snap.take(i as int).lemma_filter_push(snap[i as int], eligible_in(snap));
        }
        if included {
            let ghost old_out = out@;
            let item = copy_bytes(&e.path);
            out.push(item);
            proof {
                assert(snap.take(i + 1).filter(eligible_in(snap)) == snap.take(
                    i as int,
                ).filter(eligible_in(snap)).push(snap[i as int]));
                lemma_work_list_view_push(old_out, item);
                lemma_paths_of_push(
                    snap.take(i as int).filter(eligible_in(snap)),
                    snap[i as int],
                );
            }
        } else {
            proof {
                assert(snap.take(i + 1).filter(eligible_in(snap)) == snap.take(
                    i as int,
                ).filter(eligible_in(snap)));
            }
        }
        i = i + 1;
    }
    proof {
        assert(snap.take(n as int) =~= snap);
    }
    out
}

/// Law: every item of the work list carries an extension from the
/// allow-list; a file of any other type never reaches the work list.
pub proof fn lemma_work_list_allowed(snap: Seq<EntryModel>)
    ensures
        forall|k: int|
            0 <= k < work_list(snap).len() ==> wants_compression(
                #[trigger] work_list(snap)[k],
            ),
{
    assert forall|k: int|
        0 <= k < work_list(snap).len() implies wants_compression(work_list(snap)[k]) by {
        snap.lemma_filter_pred(eligible_in(snap), k);
    }
}

/// Law: no item of the work list stands in a hidden component; a hidden
/// file, or anything under a hidden directory, never reaches the work list.
pub proof fn lemma_work_list_no_hidden(snap: Seq<EntryModel>)
    ensures
        forall|k: int|
            0 <= k < work_list(snap).len() ==> !has_hidden_component(
                #[trigger] work_list(snap)[k],
            ),
{
    assert forall|k: int|
        0 <= k < work_list(snap).len() implies !has_hidden_component(work_list(snap)[k]) by {
        snap.lemma_filter_pred(eligible_in(snap), k);
    }
}

/// Law: no item of the work list has a compressed sibling anywhere in the
/// snapshot, whatever that sibling holds; a candidate with a pre-existing
/// artifact is excluded.
pub proof fn lemma_work_list_no_artifact(snap: Seq<EntryModel>)
    ensures
        forall|k: int|
            0 <= k < work_list(snap).len() ==> !snapshot_has_path(
                snap,
                artifact_path_of(#[trigger] work_list(snap)[k]),
            ),
{
    assert forall|k: int|
        0 <= k < work_list(snap).len() implies !snapshot_has_path(
        snap,
        artifact_path_of(work_list(snap)[k]),
    ) by {
        snap.lemma_filter_pred(eligible_in(snap), k);
    }
}

/// Every eligible entry's path does reach the work list.
pub proof fn lemma_work_list_complete(snap: Seq<EntryModel>, i: int)
    requires
        0 <= i < snap.len(),
        eligible(snap[i], snap),
    ensures
        work_list(snap).contains(snap[i].path),
{
    snap.lemma_filter_contains(eligible_in(snap), i);
    let flt = snap.filter(eligible_in(snap));
    let j = choose|j: int| 0 <= j < flt.len() && flt[j] == snap[i];
    assert(work_list(snap)[j] == snap[i].path);
}

/// Every work-list item is the path of an eligible snapshot entry.
pub proof fn lemma_work_list_member(snap: Seq<EntryModel>, q: Seq<u8>)
    requires
        work_list(snap).contains(q),
    ensures
        exists|i: int|
            0 <= i < snap.len() && (#[trigger] snap[i]).path == q && eligible(snap[i], snap),
{
    let flt = snap.filter(eligible_in(snap));
    let k = choose|k: int| 0 <= k < work_list(snap).len() && work_list(snap)[k] == q;
    assert(flt.contains(flt[k]));
    snap.lemma_filter_contains_rev(eligible_in(snap), flt[k]);
    snap.lemma_filter_pred(eligible_in(snap), k);
    let i = choose|i: int| 0 <= i < snap.len() && snap[i] == flt[k];
    assert(snap[i].path == q && eligible(snap[i], snap));
}

/// The path is the compressed artifact of some item of the first run's work
/// list.
pub open spec fn is_first_run_artifact(p: Seq<u8>, snap1: Seq<EntryModel>) -> bool {
    exists|q: Seq<u8>| work_list(snap1).contains(q) && p == artifact_path_of(q)
}

/// Law: running the pipeline twice over an unchanged tree produces no new
/// work. If the second scan sees exactly the first tree plus the artifacts
/// the first run produced — nothing was removed, every first-run item's
/// artifact now exists, and every new entry is such an artifact — then the
/// second work list is empty.
pub proof fn lemma_second_run_empty(snap1: Seq<EntryModel>, snap2: Seq<EntryModel>)
    requires
        forall|i: int| 0 <= i < snap1.len() ==> wf_path((#[trigger] snap1[i]).path),
        forall|i: int|
            0 <= i < snap2.len() ==> snap1.contains(#[trigger] snap2[i])
                || is_first_run_artifact(snap2[i].path, snap1),
        forall|i: int|
            0 <= i < snap1.len() ==> snapshot_has_path(snap2, (#[trigger] snap1[i]).path),
        forall|q: Seq<u8>|
            #[trigger] work_list(snap1).contains(q) ==> snapshot_has_path(
                snap2,
                artifact_path_of(q),
            ),
    ensures
        work_list(snap2).len() == 0,
{
    let flt = snap2.filter(eligible_in(snap2));
    if work_list(snap2).len() > 0 {
        let x = flt[0];
        snap2.lemma_filter_pred(eligible_in(snap2), 0);
        assert(eligible(x, snap2));
        assert(flt.contains(x));
        snap2.lemma_filter_contains_rev(eligible_in(snap2), x);
        let i2 = choose|i: int| 0 <= i < snap2.len() && snap2[i] == x;
        assert(snap1.contains(snap2[i2]) || is_first_run_artifact(snap2[i2].path, snap1));
        if snap1.contains(x) {
            let i1 = choose|i: int| 0 <= i < snap1.len() && snap1[i] == x;
            assert(!snapshot_has_path(snap1, artifact_path_of(x.path))) by {
                if snapshot_has_path(snap1, artifact_path_of(x.path)) {
                    let j = choose|j: int|
                        0 <= j < snap1.len() && snap1[j].path == artifact_path_of(x.path);
                    assert(snapshot_has_path(snap2, snap1[j].path));
                }
            }
            assert(eligible(snap1[i1], snap1));
            lemma_work_list_complete(snap1, i1);
            assert(snapshot_has_path(snap2, artifact_path_of(x.path)));
            assert(false);
        } else {
            let q = choose|q: Seq<u8>|
                work_list(snap1).contains(q) && x.path == artifact_path_of(q);
            lemma_work_list_member(snap1, q);
            let iq = choose|i: int|
                0 <= i < snap1.len() && (#[trigger] snap1[i]).path == q && eligible(
                    snap1[i],
                    snap1,
                );
            assert(wf_path(q));
            lemma_artifact_not_wanted(q);
            assert(false);
        }
    }
}

} // verus!
