//! The orchestrator's decisions, as pure functions over plain values.
//!
//! The surrounding program enumerates directories, runs the external
//! tools and writes artifacts; every decision in between — what to
//! build, what descriptor to build it with, what each toolchain
//! outcome means, and what to commit — stands here. A run with no
//! surviving entry is a no-op success, which makes repeated
//! invocations cheap and idempotent. Any stage failure aborts all
//! remaining stages; a binary and its marker are only ever handed
//! back together, as one commit item.
use vstd::prelude::*;

use crate::entries::Entry;
use crate::entries::SourceFile;
use crate::entries::binary_name_of;
use crate::entries::collect_entries;
use crate::entries::entry_describes;
use crate::entries::has_source_ext;
use crate::entries::marker_present;
use crate::entries::spec_collect;
use crate::entries::stem_of;
use crate::entries::survives;
use crate::errors::PipelineError;
use crate::fingerprint::spec_fingerprint;
use crate::manifest::Manifest;
use crate::manifest::is_identifier;
use crate::manifest::manifest_describes;
use crate::manifest::synthesize_manifest;
use crate::manifest::unit_names_valid;
use crate::postprocess::post_process_module;
use crate::postprocess::spec_post_process;
use crate::wasm::copy_range;

verus! {

/// What one run must build: the surviving entries and the descriptor
/// synthesized for them.
pub struct BuildPlan {
    /// The entries that still have to be built, in scan order.
    pub entries: Vec<Entry>,
    /// The build descriptor of the run.
    pub manifest: Manifest,
}

/// The decision a run starts with.
pub enum RunPlan {
    /// Every recognized source file is already committed and valid:
    /// the run is a no-op success and invokes no tool.
    UpToDate,
    /// Something has to be built.
    Build(BuildPlan),
}

/// One normalized binary together with its cache marker, committed as
/// a pair: neither half is ever handed back without the other.
pub struct CommitItem {
    /// The name of the binary artifact in the output directory.
    pub binary_name: Vec<u8>,
    /// The normalized binary's bytes.
    pub binary: Vec<u8>,
    /// The name of the zero-byte cache marker: the entry's
    /// fingerprint.
    pub marker_name: Vec<u8>,
}

/// Whether every surviving file's stem is a valid identifier and no
/// two survivors share one.
pub open spec fn survivor_names_valid(survivors: Seq<SourceFile>) -> bool {
    &&& forall|i: int| 0 <= i < survivors.len() ==> is_identifier(
        stem_of((#[trigger] survivors[i]).name@),
    )
    &&& forall|i: int, j: int|
        0 <= i < j < survivors.len() ==> stem_of((#[trigger] survivors[i]).name@) != stem_of((
        #[trigger] survivors[j]).name@)
}

/// Decide what a run must do, from the source directory listing, the
/// markers already present, and the two resolved dependency paths.
/// With no surviving entry the run is up to date; otherwise the plan
/// carries one entry per survivor, in scan order, and the descriptor
/// for them. Fails with a configuration error exactly where a
/// survivor's stem is not a valid identifier or two survivors share
/// one.
pub fn plan_run(
    files: &Vec<SourceFile>,
    markers: &Vec<Vec<u8>>,
    uapi_path: Vec<u8>,
    common_path: Vec<u8>,
) -> (r: Result<RunPlan, PipelineError>)
    ensures
        ({
            let survivors = spec_collect(files@, markers@);
            &&& survivors.len() == 0 ==> r is Ok && r->Ok_0 is UpToDate
            &&& survivors.len() > 0 ==> (r is Ok <==> survivor_names_valid(survivors))
            &&& survivors.len() > 0 && r is Ok ==> {
                let plan = r->Ok_0->Build_0;
                &&& r->Ok_0 is Build
                &&& plan.entries@.len() == survivors.len()
                &&& forall|i: int|
                    0 <= i < survivors.len() ==> entry_describes(
                        #[trigger] plan.entries@[i],
                        survivors[i],
                    )
                &&& manifest_describes(plan.manifest, plan.entries@, uapi_path@, common_path@)
            }
            &&& r is Err ==> r == Err::<RunPlan, PipelineError>(PipelineError::Configuration)
        }),
{
    let ghost survivors = spec_collect(files@, markers@);
    let entries = collect_entries(files, markers);
    if entries.len() == 0 {
        return Ok(RunPlan::UpToDate);
    }
    proof {
        assert forall|i: int| 0 <= i < entries@.len() implies (#[trigger] entries@[i]).unit_name@
            == stem_of(survivors[i].name@) by {
            assert(entry_describes(entries@[i], survivors[i]));
        }
    }
    match synthesize_manifest(&entries, uapi_path, common_path) {
        Ok(manifest) => {
            proof {
                assert(unit_names_valid(entries@));
                assert forall|i: int| 0 <= i < survivors.len() implies is_identifier(
                    stem_of((#[trigger] survivors[i]).name@),
                ) by {
                    assert(is_identifier(entries@[i].unit_name@));
                }
            }
            Ok(RunPlan::Build(BuildPlan { entries, manifest }))
        },
        Err(e) => {
            proof {
                assert(!unit_names_valid(entries@));
                if survivor_names_valid(survivors) {
                    assert forall|i: int| 0 <= i < entries@.len() implies is_identifier(
                        (#[trigger] entries@[i]).unit_name@,
                    ) by {
                        assert(is_identifier(stem_of(survivors[i].name@)));
                    }
                    assert forall|i: int, j: int|
                        0 <= i < j < entries@.len() implies (#[trigger] entries@[i]).unit_name@
                        != (#[trigger] entries@[j]).unit_name@ by {
                        assert(stem_of(survivors[i].name@) != stem_of(survivors[j].name@));
                    }
                }
            }
            Err(e)
        },
    }
}

/// Normalize every compiled unit and pair it with its marker. Fails
/// with a post-process error exactly where some compiled module
/// cannot be parsed; on success the items stand in entry order, each
/// holding the unit's binary name, its normalized bytes and its
/// fingerprint marker name.
pub fn finalize_outputs(entries: &Vec<Entry>, compiled: &Vec<Vec<u8>>) -> (r: Result<
    Vec<CommitItem>,
    PipelineError,
>)
    requires
        compiled@.len() == entries@.len(),
    ensures
        r is Ok <==> (forall|i: int|
            0 <= i < compiled@.len() ==> spec_post_process((#[trigger] compiled@[i])@) is Some),
        r is Ok ==> ({
            let items = r->Ok_0;
            &&& items@.len() == entries@.len()
            &&& forall|i: int|
                0 <= i < items@.len() ==> {
                    let item = #[trigger] items@[i];
                    &&& item.binary_name@ == binary_name_of(entries@[i].unit_name@)
                    &&& item.binary@ == spec_post_process(compiled@[i]@)->Some_0
                    &&& item.marker_name@ == entries@[i].fingerprint@
                }
        }),
        r is Err ==> r == Err::<Vec<CommitItem>, PipelineError>(PipelineError::PostProcess),
{
    let mut items: Vec<CommitItem> = Vec::new();
    let mut i: usize = 0;
    while i < entries.len()
        invariant
            i <= entries@.len(),
            compiled@.len() == entries@.len(),
            items@.len() == i,
            forall|j: int|
                0 <= j < i ==> spec_post_process((#[trigger] compiled@[j])@) is Some,
            forall|j: int|
                0 <= j < i ==> {
                    let item = #[trigger] items@[j];
                    &&& item.binary_name@ == binary_name_of(entries@[j].unit_name@)
                    &&& item.binary@ == spec_post_process(compiled@[j]@)->Some_0
                    &&& item.marker_name@ == entries@[j].fingerprint@
                },
        decreases entries.len() - i,
    {
        let binary = match post_process_module(&compiled[i]) {
            Ok(b) => b,
            Err(_) => {
                return Err(PipelineError::PostProcess);
            },
        };
        let e = &entries[i];
        let binary_name = e.out_binary_name();
        let marker_name = copy_range(&e.fingerprint, 0, e.fingerprint.len());
        proof {
            assert(e.fingerprint@.subrange(0, e.fingerprint@.len() as int) =~= e.fingerprint@);
        }
        items.push(CommitItem { binary_name, binary, marker_name });
        i += 1;
    }
    Ok(items)
}

/// The key that declares a workspace in a manifest: "[workspace]".
pub open spec fn workspace_key() -> Seq<u8> {
    seq![0x5Bu8, 0x77u8, 0x6Fu8, 0x72u8, 0x6Bu8, 0x73u8, 0x70u8, 0x61u8, 0x63u8, 0x65u8, 0x5Du8]
}

/// Whether a manifest's text declares a workspace: it holds the
/// workspace key somewhere.
pub open spec fn declares_workspace(text: Seq<u8>) -> bool {
    exists|i: int|
        0 <= i && i + workspace_key().len() <= text.len() && #[trigger] text.subrange(
            i,
            i + workspace_key().len(),
        ) == workspace_key()
}

/// Whether the key stands in the text at the given position.
fn range_matches(text: &Vec<u8>, i: usize, key: &Vec<u8>) -> (r: bool)
    requires
        i + key@.len() <= text@.len(),
    ensures
        r == (text@.subrange(i as int, i + key@.len()) == key@),
{
    let n = text.len();
    let m = key.len();
    let mut j: usize = 0;
    while j < m
        invariant
            m == key@.len(),
            n == text@.len(),
            i + m <= n,
            j <= m,
            forall|q: int| 0 <= q < j ==> text@[i + q] == #[trigger] key@[q],
        decreases m - j,
    {
        if text[i + j] != key[j] {
            proof {
                assert(text@.subrange(i as int, i + key@.len())[j as int] == text@[i + j]);
                assert(text@.subrange(i as int, i + key@.len()) != key@);
            }
            return false;
        }
        j += 1;
    }
    proof {
        assert(text@.subrange(i as int, i + key@.len()) =~= key@);
    }
    true
}

/// Whether a manifest's text declares a workspace. The walk up the
/// ancestor directories reads each manifest and stops at the first
/// one for which this holds.
pub fn is_workspace_manifest(text: &Vec<u8>) -> (r: bool)
    ensures
        r == declares_workspace(text@),
{
    let mut key: Vec<u8> = Vec::new();
    key.push(0x5B);
    key.push(0x77);
    key.push(0x6F);
    key.push(0x72);
    key.push(0x6B);
    key.push(0x73);
    key.push(0x70);
    key.push(0x61);
    key.push(0x63);
    key.push(0x65);
    key.push(0x5D);
    proof {
        assert(key@ =~= workspace_key());
    }
    let n = text.len();
    if n < key.len() {
        proof {
            assert(!declares_workspace(text@));
        }
        return false;
    }
    let last_start = n - key.len();
    let mut i: usize = 0;
    while i <= last_start
        invariant
            key@ == workspace_key(),
            key@.len() == 11,
            n == text@.len(),
            i <= last_start + 1,
            last_start + key@.len() == n,
            forall|p: int|
                0 <= p < i ==> #[trigger] text@.subrange(p, p + workspace_key().len())
                    != workspace_key(),
        decreases last_start + 1 - i,
    {
        if range_matches(text, i, &key) {
            return true;
        }
        i += 1;
    }
    proof {
        assert(!declares_workspace(text@));
    }
    false
}

/// Idempotence: where every recognized source file's fingerprint
/// already has a marker — as after one successful run over unchanged
/// sources — the collector keeps nothing, the run is a no-op and no
/// toolchain invocation happens.
pub proof fn lemma_idempotent_second_run(files: Seq<SourceFile>, markers: Seq<Vec<u8>>)
    requires
        forall|i: int|
            0 <= i < files.len() && has_source_ext((#[trigger] files[i]).name@) ==> marker_present(
                markers,
                spec_fingerprint(files[i].contents@),
            ),
    ensures
        spec_collect(files, markers).len() == 0,
    decreases files.len(),
{
    if files.len() > 0 {
        assert(!survives(files[0], markers));
        assert(forall|i: int|
            0 <= i < files.drop_first().len() ==> #[trigger] files.drop_first()[i] == files[i
                + 1]);
        lemma_idempotent_second_run(files.drop_first(), markers);
    }
}

/// Fingerprint sensitivity: where exactly one source file's content
/// changed — and its new fingerprint has no marker yet — exactly
/// that unit survives the next run's filtering; every other unit
/// stays filtered out.
pub proof fn lemma_single_change_survives(
    before: Seq<SourceFile>,
    after: Seq<SourceFile>,
    markers: Seq<Vec<u8>>,
    p: int,
)
    requires
        before.len() == after.len(),
        0 <= p < before.len(),
        forall|i: int| 0 <= i < before.len() && i != p ==> #[trigger] after[i] == before[i],
        after[p].name@ == before[p].name@,
        has_source_ext(after[p].name@),
        forall|i: int|
            0 <= i < before.len() && has_source_ext((#[trigger] before[i]).name@)
                ==> marker_present(markers, spec_fingerprint(before[i].contents@)),
        !marker_present(markers, spec_fingerprint(after[p].contents@)),
    ensures
        spec_collect(after, markers) == seq![after[p]],
    decreases p,
{
    if p == 0 {
        assert(survives(after[0], markers));
        assert(forall|i: int|
            0 <= i < after.drop_first().len() ==> #[trigger] after.drop_first()[i] == before[i
                + 1]);
        lemma_idempotent_second_run(after.drop_first(), markers);
        assert(spec_collect(after.drop_first(), markers) =~= Seq::<SourceFile>::empty());
        assert(spec_collect(after, markers) =~= seq![after[0]]);
    } else {
        assert(after[0] == before[0]);
        assert(!survives(after[0], markers));
        assert(forall|i: int|
            0 <= i < after.drop_first().len() && i != p - 1 ==> #[trigger] after.drop_first()[i]
                == before.drop_first()[i]);
        assert(after.drop_first()[p - 1] == after[p]);
        assert(before.drop_first()[p - 1] == before[p]);
        assert(forall|i: int|
            0 <= i < before.drop_first().len() ==> #[trigger] before.drop_first()[i] == before[i
                + 1]);
        lemma_single_change_survives(before.drop_first(), after.drop_first(), markers, p - 1);
    }
}

} // verus!
