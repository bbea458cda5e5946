//! The ephemeral build descriptor of one run.
//!
//! It lists one binary compilation unit per surviving entry, the two
//! fixed internal library dependencies resolved against the workspace
//! layout, and the size-optimized release profile. It is materialized
//! into the scratch directory and never outlives the run. A unit name
//! that is not a valid identifier, or that collides with another, is
//! a configuration error.
use vstd::prelude::*;

use crate::entries::Entry;
use crate::entries::bytes_eq;
use crate::errors::PipelineError;

verus! {

/// One binary compilation target of the descriptor.
pub struct ManifestUnit {
    /// The unit's name.
    pub name: Vec<u8>,
    /// The path of the unit's source file.
    pub source: Vec<u8>,
}

/// The build descriptor of one run.
pub struct Manifest {
    /// One compilation target per surviving entry, in order.
    pub units: Vec<ManifestUnit>,
    /// The resolved path of the first fixed internal dependency.
    pub uapi_path: Vec<u8>,
    /// The resolved path of the second fixed internal dependency.
    pub common_path: Vec<u8>,
    /// The release profile's optimization level: maximal.
    pub opt_level: u8,
    /// Whether the release profile uses link-time optimization.
    pub lto: bool,
    /// The release profile's count of code-generation units.
    pub codegen_units: u8,
}

/// Whether a byte may start an identifier: a letter or an underscore.
pub open spec fn is_ident_start(b: u8) -> bool {
    (0x41 <= b <= 0x5A) || (0x61 <= b <= 0x7A) || b == 0x5F
}

/// Whether a byte may continue an identifier: a letter, a digit or an
/// underscore.
pub open spec fn is_ident_char(b: u8) -> bool {
    is_ident_start(b) || (0x30 <= b <= 0x39)
}

/// Whether a name is a valid identifier.
pub open spec fn is_identifier(name: Seq<u8>) -> bool {
    &&& name.len() > 0
    &&& is_ident_start(name[0])
    &&& forall|i: int| 0 <= i < name.len() ==> is_ident_char(#[trigger] name[i])
}

/// Whether every entry's unit name is a valid identifier and no two
/// entries share one.
pub open spec fn unit_names_valid(entries: Seq<Entry>) -> bool {
    &&& forall|i: int| 0 <= i < entries.len() ==> is_identifier(
        (#[trigger] entries[i]).unit_name@,
    )
    &&& forall|i: int, j: int|
        0 <= i < j < entries.len() ==> (#[trigger] entries[i]).unit_name@ != (
        #[trigger] entries[j]).unit_name@
}

/// Whether a manifest describes the given entries and dependency
/// paths: one unit per entry in order, the resolved paths, and the
/// fixed size-optimized release profile.
pub open spec fn manifest_describes(
    m: Manifest,
    entries: Seq<Entry>,
    uapi_path: Seq<u8>,
    common_path: Seq<u8>,
) -> bool {
    &&& m.units@.len() == entries.len()
    &&& forall|i: int|
        0 <= i < entries.len() ==> (#[trigger] m.units@[i]).name@ == entries[i].unit_name@
            && m.units@[i].source@ == entries[i].file_name@
    &&& m.uapi_path@ == uapi_path
    &&& m.common_path@ == common_path
    &&& m.opt_level == 3
    &&& m.lto == true
    &&& m.codegen_units == 1
}

/// Whether a name is a valid identifier.
pub fn check_identifier(name: &Vec<u8>) -> (r: bool)
    ensures
        r == is_identifier(name@),
{
    if name.len() == 0 {
        return false;
    }
    let b0 = name[0];
    if !((0x41 <= b0 && b0 <= 0x5A) || (0x61 <= b0 && b0 <= 0x7A) || b0 == 0x5F) {
        return false;
    }
    let mut i: usize = 0;
    while i < name.len()
        invariant
            i <= name.len(),
            forall|j: int| 0 <= j < i ==> is_ident_char(#[trigger] name@[j]),
        decreases name.len() - i,
    {
        let b = name[i];
        if !((0x41 <= b && b <= 0x5A) || (0x61 <= b && b <= 0x7A) || b == 0x5F || (0x30 <= b && b
            <= 0x39)) {
            return false;
        }
        i += 1;
    }
    true
}

/// Synthesize the build descriptor for the surviving entries, against
/// the already-resolved dependency paths. Fails with a configuration
/// error exactly where a unit name is not a valid identifier or two
/// entries share one.
pub fn synthesize_manifest(entries: &Vec<Entry>, uapi_path: Vec<u8>, common_path: Vec<u8>) -> (r:
    Result<Manifest, PipelineError>)
    ensures
        r is Ok <==> unit_names_valid(entries@),
        r is Ok ==> manifest_describes(r->Ok_0, entries@, uapi_path@, common_path@),
        r is Err ==> r == Err::<Manifest, PipelineError>(PipelineError::Configuration),
{
    let mut units: Vec<ManifestUnit> = Vec::new();
    let mut i: usize = 0;
    while i < entries.len()
        invariant
            i <= entries.len(),
            units@.len() == i,
            forall|j: int|
                0 <= j < i ==> (#[trigger] units@[j]).name@ == entries@[j].unit_name@
                    && units@[j].source@ == entries@[j].file_name@,
            forall|j: int| 0 <= j < i ==> is_identifier((#[trigger] entries@[j]).unit_name@),
            forall|j: int, k: int|
                0 <= j < k < i ==> (#[trigger] entries@[j]).unit_name@ != (
                #[trigger] entries@[k]).unit_name@,
        decreases entries.len() - i,
    {
        let e = &entries[i];
        if !check_identifier(&e.unit_name) {
            return Err(PipelineError::Configuration);
        }
        let mut j: usize = 0;
        while j < i
            invariant
                j <= i < entries@.len(),
                forall|k: int| 0 <= k < j ==> (#[trigger] entries@[k]).unit_name@ != entries@[i
                    as int].unit_name@,
            decreases i - j,
        {
            if bytes_eq(&entries[j].unit_name, &entries[i].unit_name) {
                return Err(PipelineError::Configuration);
            }
            j += 1;
        }
        let mut name: Vec<u8> = Vec::new();
        let mut source: Vec<u8> = Vec::new();
        let mut p: usize = 0;
        while p < e.unit_name.len()
            invariant
                p <= e.unit_name.len(),
                name@ == e.unit_name@.take(p as int),
            decreases e.unit_name.len() - p,
        {
            name.push(e.unit_name[p]);
            proof {
                assert(name@ =~= e.unit_name@.take(p + 1));
            }
            p += 1;
        }
        proof {
            assert(name@ =~= e.unit_name@);
        }
        let mut p: usize = 0;
        while p < e.file_name.len()
            invariant
                p <= e.file_name.len(),
                source@ == e.file_name@.take(p as int),
            decreases e.file_name.len() - p,
        {
            source.push(e.file_name[p]);
            proof {
                assert(source@ =~= e.file_name@.take(p + 1));
            }
            p += 1;
        }
        proof {
            assert(source@ =~= e.file_name@);
        }
        units.push(ManifestUnit { name, source });
        i += 1;
    }
    Ok(
        Manifest {
            units,
            uapi_path,
            common_path,
            opt_level: 3,
            lto: true,
            codegen_units: 1,
        },
    )
}

} // verus!
