//! Toolchain orchestration: the fixed compiler flags and the
//! interpretation of each external invocation's outcome.
//!
//! The flags go to the compiler through an out-of-band channel as one
//! value, joined by a non-whitespace delimiter, so no argument ever
//! has to be escaped. Both invocations are fatal on failure: the
//! captured diagnostic text is surfaced to the caller and no later
//! stage runs.
use vstd::prelude::*;

use crate::errors::PipelineError;

verus! {

/// The delimiter of the out-of-band flag channel: the unit separator
/// byte.
pub const FLAG_SEPARATOR: u8 = 0x1F;

/// The bounded stack size flag: "-Clink-arg=-zstack-size=65536".
pub open spec fn flag_stack_size() -> Seq<u8> {
    seq![0x2Du8, 0x43u8, 0x6Cu8, 0x69u8, 0x6Eu8, 0x6Bu8, 0x2Du8, 0x61u8, 0x72u8, 0x67u8, 0x3Du8,
        0x2Du8, 0x7Au8, 0x73u8, 0x74u8, 0x61u8, 0x63u8, 0x6Bu8, 0x2Du8, 0x73u8, 0x69u8, 0x7Au8,
        0x65u8, 0x3Du8, 0x36u8, 0x35u8, 0x35u8, 0x33u8, 0x36u8]
}

/// The import-based memory model flag: "-Clink-arg=--import-memory".
pub open spec fn flag_import_memory() -> Seq<u8> {
    seq![0x2Du8, 0x43u8, 0x6Cu8, 0x69u8, 0x6Eu8, 0x6Bu8, 0x2Du8, 0x61u8, 0x72u8, 0x67u8, 0x3Du8,
        0x2Du8, 0x2Du8, 0x69u8, 0x6Du8, 0x70u8, 0x6Fu8, 0x72u8, 0x74u8, 0x2Du8, 0x6Du8, 0x65u8,
        0x6Du8, 0x6Fu8, 0x72u8, 0x79u8]
}

/// The link-time optimization flag: "-Clinker-plugin-lto".
pub open spec fn flag_linker_plugin_lto() -> Seq<u8> {
    seq![0x2Du8, 0x43u8, 0x6Cu8, 0x69u8, 0x6Eu8, 0x6Bu8, 0x65u8, 0x72u8, 0x2Du8, 0x70u8, 0x6Cu8,
        0x75u8, 0x67u8, 0x69u8, 0x6Eu8, 0x2Du8, 0x6Cu8, 0x74u8, 0x6Fu8]
}

/// The conservative baseline instruction-set flag: "-Ctarget-cpu=mvp".
pub open spec fn flag_target_cpu() -> Seq<u8> {
    seq![0x2Du8, 0x43u8, 0x74u8, 0x61u8, 0x72u8, 0x67u8, 0x65u8, 0x74u8, 0x2Du8, 0x63u8, 0x70u8,
        0x75u8, 0x3Du8, 0x6Du8, 0x76u8, 0x70u8]
}

/// The warnings-as-errors flag: "-Dwarnings".
pub open spec fn flag_deny_warnings() -> Seq<u8> {
    seq![0x2Du8, 0x44u8, 0x77u8, 0x61u8, 0x72u8, 0x6Eu8, 0x69u8, 0x6Eu8, 0x67u8, 0x73u8]
}

/// The fixed compiler flags, in order.
pub open spec fn spec_compiler_flags() -> Seq<Seq<u8>> {
    seq![
        flag_stack_size(),
        flag_import_memory(),
        flag_linker_plugin_lto(),
        flag_target_cpu(),
        flag_deny_warnings(),
    ]
}

/// The parts joined by one separator byte between neighbours.
pub open spec fn spec_join(parts: Seq<Seq<u8>>, sep: u8) -> Seq<u8>
    decreases parts.len(),
{
    if parts.len() == 0 {
        Seq::empty()
    } else if parts.len() == 1 {
        parts[0]
    } else {
        parts[0] + seq![sep] + spec_join(parts.drop_first(), sep)
    }
}

/// The views of a list of byte vectors.
pub open spec fn parts_view(parts: Seq<Vec<u8>>) -> Seq<Seq<u8>> {
    parts.map_values(|p: Vec<u8>| p@)
}

/// Joining one more part appends one separator and the part.
pub proof fn lemma_join_snoc(parts: Seq<Seq<u8>>, sep: u8, i: int)
    requires
        0 < i < parts.len(),
    ensures
        spec_join(parts.take(i + 1), sep) == spec_join(parts.take(i), sep) + seq![sep]
            + parts[i],
    decreases i,
{
    if i == 1 {
        let s2 = parts.take(2);
        assert(s2.len() == 2);
        assert(s2[0] == parts[0]);
        assert(s2.drop_first() =~= seq![parts[1]]);
        assert(spec_join(seq![parts[1]], sep) == parts[1]);
        assert(parts.take(1).len() == 1);
        assert(parts.take(1)[0] == parts[0]);
    } else {
        lemma_join_snoc(parts.drop_first(), sep, i - 1);
        assert(parts.take(i + 1).drop_first() =~= parts.drop_first().take(i));
        assert(parts.take(i).drop_first() =~= parts.drop_first().take(i - 1));
        assert(parts.take(i + 1)[0] == parts[0]);
        assert(parts.take(i)[0] == parts[0]);
        assert(parts.drop_first()[i - 1] == parts[i]);
        assert(parts.take(i + 1).len() == i + 1);
        assert(parts.take(i).len() == i);
        assert(spec_join(parts.take(i + 1), sep) =~= spec_join(parts.take(i), sep) + seq![sep]
            + parts[i]);
    }
}

/// Append every byte of a slice of a vector.
fn append_part(out: &mut Vec<u8>, part: &Vec<u8>)
    ensures
        final(out)@ == old(out)@ + part@,
{
    let mut i: usize = 0;
    while i < part.len()
        invariant
            i <= part.len(),
            out@ == old(out)@ + part@.take(i as int),
        decreases part.len() - i,
    {
        out.push(part[i]);
        proof {
            assert(out@ =~= old(out)@ + part@.take(i + 1));
        }
        i += 1;
    }
    proof {
        assert(old(out)@ + part@.take(part@.len() as int) =~= old(out)@ + part@);
    }
}

/// Join parts with one separator byte between neighbours.
pub fn join_parts(parts: &Vec<Vec<u8>>, sep: u8) -> (r: Vec<u8>)
    ensures
        r@ == spec_join(parts_view(parts@), sep),
{
    let ghost views = parts_view(parts@);
    let mut r: Vec<u8> = Vec::new();
    let mut i: usize = 0;
    while i < parts.len()
        invariant
            i <= parts.len(),
            views == parts_view(parts@),
            views.len() == parts@.len(),
            r@ == spec_join(views.take(i as int), sep),
        decreases parts.len() - i,
    {
        if i > 0 {
            r.push(sep);
        }
        append_part(&mut r, &parts[i]);
        proof {
            assert(views[i as int] == parts@[i as int]@);
            if i == 0 {
                assert(views.take(1).len() == 1);
                assert(views.take(1)[0] == views[0]);
                assert(r@ =~= spec_join(views.take(1), sep));
            } else {
                lemma_join_snoc(views, sep, i as int);
                assert(r@ =~= spec_join(views.take(i + 1), sep));
            }
        }
        i += 1;
    }
    proof {
        assert(views.take(views.len() as int) =~= views);
    }
    r
}

/// The fixed compiler flags, in order.
pub fn compiler_flags() -> (r: Vec<Vec<u8>>)
    ensures
        parts_view(r@) == spec_compiler_flags(),
{
    let mut r: Vec<Vec<u8>> = Vec::new();
    let mut v: Vec<u8> = Vec::new();
    v.push(0x2D);
    v.push(0x43);
    v.push(0x6C);
    v.push(0x69);
    v.push(0x6E);
    v.push(0x6B);
    v.push(0x2D);
    v.push(0x61);
    v.push(0x72);
    v.push(0x67);
    v.push(0x3D);
    v.push(0x2D);
    v.push(0x7A);
    v.push(0x73);
    v.push(0x74);
    v.push(0x61);
    v.push(0x63);
    v.push(0x6B);
    v.push(0x2D);
    v.push(0x73);
    v.push(0x69);
    v.push(0x7A);
    v.push(0x65);
    v.push(0x3D);
    v.push(0x36);
    v.push(0x35);
    v.push(0x35);
    v.push(0x33);
    v.push(0x36);
    proof {
        assert(v@ =~= flag_stack_size());
    }
    r.push(v);
    let mut v: Vec<u8> = Vec::new();
    v.push(0x2D);
    v.push(0x43);
    v.push(0x6C);
    v.push(0x69);
    v.push(0x6E);
    v.push(0x6B);
    v.push(0x2D);
    v.push(0x61);
    v.push(0x72);
    v.push(0x67);
    v.push(0x3D);
    v.push(0x2D);
    v.push(0x2D);
    v.push(0x69);
    v.push(0x6D);
    v.push(0x70);
    v.push(0x6F);
    v.push(0x72);
    v.push(0x74);
    v.push(0x2D);
    v.push(0x6D);
    v.push(0x65);
    v.push(0x6D);
    v.push(0x6F);
    v.push(0x72);
    v.push(0x79);
    proof {
        assert(v@ =~= flag_import_memory());
    }
    r.push(v);
    let mut v: Vec<u8> = Vec::new();
    v.push(0x2D);
    v.push(0x43);
    v.push(0x6C);
    v.push(0x69);
    v.push(0x6E);
    v.push(0x6B);
    v.push(0x65);
    v.push(0x72);
    v.push(0x2D);
    v.push(0x70);
    v.push(0x6C);
    v.push(0x75);
    v.push(0x67);
    v.push(0x69);
    v.push(0x6E);
    v.push(0x2D);
    v.push(0x6C);
    v.push(0x74);
    v.push(0x6F);
    proof {
        assert(v@ =~= flag_linker_plugin_lto());
    }
    r.push(v);
    let mut v: Vec<u8> = Vec::new();
    v.push(0x2D);
    v.push(0x43);
    v.push(0x74);
    v.push(0x61);
    v.push(0x72);
    v.push(0x67);
    v.push(0x65);
    v.push(0x74);
    v.push(0x2D);
    v.push(0x63);
    v.push(0x70);
    v.push(0x75);
    v.push(0x3D);
    v.push(0x6D);
    v.push(0x76);
    v.push(0x70);
    proof {
        assert(v@ =~= flag_target_cpu());
    }
    r.push(v);
    let mut v: Vec<u8> = Vec::new();
    v.push(0x2D);
    v.push(0x44);
    v.push(0x77);
    v.push(0x61);
    v.push(0x72);
    v.push(0x6E);
    v.push(0x69);
    v.push(0x6E);
    v.push(0x67);
    v.push(0x73);
    proof {
        assert(v@ =~= flag_deny_warnings());
    }
    r.push(v);
    proof {
        assert(parts_view(r@) =~= spec_compiler_flags());
    }
    r
}

/// The one value handed to the compiler through the out-of-band flag
/// channel: the fixed flags joined by the unit separator.
pub fn encoded_compiler_flags() -> (r: Vec<u8>)
    ensures
        r@ == spec_join(spec_compiler_flags(), FLAG_SEPARATOR),
{
    let flags = compiler_flags();
    join_parts(&flags, FLAG_SEPARATOR)
}

/// Judge the style check: success passes; anything else fails the
/// run with the captured standard output surfaced.
pub fn format_outcome(success: bool, captured: Vec<u8>) -> (r: Result<(), PipelineError>)
    ensures
        success ==> r == Ok::<(), PipelineError>(()),
        !success ==> r == Err::<(), PipelineError>(PipelineError::Format(captured)),
{
    if success {
        Ok(())
    } else {
        Err(PipelineError::Format(captured))
    }
}

/// Judge the compiler run: success passes; anything else fails the
/// run with the captured standard error surfaced.
pub fn build_outcome(success: bool, captured: Vec<u8>) -> (r: Result<(), PipelineError>)
    ensures
        success ==> r == Ok::<(), PipelineError>(()),
        !success ==> r == Err::<(), PipelineError>(PipelineError::Build(captured)),
{
    if success {
        Ok(())
    } else {
        Err(PipelineError::Build(captured))
    }
}

} // verus!
