//! Normalizing a compiled module before publication.
//!
//! The post-processor decodes a module into its ordered sections,
//! replaces the payload of every export section with the encoding of
//! its sanctioned entries only, and re-encodes the module. Every
//! section of another kind passes through byte-identical. A module
//! that cannot be decoded is malformed toolchain output and is an
//! unrecoverable failure, never repaired.
use vstd::prelude::*;

use crate::errors::PipelineError;
use crate::exports::encode_export_payload;
use crate::exports::decode_export_payload;
use crate::exports::encode_export_payload_bytes;
use crate::exports::filter_allowed_exports;
use crate::exports::filter_exports;
use crate::exports::keep_export;
use crate::exports::parse_export_payload;
use crate::exports::lemma_filter_exports_properties;
use crate::exports::lemma_parse_export_payload_encode;
use crate::exports::lemma_parse_export_payload_sound;
use crate::exports::lemma_encode_filtered_payload_len;
use crate::exports::exports_view;
use crate::wasm::Section;
use crate::wasm::SectionView;
use crate::wasm::decode_module;
use crate::wasm::encode_module;
use crate::wasm::encode_module_bytes;
use crate::wasm::encode_sections;
use crate::wasm::module_header;
use crate::wasm::parse_module;
use crate::wasm::parse_sections;
use crate::wasm::section_wf;
use crate::wasm::sections_view;
use crate::wasm::lemma_parse_sections_encode;
use crate::wasm::lemma_parse_sections_sound;

verus! {

/// The id byte of the export section.
pub const EXPORT_SECTION_ID: u8 = 7;

/// What becomes of one section: an export section is replaced by the
/// encoding of its sanctioned entries, any other section passes
/// through unchanged; an export section whose payload does not parse
/// fails the module.
pub open spec fn process_section(sv: SectionView) -> Option<SectionView> {
    if sv.id == EXPORT_SECTION_ID {
        match parse_export_payload(sv.payload) {
            None => None,
            Some(es) => Some(
                SectionView { id: sv.id, payload: encode_export_payload(filter_exports(es)) },
            ),
        }
    } else {
        Some(sv)
    }
}

/// What becomes of a module's sections, in order.
pub open spec fn process_sections(ss: Seq<SectionView>) -> Option<Seq<SectionView>>
    decreases ss.len(),
{
    if ss.len() == 0 {
        Some(Seq::empty())
    } else {
        match process_section(ss[0]) {
            None => None,
            Some(h) => match process_sections(ss.drop_first()) {
                None => None,
                Some(t) => Some(seq![h] + t),
            },
        }
    }
}

/// The normalized bytes of a module, or nothing where the module or
/// one of its export sections cannot be parsed.
pub open spec fn spec_post_process(bytes: Seq<u8>) -> Option<Seq<u8>> {
    match parse_module(bytes) {
        None => None,
        Some(ss) => match process_sections(ss) {
            None => None,
            Some(ps) => Some(encode_module(ps)),
        },
    }
}

/// Processing one more section appends its replacement, or fails the
/// whole list.
pub proof fn lemma_process_sections_snoc(ss: Seq<SectionView>, i: int)
    requires
        0 <= i < ss.len(),
    ensures
        process_sections(ss.take(i + 1)) == match (
            process_sections(ss.take(i)),
            process_section(ss[i]),
        ) {
            (Some(ps), Some(h)) => Some(ps + seq![h]),
            _ => None::<Seq<SectionView>>,
        },
    decreases i,
{
    if i == 0 {
        assert(ss.take(1)[0] == ss[0]);
        assert(ss.take(1).drop_first() =~= Seq::<SectionView>::empty());
        assert(ss.take(0) =~= Seq::<SectionView>::empty());
        if process_section(ss[0]) is Some {
            let h = process_section(ss[0])->Some_0;
            assert(process_sections(ss.take(1)) == Some(seq![h] + Seq::<SectionView>::empty()));
            assert(seq![h] + Seq::<SectionView>::empty() =~= Seq::<SectionView>::empty()
                + seq![h]);
        }
    } else {
        lemma_process_sections_snoc(ss.drop_first(), i - 1);
        assert(ss.take(i + 1).drop_first() =~= ss.drop_first().take(i));
        assert(ss.take(i).drop_first() =~= ss.drop_first().take(i - 1));
        assert(ss.take(i + 1)[0] == ss[0]);
        assert(ss.take(i)[0] == ss[0]);
        assert(ss.drop_first()[i - 1] == ss[i]);
        match (process_sections(ss.take(i)), process_section(ss[i])) {
            (Some(ps), Some(h)) => {
                let h0 = process_section(ss[0])->Some_0;
                let t0 = process_sections(ss.take(i).drop_first())->Some_0;
                assert(ps == seq![h0] + t0);
                assert(process_sections(ss.take(i + 1)) == Some(
                    seq![h0] + (t0 + seq![h]),
                ));
                assert(seq![h0] + (t0 + seq![h]) =~= ps + seq![h]);
            },
            _ => {
                if process_section(ss[0]) is Some && process_sections(ss.take(i)) is Some {
                } else {
                    if process_section(ss[0]) is None {
                    } else {
                        assert(process_sections(ss.take(i).drop_first()) is None
                            || process_section(ss[i]) is None);
                    }
                }
            },
        }
    }
}

/// One failed section fails the whole list.
pub proof fn lemma_process_sections_none(ss: Seq<SectionView>, j: int)
    requires
        0 <= j < ss.len(),
        process_section(ss[j]) is None,
    ensures
        process_sections(ss) is None,
    decreases j,
{
    if j > 0 {
        assert(ss.drop_first()[j - 1] == ss[j]);
        lemma_process_sections_none(ss.drop_first(), j - 1);
    }
}

/// A processed list has one replacement per section, in place.
pub proof fn lemma_process_sections_pointwise(ss: Seq<SectionView>)
    requires
        process_sections(ss) is Some,
    ensures
        process_sections(ss)->Some_0.len() == ss.len(),
        forall|i: int|
            0 <= i < ss.len() ==> process_section(#[trigger] ss[i]) == Some(
                process_sections(ss)->Some_0[i],
            ),
    decreases ss.len(),
{
    if ss.len() > 0 {
        lemma_process_sections_pointwise(ss.drop_first());
        let h = process_section(ss[0])->Some_0;
        let t = process_sections(ss.drop_first())->Some_0;
        assert(process_sections(ss)->Some_0 == seq![h] + t);
        assert(forall|i: int| 1 <= i < ss.len() ==> #[trigger] ss[i] == ss.drop_first()[i - 1]);
        assert(forall|i: int| 1 <= i < ss.len() ==> (seq![h] + t)[i] == t[i - 1]);
    }
}

/// Normalize one compiled module: drop every export that is not a
/// sanctioned function-kind entry point, and leave every other
/// section byte-identical.
pub fn post_process_module(bytes: &Vec<u8>) -> (r: Result<Vec<u8>, PipelineError>)
    ensures
        match r {
            Ok(out) => spec_post_process(bytes@) == Some(out@),
            Err(e) => {
                &&& spec_post_process(bytes@) is None
                &&& e == PipelineError::PostProcess
            },
        },
{
    let sections = match decode_module(bytes) {
        None => {
            return Err(PipelineError::PostProcess);
        },
        Some(ss) => ss,
    };
    let ghost views = sections_view(sections@);
    let mut out_sections: Vec<Section> = Vec::new();
    let mut rest = sections;
    let total = rest.len();
    proof {
        assert(views.len() == total as nat);
    }
    let mut done: usize = 0;
    while rest.len() > 0
        invariant
            done + rest@.len() == views.len(),
            views.len() <= usize::MAX as nat,
            parse_module(bytes@) == Some(views),
            forall|j: int| 0 <= j < rest@.len() ==> #[trigger] rest@[j]@ == views[done + j],
            process_sections(views.take(done as int)) == Some(sections_view(out_sections@)),
        decreases rest@.len(),
    {
        let s = rest.remove(0);
        proof {
            assert(s@ == views[done as int]);
            lemma_process_sections_snoc(views, done as int);
            assert(forall|j: int|
                0 <= j < rest@.len() ==> #[trigger] rest@[j]@ == views[done + 1 + j]);
        }
        if s.id == EXPORT_SECTION_ID {
            let es = match decode_export_payload(&s.payload) {
                None => {
                    proof {
                        lemma_process_sections_none(views, done as int);
                    }
                    return Err(PipelineError::PostProcess);
                },
                Some(es) => es,
            };
            let kept = filter_allowed_exports(es);
            let payload = encode_export_payload_bytes(&kept);
            let out_s = Section { id: s.id, payload };
            proof {
                assert(out_s@ =~= process_section(views[done as int])->Some_0);
                let prev = sections_view(out_sections@);
                assert(sections_view(out_sections@.push(out_s)) =~= prev.push(out_s@));
                assert(prev + seq![out_s@] =~= prev.push(out_s@));
            }
            out_sections.push(out_s);
        } else {
            proof {
                assert(s@ =~= process_section(views[done as int])->Some_0);
                let prev = sections_view(out_sections@);
                assert(sections_view(out_sections@.push(s)) =~= prev.push(s@));
                assert(prev + seq![s@] =~= prev.push(s@));
            }
            out_sections.push(s);
        }
        done = done + 1;
    }
    proof {
        assert(views.take(done as int) =~= views);
    }
    let out = encode_module_bytes(&out_sections);
    Ok(out)
}

/// Export minimization: the export table of a post-processed module
/// holds only function-kind entries named on the fixed two-name
/// allow-list — exactly the sanctioned entries the module already
/// had, in order — and every section of another kind is
/// byte-identical to the corresponding section of the unprocessed
/// module.
pub proof fn lemma_export_minimization(bytes: Seq<u8>)
    requires
        spec_post_process(bytes) is Some,
    ensures
        parse_module(bytes) is Some,
        parse_module(spec_post_process(bytes)->Some_0) is Some,
        ({
            let input = parse_module(bytes)->Some_0;
            let output = parse_module(spec_post_process(bytes)->Some_0)->Some_0;
            &&& output.len() == input.len()
            &&& forall|i: int|
                0 <= i < input.len() ==> (#[trigger] output[i]).id == input[i].id
            &&& forall|i: int|
                0 <= i < input.len() && input[i].id != EXPORT_SECTION_ID ==> #[trigger] output[i]
                    == input[i]
            &&& forall|i: int|
                0 <= i < input.len() && (#[trigger] input[i]).id == EXPORT_SECTION_ID ==> {
                    &&& parse_export_payload(input[i].payload) is Some
                    &&& parse_export_payload(output[i].payload) == Some(
                        filter_exports(parse_export_payload(input[i].payload)->Some_0),
                    )
                    &&& forall|j: int|
                        0 <= j < parse_export_payload(output[i].payload)->Some_0.len()
                            ==> keep_export(
                            #[trigger] parse_export_payload(output[i].payload)->Some_0[j],
                        )
                }
        }),
{
    let input = parse_module(bytes)->Some_0;
    let ps = process_sections(input)->Some_0;
    let out_bytes = spec_post_process(bytes)->Some_0;
    lemma_process_sections_pointwise(input);
    lemma_parse_sections_sound(bytes.skip(8));
    assert forall|i: int| 0 <= i < input.len() implies section_wf(#[trigger] ps[i]) by {
        if input[i].id == EXPORT_SECTION_ID {
            let es = parse_export_payload(input[i].payload)->Some_0;
            lemma_parse_export_payload_sound(input[i].payload);
            lemma_encode_filtered_payload_len(es);
            assert(encode_export_payload(es).len() == input[i].payload.len());
        } else {
            assert(ps[i] == input[i]);
        }
    }
    assert(out_bytes == encode_module(ps));
    assert(out_bytes.len() >= 8 && out_bytes.take(8) == module_header()) by {
        assert(out_bytes.take(8) =~= module_header());
    }
    assert(out_bytes.skip(8) =~= encode_sections(ps));
    lemma_parse_sections_encode(ps);
    assert(parse_module(out_bytes) == Some(ps));
    assert forall|i: int|
        0 <= i < input.len() && (#[trigger] input[i]).id == EXPORT_SECTION_ID implies {
        &&& parse_export_payload(input[i].payload) is Some
        &&& parse_export_payload(ps[i].payload) == Some(
            filter_exports(parse_export_payload(input[i].payload)->Some_0),
        )
        &&& forall|j: int|
            0 <= j < parse_export_payload(ps[i].payload)->Some_0.len() ==> keep_export(
                #[trigger] parse_export_payload(ps[i].payload)->Some_0[j],
            )
    } by {
        let es = parse_export_payload(input[i].payload)->Some_0;
        lemma_parse_export_payload_sound(input[i].payload);
        lemma_filter_exports_properties(es);
        assert forall|j: int| 0 <= j < filter_exports(es).len() implies crate::exports::export_wf(
            #[trigger] filter_exports(es)[j],
        ) by {
            assert(es.contains(filter_exports(es)[j]));
        }
        lemma_parse_export_payload_encode(filter_exports(es));
        assert(ps[i].payload == encode_export_payload(filter_exports(es)));
    }
}

} // verus!
