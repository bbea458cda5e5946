//! The compiled binary module format, at section granularity.
//!
//! A module is a fixed eight-byte header followed by sections; each
//! section is one id byte, the payload size as a canonical LEB128
//! number, and the payload. The post-processor decodes a module into
//! its ordered list of sections, rewrites exactly one kind of section,
//! and re-encodes, so every other section stays byte-identical.
use vstd::prelude::*;

use crate::leb128::leb128;
use crate::leb128::parse_leb128;
use crate::leb128::lemma_leb128_len;
use crate::leb128::lemma_parse_leb128_encode;
use crate::leb128::lemma_parse_leb128_sound;
use crate::leb128::decode_leb128;
use crate::leb128::leb128_bytes;

verus! {

/// One structural section of a module.
pub struct Section {
    /// The section's id byte.
    pub id: u8,
    /// The section's raw payload.
    pub payload: Vec<u8>,
}

/// The mathematical value of a section: its id and its payload bytes.
#[verifier::ext_equal]
pub struct SectionView {
    /// The section's id byte.
    pub id: u8,
    /// The section's payload bytes.
    pub payload: Seq<u8>,
}

impl View for Section {
    type V = SectionView;

    open spec fn view(&self) -> SectionView {
        SectionView { id: self.id, payload: self.payload@ }
    }
}

/// The views of a list of sections.
pub open spec fn sections_view(ss: Seq<Section>) -> Seq<SectionView> {
    ss.map_values(|s: Section| s@)
}

/// The fixed module header: magic bytes and version one.
pub open spec fn module_header() -> Seq<u8> {
    seq![0x00u8, 0x61u8, 0x73u8, 0x6Du8, 0x01u8, 0x00u8, 0x00u8, 0x00u8]
}

/// The encoding of one section: id, payload size, payload.
pub open spec fn encode_section(s: SectionView) -> Seq<u8> {
    seq![s.id] + leb128(s.payload.len()) + s.payload
}

/// The encoding of a list of sections, in order.
pub open spec fn encode_sections(ss: Seq<SectionView>) -> Seq<u8>
    decreases ss.len(),
{
    if ss.len() == 0 {
        Seq::empty()
    } else {
        encode_section(ss[0]) + encode_sections(ss.drop_first())
    }
}

/// The encoding of a whole module: header, then its sections.
pub open spec fn encode_module(ss: Seq<SectionView>) -> Seq<u8> {
    module_header() + encode_sections(ss)
}

/// A section that the format can carry: its payload size fits the
/// 32-bit size field.
pub open spec fn section_wf(s: SectionView) -> bool {
    s.payload.len() < 0x1_0000_0000
}

/// Parse a byte stream as a list of sections, consuming it whole.
pub open spec fn parse_sections(s: Seq<u8>) -> Option<Seq<SectionView>>
    decreases s.len(),
{
    if s.len() == 0 {
        Some(Seq::empty())
    } else {
        match parse_leb128(s.drop_first()) {
            None => None,
            Some((n, k)) => if !(1 <= k && 1 + k + n <= s.len() && n < 0x1_0000_0000) {
                None
            } else {
                let sv = SectionView { id: s[0], payload: s.subrange(1 + k, 1 + k + n) };
                match parse_sections(s.skip(1 + k + n)) {
                    None => None,
                    Some(rest) => Some(seq![sv] + rest),
                }
            },
        }
    }
}

/// Parse a whole module: the fixed header, then its sections.
pub open spec fn parse_module(s: Seq<u8>) -> Option<Seq<SectionView>> {
    if s.len() >= 8 && s.take(8) == module_header() {
        parse_sections(s.skip(8))
    } else {
        None
    }
}

/// Appending one encoded section extends the encoding of the list.
pub proof fn lemma_encode_sections_snoc(ss: Seq<SectionView>, i: int)
    requires
        0 <= i < ss.len(),
    ensures
        encode_sections(ss.take(i + 1)) == encode_sections(ss.take(i)) + encode_section(ss[i]),
    decreases i,
{
    if i == 0 {
        assert(ss.take(1)[0] == ss[0]);
        assert(ss.take(1).drop_first() =~= Seq::<SectionView>::empty());
        assert(ss.take(0) =~= Seq::<SectionView>::empty());
        assert(encode_sections(ss.take(1)) =~= encode_sections(ss.take(0)) + encode_section(ss[0]));
    } else {
        lemma_encode_sections_snoc(ss.drop_first(), i - 1);
        assert(ss.take(i + 1).drop_first() =~= ss.drop_first().take(i));
        assert(ss.take(i).drop_first() =~= ss.drop_first().take(i - 1));
        assert(ss.take(i + 1)[0] == ss[0]);
        assert(ss.take(i)[0] == ss[0]);
        assert(ss.drop_first()[i - 1] == ss[i]);
        assert(encode_sections(ss.take(i + 1)) =~= encode_sections(ss.take(i)) + encode_section(
            ss[i],
        ));
    }
}

/// Parsing what the section encoder wrote gives the sections back.
pub proof fn lemma_parse_sections_encode(ss: Seq<SectionView>)
    requires
        forall|i: int| 0 <= i < ss.len() ==> section_wf(#[trigger] ss[i]),
    ensures
        parse_sections(encode_sections(ss)) == Some(ss),
    decreases ss.len(),
{
    if ss.len() == 0 {
        assert(encode_sections(ss) =~= Seq::<u8>::empty());
    } else {
        let s0 = ss[0];
        let rest = ss.drop_first();
        lemma_parse_sections_encode(rest);
        let enc = encode_sections(ss);
        let n = s0.payload.len() as nat;
        lemma_leb128_len(n);
        let k = leb128(n).len() as int;
        assert(enc =~= seq![s0.id] + (leb128(n) + (s0.payload + encode_sections(rest))));
        assert(enc.drop_first() =~= leb128(n) + (s0.payload + encode_sections(rest)));
        lemma_parse_leb128_encode(n, s0.payload + encode_sections(rest));
        assert(parse_leb128(enc.drop_first()) == Some((n, k)));
        assert(1 + k + n <= enc.len());
        assert(enc.subrange(1 + k, 1 + k + n) =~= s0.payload);
        assert(enc.skip(1 + k + n) =~= encode_sections(rest));
        assert(SectionView { id: enc[0], payload: enc.subrange(1 + k, 1 + k + n) } =~= s0);
        assert(seq![s0] + rest =~= ss);
    }
}

/// A successful section parse inverts the encoder: the input was
/// exactly the encoding of the result, and every parsed section is
/// well formed.
pub proof fn lemma_parse_sections_sound(s: Seq<u8>)
    requires
        parse_sections(s) is Some,
    ensures
        encode_sections(parse_sections(s)->Some_0) == s,
        forall|i: int|
            0 <= i < parse_sections(s)->Some_0.len() ==> section_wf(
                #[trigger] parse_sections(s)->Some_0[i],
            ),
    decreases s.len(),
{
    if s.len() == 0 {
        assert(encode_sections(Seq::<SectionView>::empty()) =~= s);
    } else {
        let (n, k) = parse_leb128(s.drop_first())->Some_0;
        lemma_parse_leb128_sound(s.drop_first());
        let sv = SectionView { id: s[0], payload: s.subrange(1 + k, 1 + k + n) };
        let tail = s.skip(1 + k + n);
        lemma_parse_sections_sound(tail);
        let rest = parse_sections(tail)->Some_0;
        let whole = parse_sections(s)->Some_0;
        assert(whole == seq![sv] + rest);
        assert(whole.drop_first() =~= rest);
        assert(whole[0] == sv);
        assert(leb128(n) == s.drop_first().take(k));
        assert(encode_section(sv) =~= s.take(1 + k + n)) by {
            assert(forall|j: int|
                0 <= j < k ==> s.drop_first().take(k)[j] == #[trigger] s.take(1 + k + n)[1 + j]);
        }
        assert(encode_sections(whole) =~= encode_section(sv) + encode_sections(rest));
        assert(encode_sections(whole) =~= s.take(1 + k + n) + tail);
        assert(s.take(1 + k + n) + tail =~= s);
    }
}

/// Copy one range of a byte vector.
pub fn copy_range(bytes: &Vec<u8>, start: usize, end: usize) -> (r: Vec<u8>)
    requires
        start <= end <= bytes@.len(),
    ensures
        r@ == bytes@.subrange(start as int, end as int),
{
    let mut r: Vec<u8> = Vec::new();
    let mut i: usize = start;
    while i < end
        invariant
            start <= i <= end <= bytes@.len(),
            r@ == bytes@.subrange(start as int, i as int),
        decreases end - i,
    {
        r.push(bytes[i]);
        proof {
            assert(r@ =~= bytes@.subrange(start as int, i + 1));
        }
        i += 1;
    }
    r
}

/// Append one encoded section.
fn encode_section_into(out: &mut Vec<u8>, s: &Section)
    ensures
        final(out)@ == old(out)@ + encode_section(s@),
{
    out.push(s.id);
    let mut size = leb128_bytes(s.payload.len() as u64);
    out.append(&mut size);
    let mut body = copy_range(&s.payload, 0, s.payload.len());
    proof {
        assert(s.payload@.subrange(0, s.payload@.len() as int) =~= s.payload@);
    }
    out.append(&mut body);
    proof {
        assert(out@ =~= old(out)@ + encode_section(s@));
    }
}

/// Encode a whole module from its sections.
pub fn encode_module_bytes(sections: &Vec<Section>) -> (r: Vec<u8>)
    ensures
        r@ == encode_module(sections_view(sections@)),
{
    let mut r: Vec<u8> = Vec::new();
    r.push(0x00);
    r.push(0x61);
    r.push(0x73);
    r.push(0x6D);
    r.push(0x01);
    r.push(0x00);
    r.push(0x00);
    r.push(0x00);
    proof {
        assert(r@ =~= module_header());
    }
    let ghost views = sections_view(sections@);
    let mut i: usize = 0;
    while i < sections.len()
        invariant
            i <= sections.len(),
            views == sections_view(sections@),
            views.len() == sections@.len(),
            r@ == module_header() + encode_sections(views.take(i as int)),
        decreases sections.len() - i,
    {
        proof {
            lemma_encode_sections_snoc(views, i as int);
        }
        encode_section_into(&mut r, &sections[i]);
        proof {
            assert(views[i as int] == sections@[i as int]@);
            assert(r@ =~= module_header() + encode_sections(views.take(i + 1)));
        }
        i += 1;
    }
    proof {
        assert(views.take(views.len() as int) =~= views);
    }
    r
}

/// Decode a whole module into its ordered sections, or nothing where
/// the stream is not a module encoding.
pub fn decode_module(bytes: &Vec<u8>) -> (r: Option<Vec<Section>>)
    ensures
        match r {
            Some(ss) => parse_module(bytes@) == Some(sections_view(ss@)),
            None => parse_module(bytes@) is None,
        },
{
    if bytes.len() < 8 {
        return None;
    }
    if !(bytes[0] == 0x00 && bytes[1] == 0x61 && bytes[2] == 0x73 && bytes[3] == 0x6D && bytes[4]
        == 0x01 && bytes[5] == 0x00 && bytes[6] == 0x00 && bytes[7] == 0x00) {
        proof {
            if bytes@.take(8) == module_header() {
                assert(bytes@[0] == 0x00u8 && bytes@[1] == 0x61u8 && bytes@[2] == 0x73u8
                    && bytes@[3] == 0x6Du8 && bytes@[4] == 0x01u8 && bytes@[5] == 0x00u8
                    && bytes@[6] == 0x00u8 && bytes@[7] == 0x00u8);
            }
        }
        return None;
    }
    proof {
        assert(bytes@.take(8) =~= module_header());
    }
    let mut sections: Vec<Section> = Vec::new();
    let mut pos: usize = 8;
    loop
        invariant
            8 <= pos <= bytes@.len(),
            bytes@.take(8) == module_header(),
            parse_sections(bytes@.skip(8)) == match parse_sections(bytes@.skip(pos as int)) {
                None => None::<Seq<SectionView>>,
                Some(rest) => Some(sections_view(sections@) + rest),
            },
        decreases bytes@.len() - pos,
    {
        if pos == bytes.len() {
            proof {
                assert(bytes@.skip(pos as int) =~= Seq::<u8>::empty());
                assert(sections_view(sections@) + Seq::<SectionView>::empty() =~= sections_view(
                    sections@,
                ));
            }
            return Some(sections);
        }
        let id = bytes[pos];
        proof {
            assert(bytes@.skip(pos as int).drop_first() =~= bytes@.skip(pos + 1));
            assert(bytes@.skip(pos as int)[0] == id);
            assert(bytes@.skip(pos as int).len() > 0);
        }
        let ghost suffix = bytes@.skip(pos as int);
        match decode_leb128(bytes, pos + 1) {
            None => {
                proof {
                    if parse_leb128(suffix.drop_first()) is Some {
                        assert(parse_leb128(suffix.drop_first())->Some_0.0 >= 0x1_0000_0000);
                        assert(parse_sections(suffix) is None);
                    }
                }
                return None;
            },
            Some((n, after_size)) => {
                proof {
                    assert(parse_leb128(suffix.drop_first()) == Some(
                        (n as nat, (after_size - (pos + 1)) as int),
                    ));
                }
                let ghost k = (after_size - (pos + 1)) as int;
                if n > (bytes.len() - after_size) as u64 {
                    proof {
                        assert(1 + k + n > suffix.len());
                        assert(parse_sections(suffix) is None);
                    }
                    return None;
                }
                let body_end = after_size + (n as usize);
                let payload = copy_range(bytes, after_size, body_end);
                proof {
                    assert(suffix.subrange(1 + k, 1 + k + n) =~= bytes@.subrange(
                        after_size as int,
                        body_end as int,
                    ));
                    assert(suffix.skip(1 + k + n) =~= bytes@.skip(body_end as int));
                }
                let section = Section { id, payload };
                sections.push(section);
                proof {
                    let sv = SectionView {
                        id: suffix[0],
                        payload: suffix.subrange(1 + k, 1 + k + n),
                    };
                    assert(section@ =~= sv);
                    assert(sections_view(sections@) =~= sections_view(
                        sections@.drop_last(),
                    ).push(sv));
                    assert(forall|rest: Seq<SectionView>|
                        sections_view(sections@.drop_last()) + (seq![sv] + rest) =~= (sections_view(
                            sections@.drop_last(),
                        ).push(sv) + rest));
                }
                pos = body_end;
            },
        }
    }
}

} // verus!
