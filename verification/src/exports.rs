//! The export section of a compiled module.
//!
//! Its payload is an entry count followed by entries: a name (length
//! then bytes), an export kind byte, and an index. The post-processor
//! keeps only function-kind entries whose name stands on the fixed
//! two-name allow-list of sanctioned entry points; a downstream
//! harness must not be able to reach any other symbol.
use vstd::prelude::*;

use crate::leb128::leb128;
use crate::leb128::parse_leb128;
use crate::leb128::lemma_leb128_len;
use crate::leb128::lemma_parse_leb128_encode;
use crate::leb128::lemma_parse_leb128_sound;
use crate::leb128::decode_leb128;
use crate::leb128::leb128_bytes;
use crate::wasm::copy_range;

verus! {

/// The kind byte of a function export.
pub const EXPORT_KIND_FUNCTION: u8 = 0;

/// One entry of the export section.
pub struct Export {
    /// The exported name.
    pub name: Vec<u8>,
    /// The export's kind byte: 0 function, 1 table, 2 memory,
    /// 3 global.
    pub kind: u8,
    /// The index of the exported item in its kind's space.
    pub index: u32,
}

/// The mathematical value of an export entry.
#[verifier::ext_equal]
pub struct ExportView {
    /// The exported name's bytes.
    pub name: Seq<u8>,
    /// The export's kind byte.
    pub kind: u8,
    /// The index of the exported item.
    pub index: nat,
}

impl View for Export {
    type V = ExportView;

    open spec fn view(&self) -> ExportView {
        ExportView { name: self.name@, kind: self.kind, index: self.index as nat }
    }
}

/// The views of a list of export entries.
pub open spec fn exports_view(es: Seq<Export>) -> Seq<ExportView> {
    es.map_values(|e: Export| e@)
}

/// An entry that the format can carry: name length and index fit
/// their 32-bit fields, and the kind byte is one of the four kinds.
pub open spec fn export_wf(e: ExportView) -> bool {
    e.name.len() < 0x1_0000_0000 && e.index < 0x1_0000_0000 && e.kind <= 3
}

/// The encoding of one export entry.
pub open spec fn encode_export(e: ExportView) -> Seq<u8> {
    leb128(e.name.len()) + e.name + seq![e.kind] + leb128(e.index)
}

/// The encoding of a list of export entries, in order.
pub open spec fn encode_export_list(es: Seq<ExportView>) -> Seq<u8>
    decreases es.len(),
{
    if es.len() == 0 {
        Seq::empty()
    } else {
        encode_export(es[0]) + encode_export_list(es.drop_first())
    }
}

/// The encoding of a whole export section payload: the count, then
/// the entries.
pub open spec fn encode_export_payload(es: Seq<ExportView>) -> Seq<u8> {
    leb128(es.len()) + encode_export_list(es)
}

/// Parse one export entry from the front of a byte stream: the entry
/// and the count of bytes consumed.
pub open spec fn parse_export(s: Seq<u8>) -> Option<(ExportView, int)> {
    match parse_leb128(s) {
        None => None,
        Some((nlen, k1)) => if !(1 <= k1 && k1 + nlen <= s.len() && nlen < 0x1_0000_0000) {
            None
        } else {
            let name = s.subrange(k1, k1 + nlen);
            let s2 = s.skip(k1 + nlen);
            if s2.len() == 0 {
                None
            } else if s2[0] > 3 {
                None
            } else {
                match parse_leb128(s2.drop_first()) {
                    None => None,
                    Some((idx, k2)) => if !(1 <= k2 && 1 + k2 <= s2.len() && idx
                        < 0x1_0000_0000) {
                        None
                    } else {
                        Some(
                            (
                                ExportView { name: name, kind: s2[0], index: idx },
                                k1 + nlen + 1 + k2,
                            ),
                        )
                    },
                }
            }
        },
    }
}

/// Parse a given count of export entries from the front of a byte
/// stream: the entries and the count of bytes consumed.
pub open spec fn parse_export_list(s: Seq<u8>, count: nat) -> Option<(Seq<ExportView>, int)>
    decreases count,
{
    if count == 0 {
        Some((Seq::empty(), 0))
    } else {
        match parse_export(s) {
            None => None,
            Some((e, k)) => match parse_export_list(s.skip(k), (count - 1) as nat) {
                None => None,
                Some((rest, m)) => Some((seq![e] + rest, k + m)),
            },
        }
    }
}

/// Parse a whole export section payload, consuming it exactly.
pub open spec fn parse_export_payload(s: Seq<u8>) -> Option<Seq<ExportView>> {
    match parse_leb128(s) {
        None => None,
        Some((count, k)) => if !(1 <= k <= s.len() && count < 0x1_0000_0000) {
            None
        } else {
            match parse_export_list(s.skip(k), count) {
                None => None,
                Some((es, m)) => if k + m == s.len() {
                    Some(es)
                } else {
                    None
                },
            }
        },
    }
}

/// Parsing what the entry encoder wrote, whatever follows it, gives
/// the entry back and consumes exactly its encoding.
pub proof fn lemma_parse_export_encode(e: ExportView, rest: Seq<u8>)
    requires
        export_wf(e),
    ensures
        parse_export(encode_export(e) + rest) == Some((e, encode_export(e).len() as int)),
{
    let s = encode_export(e) + rest;
    let nlen = e.name.len();
    let tail1 = e.name + seq![e.kind] + leb128(e.index) + rest;
    assert(s =~= leb128(nlen) + tail1);
    lemma_parse_leb128_encode(nlen, tail1);
    lemma_leb128_len(nlen);
    let k1 = leb128(nlen).len() as int;
    assert(parse_leb128(s) == Some((nlen, k1)));
    assert(s.subrange(k1, k1 + nlen) =~= e.name);
    let s2 = s.skip(k1 + nlen);
    assert(s2 =~= seq![e.kind] + (leb128(e.index) + rest));
    assert(s2[0] == e.kind);
    assert(s2.drop_first() =~= leb128(e.index) + rest);
    lemma_parse_leb128_encode(e.index, rest);
    lemma_leb128_len(e.index);
    let k2 = leb128(e.index).len() as int;
    assert(parse_leb128(s2.drop_first()) == Some((e.index, k2)));
    assert(ExportView { name: s.subrange(k1, k1 + nlen), kind: s2[0], index: e.index } =~= e);
    assert(encode_export(e).len() == k1 + nlen + 1 + k2);
}

/// A successful entry parse inverts the encoder, and the entry is
/// well formed.
pub proof fn lemma_parse_export_sound(s: Seq<u8>)
    requires
        parse_export(s) is Some,
    ensures
        ({
            let (e, k) = parse_export(s)->Some_0;
            &&& export_wf(e)
            &&& 3 <= k <= s.len()
            &&& encode_export(e) == s.take(k)
        }),
{
    let (e, k) = parse_export(s)->Some_0;
    let (nlen, k1) = parse_leb128(s)->Some_0;
    lemma_parse_leb128_sound(s);
    let s2 = s.skip(k1 + nlen);
    let (idx, k2) = parse_leb128(s2.drop_first())->Some_0;
    lemma_parse_leb128_sound(s2.drop_first());
    assert(leb128(nlen) == s.take(k1));
    assert(leb128(idx) == s2.drop_first().take(k2));
    assert(encode_export(e) =~= s.take(k)) by {
        assert(forall|j: int| 0 <= j < k1 ==> #[trigger] s.take(k1)[j] == s[j]);
        assert(forall|j: int|
            0 <= j < k2 ==> #[trigger] s2.drop_first().take(k2)[j] == s[k1 + nlen + 1 + j]);
    }
}

/// Parsing what the list encoder wrote, whatever follows it, gives
/// the entries back and consumes exactly their encoding.
pub proof fn lemma_parse_export_list_encode(es: Seq<ExportView>, rest: Seq<u8>)
    requires
        forall|i: int| 0 <= i < es.len() ==> export_wf(#[trigger] es[i]),
    ensures
        parse_export_list(encode_export_list(es) + rest, es.len()) == Some(
            (es, encode_export_list(es).len() as int),
        ),
    decreases es.len(),
{
    if es.len() == 0 {
        assert(encode_export_list(es) + rest =~= rest);
        assert(seq![] + rest =~= rest);
        assert(parse_export_list(rest, 0) == Some((Seq::<ExportView>::empty(), 0int)));
        assert(Seq::<ExportView>::empty() =~= es);
    } else {
        let e0 = es[0];
        let tail = es.drop_first();
        let s = encode_export_list(es) + rest;
        assert(s =~= encode_export(e0) + (encode_export_list(tail) + rest));
        lemma_parse_export_encode(e0, encode_export_list(tail) + rest);
        let k = encode_export(e0).len() as int;
        assert(s.skip(k) =~= encode_export_list(tail) + rest);
        lemma_parse_export_list_encode(tail, rest);
        assert(seq![e0] + tail =~= es);
    }
}

/// A successful list parse yields exactly the asked count of well
/// formed entries and inverts the encoder.
pub proof fn lemma_parse_export_list_sound(s: Seq<u8>, count: nat)
    requires
        parse_export_list(s, count) is Some,
    ensures
        ({
            let (es, m) = parse_export_list(s, count)->Some_0;
            &&& es.len() == count
            &&& 0 <= m <= s.len()
            &&& encode_export_list(es) == s.take(m)
            &&& forall|i: int| 0 <= i < es.len() ==> export_wf(#[trigger] es[i])
        }),
    decreases count,
{
    let (es, m) = parse_export_list(s, count)->Some_0;
    if count == 0 {
        assert(encode_export_list(es) =~= s.take(0));
    } else {
        let (e, k) = parse_export(s)->Some_0;
        lemma_parse_export_sound(s);
        lemma_parse_export_list_sound(s.skip(k), (count - 1) as nat);
        let (tail, m2) = parse_export_list(s.skip(k), (count - 1) as nat)->Some_0;
        assert(es == seq![e] + tail);
        assert(es.drop_first() =~= tail);
        assert(es[0] == e);
        assert(encode_export_list(tail) == s.skip(k).take(m2));
        assert(encode_export_list(es) =~= s.take(m)) by {
            assert(forall|j: int|
                0 <= j < m2 ==> #[trigger] s.skip(k).take(m2)[j] == s[k + j]);
            assert(forall|j: int| 0 <= j < k ==> #[trigger] s.take(k)[j] == s[j]);
        }
    }
}

/// Parsing what the payload encoder wrote gives the entries back.
pub proof fn lemma_parse_export_payload_encode(es: Seq<ExportView>)
    requires
        forall|i: int| 0 <= i < es.len() ==> export_wf(#[trigger] es[i]),
        es.len() < 0x1_0000_0000,
    ensures
        parse_export_payload(encode_export_payload(es)) == Some(es),
{
    let s = encode_export_payload(es);
    lemma_parse_leb128_encode(es.len(), encode_export_list(es));
    lemma_leb128_len(es.len());
    let k = leb128(es.len()).len() as int;
    assert(s.skip(k) =~= encode_export_list(es));
    lemma_parse_export_list_encode(es, Seq::empty());
    assert(encode_export_list(es) + Seq::<u8>::empty() =~= encode_export_list(es));
}

/// A successful payload parse yields well formed entries, fewer than
/// the 32-bit bound, and inverts the encoder.
pub proof fn lemma_parse_export_payload_sound(s: Seq<u8>)
    requires
        parse_export_payload(s) is Some,
    ensures
        ({
            let es = parse_export_payload(s)->Some_0;
            &&& encode_export_payload(es) == s
            &&& es.len() < 0x1_0000_0000
            &&& forall|i: int| 0 <= i < es.len() ==> export_wf(#[trigger] es[i])
        }),
{
    let es = parse_export_payload(s)->Some_0;
    let (count, k) = parse_leb128(s)->Some_0;
    lemma_parse_leb128_sound(s);
    lemma_parse_export_list_sound(s.skip(k), count);
    let (es2, m) = parse_export_list(s.skip(k), count)->Some_0;
    assert(es == es2);
    assert(encode_export_list(es) == s.skip(k).take(m));
    assert(s.skip(k).take(m) =~= s.skip(k)) by {
        assert(k + m == s.len());
    }
    assert(encode_export_payload(es) =~= s) by {
        assert(leb128(count) == s.take(k));
    }
}

/// The first sanctioned entry point: "call".
pub open spec fn call_name() -> Seq<u8> {
    seq![0x63u8, 0x61u8, 0x6Cu8, 0x6Cu8]
}

/// The second sanctioned entry point: "deploy".
pub open spec fn deploy_name() -> Seq<u8> {
    seq![0x64u8, 0x65u8, 0x70u8, 0x6Cu8, 0x6Fu8, 0x79u8]
}

/// Whether a name stands on the fixed allow-list.
pub open spec fn allowed_name(name: Seq<u8>) -> bool {
    name == call_name() || name == deploy_name()
}

/// Whether the post-processor keeps an export entry: a function-kind
/// export with an allow-listed name.
pub open spec fn keep_export(e: ExportView) -> bool {
    e.kind == EXPORT_KIND_FUNCTION && allowed_name(e.name)
}

/// The kept entries, in order.
pub open spec fn filter_exports(es: Seq<ExportView>) -> Seq<ExportView>
    decreases es.len(),
{
    if es.len() == 0 {
        Seq::empty()
    } else {
        let rest = filter_exports(es.drop_first());
        if keep_export(es[0]) {
            seq![es[0]] + rest
        } else {
            rest
        }
    }
}

/// Filtering one more entry appends it exactly when it is kept.
pub proof fn lemma_filter_exports_snoc(es: Seq<ExportView>, i: int)
    requires
        0 <= i < es.len(),
    ensures
        keep_export(es[i]) ==> filter_exports(es.take(i + 1)) == filter_exports(es.take(i))
            + seq![es[i]],
        !keep_export(es[i]) ==> filter_exports(es.take(i + 1)) == filter_exports(es.take(i)),
    decreases i,
{
    if i == 0 {
        assert(es.take(1)[0] == es[0]);
        assert(es.take(1).drop_first() =~= Seq::<ExportView>::empty());
        assert(es.take(0) =~= Seq::<ExportView>::empty());
        assert(filter_exports(Seq::<ExportView>::empty()) =~= Seq::<ExportView>::empty());
        if keep_export(es[0]) {
            assert(filter_exports(es.take(1)) =~= filter_exports(es.take(0)) + seq![es[0]]);
        } else {
            assert(filter_exports(es.take(1)) =~= filter_exports(es.take(0)));
        }
    } else {
        lemma_filter_exports_snoc(es.drop_first(), i - 1);
        assert(es.take(i + 1).drop_first() =~= es.drop_first().take(i));
        assert(es.take(i).drop_first() =~= es.drop_first().take(i - 1));
        assert(es.take(i + 1)[0] == es[0]);
        assert(es.take(i)[0] == es[0]);
        assert(es.drop_first()[i - 1] == es[i]);
        if keep_export(es[i]) {
            assert(filter_exports(es.take(i + 1)) =~= filter_exports(es.take(i)) + seq![es[i]]);
        } else {
            assert(filter_exports(es.take(i + 1)) =~= filter_exports(es.take(i)));
        }
    }
}

/// Every kept entry is a function-kind export with an allow-listed
/// name, the kept entries are no more than the originals, and each
/// kept entry occurs among the originals.
pub proof fn lemma_filter_exports_properties(es: Seq<ExportView>)
    ensures
        forall|i: int| 0 <= i < filter_exports(es).len() ==> keep_export(
            #[trigger] filter_exports(es)[i],
        ),
        filter_exports(es).len() <= es.len(),
        forall|i: int|
            0 <= i < filter_exports(es).len() ==> es.contains(#[trigger] filter_exports(es)[i]),
    decreases es.len(),
{
    if es.len() > 0 {
        lemma_filter_exports_properties(es.drop_first());
        assert(forall|e: ExportView| es.drop_first().contains(e) ==> es.contains(e)) by {
            assert(forall|j: int|
                0 <= j < es.drop_first().len() ==> #[trigger] es.drop_first()[j] == es[j + 1]);
        }
        assert(es.contains(es[0]));
    }
}

/// The encoding of the kept entries alone is never longer than the
/// encoding of all the entries.
proof fn lemma_encode_filtered_list_len(es: Seq<ExportView>)
    ensures
        encode_export_list(filter_exports(es)).len() <= encode_export_list(es).len(),
    decreases es.len(),
{
    if es.len() > 0 {
        lemma_encode_filtered_list_len(es.drop_first());
        let fr = filter_exports(es.drop_first());
        if keep_export(es[0]) {
            assert((seq![es[0]] + fr).drop_first() =~= fr);
            assert((seq![es[0]] + fr)[0] == es[0]);
            assert((seq![es[0]] + fr).len() > 0);
        }
    }
}

/// A filtered payload never encodes longer than the original payload.
pub proof fn lemma_encode_filtered_payload_len(es: Seq<ExportView>)
    ensures
        encode_export_payload(filter_exports(es)).len() <= encode_export_payload(es).len(),
{
    lemma_filter_exports_properties(es);
    crate::leb128::lemma_leb128_len_mono(filter_exports(es).len(), es.len());
    lemma_encode_filtered_list_len(es);
}

/// Whether a name stands on the allow-list.
pub fn is_allowed_name(name: &Vec<u8>) -> (r: bool)
    ensures
        r == allowed_name(name@),
{
    let n = name.len();
    if n == 4 {
        let r = name[0] == 0x63 && name[1] == 0x61 && name[2] == 0x6C && name[3] == 0x6C;
        proof {
            if r {
                assert(name@ =~= call_name());
            } else {
                if name@ == call_name() {
                    assert(name@[0] == 0x63u8 && name@[1] == 0x61u8 && name@[2] == 0x6Cu8
                        && name@[3] == 0x6Cu8);
                }
            }
            assert(name@.len() != deploy_name().len());
        }
        r
    } else if n == 6 {
        let r = name[0] == 0x64 && name[1] == 0x65 && name[2] == 0x70 && name[3] == 0x6C
            && name[4] == 0x6F && name[5] == 0x79;
        proof {
            if r {
                assert(name@ =~= deploy_name());
            } else {
                if name@ == deploy_name() {
                    assert(name@[0] == 0x64u8 && name@[1] == 0x65u8 && name@[2] == 0x70u8
                        && name@[3] == 0x6Cu8 && name@[4] == 0x6Fu8 && name@[5] == 0x79u8);
                }
            }
            assert(name@.len() != call_name().len());
        }
        r
    } else {
        proof {
            assert(name@.len() != call_name().len() && name@.len() != deploy_name().len());
        }
        false
    }
}

/// Decode one export entry starting at `pos`: the entry and the
/// position after it, or nothing where no well formed entry starts
/// there.
pub fn decode_export(payload: &Vec<u8>, pos: usize) -> (r: Option<(Export, usize)>)
    requires
        pos <= payload@.len(),
    ensures
        match r {
            Some(e_end) => {
                &&& parse_export(payload@.skip(pos as int)) == Some(
                    (e_end.0@, (e_end.1 - pos) as int),
                )
                &&& pos < e_end.1 <= payload@.len()
            },
            None => parse_export(payload@.skip(pos as int)) is None,
        },
{
    let ghost s = payload@.skip(pos as int);
    let (nlen, after_len) = match decode_leb128(payload, pos) {
        None => {
            return None;
        },
        Some(v) => v,
    };
    proof {
        assert(parse_leb128(s) == Some((nlen as nat, (after_len - pos) as int)));
    }
    let ghost k1 = (after_len - pos) as int;
    if nlen > (payload.len() - after_len) as u64 {
        proof {
            assert(k1 + nlen > s.len());
        }
        return None;
    }
    let name_end = after_len + (nlen as usize);
    let name = copy_range(payload, after_len, name_end);
    proof {
        assert(s.subrange(k1, k1 + nlen) =~= payload@.subrange(
            after_len as int,
            name_end as int,
        ));
        assert(s.skip(k1 + nlen) =~= payload@.skip(name_end as int));
    }
    let ghost s2 = s.skip(k1 + nlen);
    if name_end >= payload.len() {
        proof {
            assert(s2.len() == 0);
        }
        return None;
    }
    let kind = payload[name_end];
    proof {
        assert(s2[0] == kind);
    }
    if kind > 3 {
        return None;
    }
    proof {
        assert(s2.drop_first() =~= payload@.skip(name_end + 1));
    }
    let (idx, after_idx) = match decode_leb128(payload, name_end + 1) {
        None => {
            return None;
        },
        Some(v) => v,
    };
    proof {
        assert(parse_leb128(s2.drop_first()) == Some((idx as nat, (after_idx - (name_end + 1)) as int)));
        assert(1 + (after_idx - (name_end + 1)) <= s2.len());
    }
    let e = Export { name, kind, index: idx as u32 };
    proof {
        let (ev, consumed) = parse_export(s)->Some_0;
        assert(ev =~= e@);
        assert(consumed == (after_idx - pos) as int);
    }
    Some((e, after_idx))
}

/// Decode a whole export section payload, or nothing where it is not
/// exactly a well formed export section.
pub fn decode_export_payload(payload: &Vec<u8>) -> (r: Option<Vec<Export>>)
    ensures
        match r {
            Some(es) => parse_export_payload(payload@) == Some(exports_view(es@)),
            None => parse_export_payload(payload@) is None,
        },
{
    let ghost s = payload@;
    proof {
        assert(s.skip(0) =~= s);
    }
    let (count, mut pos) = match decode_leb128(payload, 0) {
        None => {
            return None;
        },
        Some(v) => v,
    };
    proof {
        assert(parse_leb128(s) == Some((count as nat, pos as int)));
    }
    let ghost k = pos as int;
    let mut es: Vec<Export> = Vec::new();
    let mut done: u64 = 0;
    while done < count
        invariant
            done <= count,
            1 <= k <= pos <= payload@.len(),
            count < 0x1_0000_0000u64,
            parse_leb128(payload@) == Some((count as nat, k)),
            parse_export_list(payload@.skip(k), count as nat) == match parse_export_list(
                payload@.skip(pos as int),
                (count - done) as nat,
            ) {
                None => None::<(Seq<ExportView>, int)>,
                Some(rest_m) => Some((exports_view(es@) + rest_m.0, (pos - k) + rest_m.1)),
            },
        decreases count - done,
    {
        let (e, end) = match decode_export(payload, pos) {
            None => {
                proof {
                    assert(parse_export_list(payload@.skip(pos as int), (count - done) as nat)
                        is None);
                }
                return None;
            },
            Some(v) => v,
        };
        proof {
            assert(payload@.skip(pos as int).skip((end - pos) as int) =~= payload@.skip(
                end as int,
            ));
            let ghost prev = exports_view(es@);
            assert(exports_view(es@.push(e)) =~= prev.push(e@));
            assert(forall|rest: Seq<ExportView>|
                prev + (seq![e@] + rest) =~= (prev.push(e@) + rest));
        }
        es.push(e);
        pos = end;
        done = done + 1;
    }
    if pos != payload.len() {
        proof {
            assert(payload@.skip(pos as int).skip(0) =~= payload@.skip(pos as int));
            assert(parse_export_list(payload@.skip(pos as int), 0nat) == Some(
                (Seq::<ExportView>::empty(), 0int),
            ));
        }
        return None;
    }
    proof {
        assert(parse_export_list(payload@.skip(pos as int), 0nat) == Some(
            (Seq::<ExportView>::empty(), 0int),
        ));
        assert(exports_view(es@) + Seq::<ExportView>::empty() =~= exports_view(es@));
    }
    Some(es)
}

/// Keep only the sanctioned entries, in order.
pub fn filter_allowed_exports(es: Vec<Export>) -> (r: Vec<Export>)
    ensures
        exports_view(r@) == filter_exports(exports_view(es@)),
{
    let ghost orig = exports_view(es@);
    let mut kept: Vec<Export> = Vec::new();
    let mut rest = es;
    let total = rest.len();
    proof {
        assert(orig.len() == total as nat);
    }
    let mut done: usize = 0;
    while rest.len() > 0
        invariant
            done + rest@.len() == orig.len(),
            orig.len() <= usize::MAX as nat,
            forall|j: int| 0 <= j < rest@.len() ==> #[trigger] rest@[j]@ == orig[done + j],
            exports_view(kept@) == filter_exports(orig.take(done as int)),
        decreases rest@.len(),
    {
        let e = rest.remove(0);
        proof {
            assert(e@ == orig[done as int]);
            lemma_filter_exports_snoc(orig, done as int);
            assert(forall|j: int|
                0 <= j < rest@.len() ==> #[trigger] rest@[j]@ == orig[done + 1 + j]);
        }
        let keep = e.kind == 0 && is_allowed_name(&e.name);
        if keep {
            proof {
                let prev = exports_view(kept@);
                assert(exports_view(kept@.push(e)) =~= prev.push(e@));
                assert(prev + seq![e@] =~= prev.push(e@));
            }
            kept.push(e);
        }
        done = done + 1;
    }
    proof {
        assert(orig.take(done as int) =~= orig);
    }
    kept
}

/// Append one encoded export entry.
fn encode_export_into(out: &mut Vec<u8>, e: &Export)
    ensures
        final(out)@ == old(out)@ + encode_export(e@),
{
    let mut len_bytes = leb128_bytes(e.name.len() as u64);
    out.append(&mut len_bytes);
    let mut name = copy_range(&e.name, 0, e.name.len());
    proof {
        assert(e.name@.subrange(0, e.name@.len() as int) =~= e.name@);
    }
    out.append(&mut name);
    out.push(e.kind);
    let mut idx_bytes = leb128_bytes(e.index as u64);
    out.append(&mut idx_bytes);
    proof {
        assert(out@ =~= old(out)@ + encode_export(e@));
    }
}

/// Encode a whole export section payload from its entries.
pub fn encode_export_payload_bytes(es: &Vec<Export>) -> (r: Vec<u8>)
    ensures
        r@ == encode_export_payload(exports_view(es@)),
{
    let ghost views = exports_view(es@);
    let mut r = leb128_bytes(es.len() as u64);
    let mut i: usize = 0;
    while i < es.len()
        invariant
            i <= es.len(),
            views == exports_view(es@),
            views.len() == es@.len(),
            r@ == leb128(views.len()) + encode_export_list_prefix(views, i as int),
        decreases es.len() - i,
    {
        proof {
            lemma_encode_export_list_snoc(views, i as int);
        }
        encode_export_into(&mut r, &es[i]);
        proof {
            assert(views[i as int] == es@[i as int]@);
            assert(r@ =~= leb128(views.len()) + encode_export_list_prefix(views, i + 1));
        }
        i += 1;
    }
    proof {
        assert(views.take(views.len() as int) =~= views);
    }
    r
}

/// The encoding of the first `i` entries of a list.
pub open spec fn encode_export_list_prefix(es: Seq<ExportView>, i: int) -> Seq<u8> {
    encode_export_list(es.take(i))
}

/// Appending one encoded entry extends the encoding of the list.
pub proof fn lemma_encode_export_list_snoc(es: Seq<ExportView>, i: int)
    requires
        0 <= i < es.len(),
    ensures
        encode_export_list(es.take(i + 1)) == encode_export_list(es.take(i)) + encode_export(
            es[i],
        ),
    decreases i,
{
    if i == 0 {
        assert(es.take(1)[0] == es[0]);
        assert(es.take(1).drop_first() =~= Seq::<ExportView>::empty());
        assert(es.take(0) =~= Seq::<ExportView>::empty());
        assert(encode_export_list(es.take(1)) =~= encode_export_list(es.take(0)) + encode_export(
            es[0],
        ));
    } else {
        lemma_encode_export_list_snoc(es.drop_first(), i - 1);
        assert(es.take(i + 1).drop_first() =~= es.drop_first().take(i));
        assert(es.take(i).drop_first() =~= es.drop_first().take(i - 1));
        assert(es.take(i + 1)[0] == es[0]);
        assert(es.take(i)[0] == es[0]);
        assert(es.drop_first()[i - 1] == es[i]);
        assert(encode_export_list(es.take(i + 1)) =~= encode_export_list(es.take(i))
            + encode_export(es[i]));
    }
}

} // verus!
