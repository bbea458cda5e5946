//! Candidate build entries, collected from a source directory listing.
//!
//! The collector receives the directory's immediate children as plain
//! values — one name and content pair per file — together with the
//! names of the cache markers already present in the output directory.
//! Files without the recognized source extension are silently ignored;
//! a file whose fingerprint marker is already present is dropped as
//! already built and still valid.
use vstd::prelude::*;

use crate::fingerprint::spec_fingerprint;
use crate::fingerprint::fingerprint;

verus! {

/// One immediate child of the source directory: its file name and its
/// full content, both as plain bytes.
pub struct SourceFile {
    /// The file's name within the source directory.
    pub name: Vec<u8>,
    /// The file's content.
    pub contents: Vec<u8>,
}

/// One unit that still has to be built.
pub struct Entry {
    /// The name of the source file the unit is built from.
    pub file_name: Vec<u8>,
    /// The unit's name: the source file's stem.
    pub unit_name: Vec<u8>,
    /// The hexadecimal content fingerprint of the source file.
    pub fingerprint: Vec<u8>,
}

/// The recognized source extension, with its leading dot: ".src".
pub open spec fn source_ext() -> Seq<u8> {
    seq![0x2Eu8, 0x73u8, 0x72u8, 0x63u8]
}

/// The extension of a committed binary, with its leading dot: ".wasm".
pub open spec fn binary_ext() -> Seq<u8> {
    seq![0x2Eu8, 0x77u8, 0x61u8, 0x73u8, 0x6Du8]
}

/// Whether a file name carries the recognized source extension, with a
/// nonempty stem before it.
pub open spec fn has_source_ext(name: Seq<u8>) -> bool {
    name.len() > 4 && name.subrange(name.len() - 4, name.len() as int) == source_ext()
}

/// The stem of a recognized source file name: the name without its
/// extension.
pub open spec fn stem_of(name: Seq<u8>) -> Seq<u8>
    recommends
        has_source_ext(name),
{
    name.take(name.len() - 4)
}

/// The name of the committed binary of a unit.
pub open spec fn binary_name_of(unit_name: Seq<u8>) -> Seq<u8> {
    unit_name + binary_ext()
}

/// Whether a marker for the given fingerprint is present in the output
/// directory listing.
pub open spec fn marker_present(markers: Seq<Vec<u8>>, fp: Seq<u8>) -> bool {
    exists|i: int| 0 <= i < markers.len() && markers[i]@ == fp
}

/// Whether a source file must be rebuilt: it carries the recognized
/// extension and no marker for its fingerprint exists yet.
pub open spec fn survives(f: SourceFile, markers: Seq<Vec<u8>>) -> bool {
    has_source_ext(f.name@) && !marker_present(markers, spec_fingerprint(f.contents@))
}

/// The surviving source files, in input order.
pub open spec fn spec_collect(files: Seq<SourceFile>, markers: Seq<Vec<u8>>) -> Seq<SourceFile>
    decreases files.len(),
{
    if files.len() == 0 {
        Seq::empty()
    } else {
        let rest = spec_collect(files.drop_first(), markers);
        if survives(files[0], markers) {
            seq![files[0]] + rest
        } else {
            rest
        }
    }
}

/// Whether an entry describes a source file: name kept, unit name the
/// stem, fingerprint the content fingerprint.
pub open spec fn entry_describes(e: Entry, f: SourceFile) -> bool {
    &&& e.file_name@ == f.name@
    &&& e.unit_name@ == stem_of(f.name@)
    &&& e.fingerprint@ == spec_fingerprint(f.contents@)
}

impl Entry {
    /// Build the entry of one recognized source file.
    pub fn new(f: &SourceFile) -> (e: Entry)
        requires
            has_source_ext(f.name@),
        ensures
            entry_describes(e, *f),
    {
        let mut file_name: Vec<u8> = Vec::new();
        let mut i: usize = 0;
        while i < f.name.len()
            invariant
                i <= f.name.len(),
                file_name@ == f.name@.take(i as int),
            decreases f.name.len() - i,
        {
            file_name.push(f.name[i]);
            proof {
                assert(file_name@ =~= f.name@.take(i + 1));
            }
            i += 1;
        }
        proof {
            assert(file_name@ =~= f.name@);
        }
        let mut unit_name: Vec<u8> = Vec::new();
        let stem_len = f.name.len() - 4;
        let mut j: usize = 0;
        while j < stem_len
            invariant
                j <= stem_len,
                stem_len == f.name@.len() - 4,
                unit_name@ == f.name@.take(j as int),
            decreases stem_len - j,
        {
            unit_name.push(f.name[j]);
            proof {
                assert(unit_name@ =~= f.name@.take(j + 1));
            }
            j += 1;
        }
        let fp = fingerprint(&f.contents);
        Entry { file_name, unit_name, fingerprint: fp }
    }

    /// The name of the binary this unit commits: its stem followed by
    /// the binary extension.
    pub fn out_binary_name(&self) -> (r: Vec<u8>)
        ensures
            r@ == binary_name_of(self.unit_name@),
    {
        let mut r: Vec<u8> = Vec::new();
        let mut i: usize = 0;
        while i < self.unit_name.len()
            invariant
                i <= self.unit_name.len(),
                r@ == self.unit_name@.take(i as int),
            decreases self.unit_name.len() - i,
        {
            r.push(self.unit_name[i]);
            proof {
                assert(r@ =~= self.unit_name@.take(i + 1));
            }
            i += 1;
        }
        proof {
            assert(r@ =~= self.unit_name@);
        }
        r.push(0x2E);
        r.push(0x77);
        r.push(0x61);
        r.push(0x73);
        r.push(0x6D);
        proof {
            assert(r@ =~= binary_name_of(self.unit_name@));
        }
        r
    }
}

/// Whether a file name ends in the recognized source extension.
pub fn ends_with_source_ext(name: &Vec<u8>) -> (r: bool)
    ensures
        r == has_source_ext(name@),
{
    let n = name.len();
    if n <= 4 {
        return false;
    }
    let r = name[n - 4] == 0x2E && name[n - 3] == 0x73 && name[n - 2] == 0x72 && name[n - 1]
        == 0x63;
    proof {
        if r {
            assert(name@.subrange(name@.len() - 4, name@.len() as int) =~= source_ext());
        } else {
            assert(name@.subrange(name@.len() - 4, name@.len() as int) != source_ext()) by {
                if name@.subrange(name@.len() - 4, name@.len() as int) == source_ext() {
                    assert(name@[name@.len() - 4] == 0x2Eu8);
                    assert(name@[name@.len() - 3] == 0x73u8);
                    assert(name@[name@.len() - 2] == 0x72u8);
                    assert(name@[name@.len() - 1] == 0x63u8);
                }
            }
        }
    }
    r
}

/// Whether two byte vectors hold the same bytes.
pub fn bytes_eq(a: &Vec<u8>, b: &Vec<u8>) -> (r: bool)
    ensures
        r == (a@ == b@),
{
    let r = a == b;
    proof {
        if r {
            assert(a@ =~= b@);
        }
    }
    r
}

/// Whether the output directory listing holds a marker of this name.
pub fn contains_marker(markers: &Vec<Vec<u8>>, fp: &Vec<u8>) -> (r: bool)
    ensures
        r == marker_present(markers@, fp@),
{
    let mut i: usize = 0;
    while i < markers.len()
        invariant
            i <= markers.len(),
            forall|j: int| 0 <= j < i ==> markers@[j]@ != fp@,
        decreases markers.len() - i,
    {
        if bytes_eq(&markers[i], fp) {
            return true;
        }
        i += 1;
    }
    false
}

/// Scan the source directory listing and keep one entry per source
/// file that still has to be built: recognized extension, no marker
/// for its fingerprint yet. Files without the recognized extension are
/// silently ignored; input order is kept.
pub fn collect_entries(files: &Vec<SourceFile>, markers: &Vec<Vec<u8>>) -> (r: Vec<Entry>)
    ensures
        r@.len() == spec_collect(files@, markers@).len(),
        forall|i: int|
            0 <= i < r@.len() ==> entry_describes(r@[i], #[trigger] spec_collect(files@, markers@)[i]),
{
    let mut r: Vec<Entry> = Vec::new();
    let mut i: usize = 0;
    while i < files.len()
        invariant
            i <= files.len(),
            r@.len() == spec_collect(files@.take(i as int), markers@).len(),
            forall|j: int|
                0 <= j < r@.len() ==> entry_describes(
                    r@[j],
                    #[trigger] spec_collect(files@.take(i as int), markers@)[j],
                ),
        decreases files.len() - i,
    {
        let f = &files[i];
        proof {
            lemma_collect_snoc(files@, markers@, i as int);
        }
        if ends_with_source_ext(&f.name) {
            let fp = fingerprint(&f.contents);
            if !contains_marker(markers, &fp) {
                let e = Entry::new(f);
                r.push(e);
            }
        }
        i += 1;
    }
    proof {
        assert(files@.take(files@.len() as int) =~= files@);
    }
    r
}

/// Collecting over one more file appends that file's entry exactly
/// when it survives.
pub proof fn lemma_collect_snoc(files: Seq<SourceFile>, markers: Seq<Vec<u8>>, i: int)
    requires
        0 <= i < files.len(),
    ensures
        survives(files[i], markers) ==> spec_collect(files.take(i + 1), markers) == spec_collect(
            files.take(i),
            markers,
        ) + seq![files[i]],
        !survives(files[i], markers) ==> spec_collect(files.take(i + 1), markers) == spec_collect(
            files.take(i),
            markers,
        ),
    decreases i,
{
    if i == 0 {
        let s1 = files.take(1);
        assert(s1.len() == 1);
        assert(s1[0] == files[0]);
        assert(s1.drop_first() =~= Seq::<SourceFile>::empty());
        assert(files.take(0) =~= Seq::<SourceFile>::empty());
        assert(spec_collect(Seq::<SourceFile>::empty(), markers) =~= Seq::<SourceFile>::empty());
        if survives(files[0], markers) {
            assert(spec_collect(s1, markers) =~= spec_collect(files.take(0), markers)
                + seq![files[0]]);
        } else {
            assert(spec_collect(s1, markers) =~= spec_collect(files.take(0), markers));
        }
    } else {
        lemma_collect_snoc(files.drop_first(), markers, i - 1);
        assert(files.take(i + 1).drop_first() =~= files.drop_first().take(i));
        assert(files.take(i).drop_first() =~= files.drop_first().take(i - 1));
        assert(files.take(i + 1)[0] == files[0]);
        assert(files.take(i)[0] == files[0]);
        assert(files.drop_first()[i - 1] == files[i]);
        if survives(files[i], markers) {
            assert(spec_collect(files.take(i + 1), markers) =~= spec_collect(files.take(i), markers)
                + seq![files[i]]);
        } else {
            assert(spec_collect(files.take(i + 1), markers) =~= spec_collect(
                files.take(i),
                markers,
            ));
        }
    }
}

} // verus!
