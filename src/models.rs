use vstd::prelude::*;
use vstd::string::StringExecFns;

verus! {

/// One required artifact: identity, where it comes from, and where it lands.
#[derive(Clone, Copy, Debug)]
pub struct ModelEntry {
    pub id: &'static str,
    pub name: &'static str,
    pub url: &'static str,
    pub filename: &'static str,
    pub size_bytes: u64,
}

/// The entry for the speech recognition weights.
pub open spec fn whisper_tiny() -> ModelEntry {
    ModelEntry {
        id: "whisper-tiny",
        name: "Voice Recognition (Whisper Tiny)",
        url: "https://huggingface.co/ggerganov/whisper.cpp/resolve/main/ggml-tiny.bin",
        filename: "ggml-tiny.bin",
        size_bytes: 77_704_680,
    }
}

/// The manifest that this application ships with, in download order.
pub open spec fn required_spec() -> Seq<ModelEntry> {
    seq![whisper_tiny()]
}

/// Ids and filenames are unique across a manifest.
pub open spec fn manifest_wf(m: Seq<ModelEntry>) -> bool {
    forall|i: int, j: int|
        0 <= i < m.len() && 0 <= j < m.len() && i != j ==> (#[trigger] m[i]).id@ != (#[trigger] m[j]).id@
            && m[i].filename@ != m[j].filename@
}

/// The entries of `m` whose file is not present, in manifest order.
/// `present[i]` tells whether the file of `m[i]` exists in storage.
pub open spec fn missing_spec(m: Seq<ModelEntry>, present: Seq<bool>) -> Seq<ModelEntry>
    decreases m.len(),
{
    if m.len() == 0 || present.len() < m.len() {
        Seq::empty()
    } else {
        let rest = missing_spec(m.drop_last(), present.subrange(0, m.len() - 1));
        if present[m.len() - 1] {
            rest
        } else {
            rest.push(m.last())
        }
    }
}

/// Name of the temporary file that a download is written to before it is
/// renamed into place.
pub open spec fn temp_name(filename: Seq<char>) -> Seq<char> {
    filename + ".tmp"@
}

/// The manifest this application requires.
pub fn required_models() -> (r: Vec<ModelEntry>)
    ensures
        r@ == required_spec(),
        manifest_wf(r@),
{
    let r = vec![
        ModelEntry {
            id: "whisper-tiny",
            name: "Voice Recognition (Whisper Tiny)",
            url: "https://huggingface.co/ggerganov/whisper.cpp/resolve/main/ggml-tiny.bin",
            filename: "ggml-tiny.bin",
            size_bytes: 77_704_680,
        },
    ];
    assert(r@ =~= required_spec());
    r
}

/// The entries of `manifest` whose file is absent, in manifest order.
/// `present[i]` tells whether `<storage dir>/<manifest[i].filename>` exists.
pub fn missing_models(manifest: &Vec<ModelEntry>, present: &Vec<bool>) -> (r: Vec<ModelEntry>)
    requires
        present.len() == manifest.len(),
    ensures
        r@ == missing_spec(manifest@, present@),
{
    let mut r: Vec<ModelEntry> = Vec::new();
    let mut i: usize = 0;
    while i < manifest.len()
        invariant
            i <= manifest.len(),
            present.len() == manifest.len(),
            r@ == missing_spec(manifest@.subrange(0, i as int), present@.subrange(0, i as int)),
        decreases manifest.len() - i,
    {
        proof {
            let m1 = manifest@.subrange(0, i + 1);
            let p1 = present@.subrange(0, i + 1);
            assert(m1.drop_last() =~= manifest@.subrange(0, i as int));
            assert(p1.subrange(0, i as int) =~= present@.subrange(0, i as int));
        }
        if !present[i] {
            r.push(manifest[i]);
        }
        i = i + 1;
    }
    assert(manifest@.subrange(0, i as int) =~= manifest@);
    assert(present@.subrange(0, i as int) =~= present@);
    r
}

/// For every manifest `m` and every storage state `d` (the set of file names
/// present), the missing entries are exactly those of `m` whose filename is
/// not in `d`, in the manifest's order.
pub proof fn lemma_missing_is_absent_subset(m: Seq<ModelEntry>, present: Seq<bool>, d: Set<Seq<char>>)
    requires
        present.len() == m.len(),
        forall|i: int| 0 <= i < m.len() ==> #[trigger] present[i] == d.contains(m[i].filename@),
    ensures
        missing_spec(m, present) == m.filter(|e: ModelEntry| !d.contains(e.filename@)),
    decreases m.len(),
{
    let keep = |e: ModelEntry| !d.contains(e.filename@);
    reveal(Seq::filter);
    if m.len() == 0 {
        assert(m.filter(keep) =~= Seq::<ModelEntry>::empty());
    } else {
        let p0 = present.subrange(0, m.len() - 1);
        let m0 = m.drop_last();
        assert forall|i: int| 0 <= i < m0.len() implies #[trigger] p0[i] == d.contains(m0[i].filename@) by {
            assert(present[i] == d.contains(m[i].filename@));
        }
        lemma_missing_is_absent_subset(m0, p0, d);
        assert(present[m.len() - 1] == d.contains(m[m.len() - 1].filename@));
        assert(m.filter(keep) == if keep(m.last()) { m0.filter(keep).push(m.last()) } else { m0.filter(keep) });
    }
}

/// Nothing is missing exactly when every file of the manifest is present.
pub proof fn lemma_none_missing_iff_all_present(m: Seq<ModelEntry>, present: Seq<bool>)
    requires
        present.len() == m.len(),
    ensures
        (missing_spec(m, present).len() == 0) == (forall|i: int| 0 <= i < m.len() ==> #[trigger] present[i]),
    decreases m.len(),
{
    if m.len() > 0 {
        let p0 = present.subrange(0, m.len() - 1);
        lemma_none_missing_iff_all_present(m.drop_last(), p0);
        if forall|i: int| 0 <= i < m.len() ==> #[trigger] present[i] {
            assert forall|i: int| 0 <= i < p0.len() implies #[trigger] p0[i] by {
                assert(present[i]);
            }
            assert(present[m.len() - 1]);
        } else {
            let k = choose|i: int| 0 <= i < m.len() && !#[trigger] present[i];
            if k < m.len() - 1 {
                assert(!p0[k]);
            }
        }
    }
}

/// The ids of the entries of `manifest` whose file is absent, in manifest order.
pub fn check_models(manifest: &Vec<ModelEntry>, present: &Vec<bool>) -> (r: Vec<String>)
    requires
        present.len() == manifest.len(),
    ensures
        r@.len() == missing_spec(manifest@, present@).len(),
        forall|i: int| 0 <= i < r@.len() ==> (#[trigger] r@[i])@ == missing_spec(manifest@, present@)[i].id@,
{
    let missing = missing_models(manifest, present);
    let mut r: Vec<String> = Vec::new();
    let mut i: usize = 0;
    while i < missing.len()
        invariant
            i <= missing.len(),
            r@.len() == i,
            forall|k: int| 0 <= k < i ==> (#[trigger] r@[k])@ == missing@[k].id@,
        decreases missing.len() - i,
    {
        r.push(missing[i].id.to_owned());
        i = i + 1;
    }
    r
}

/// The temporary file name for `filename`: the same name with `.tmp` appended.
pub fn temp_filename(filename: &str) -> (r: String)
    ensures
        r@ == temp_name(filename@),
{
    String::from_str(filename).concat(".tmp")
}

} // verus!
