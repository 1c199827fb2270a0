use vstd::prelude::*;
use vstd::string::StrSliceExecFns;

use crate::text::chars_of;
use crate::sample_tree::{SampleBrowserState, SampleTree, children_of, files_only, label_of, node_wf, SampleNode, TreeLine, TreeLineKind};

verus! {

/// The lowercase form of a string, as `str::to_lowercase` computes it (Unicode case mapping).
pub uninterp spec fn lowercase_of(s: Seq<char>) -> Seq<char>;

/// Calls `str::to_lowercase`. Its result is the named function `lowercase_of` of the input;
/// nothing else about the Unicode case mapping is claimed.
#[verifier::external_body]
pub(crate) fn to_lowercase(s: &str) -> (r: String)
    ensures
        r@ == lowercase_of(s@),
{
    s.to_lowercase()
}


/// `a` sorts before or together with `b`: lexicographic order on code points
/// (for UTF-8 text this is the byte order in which strings compare).
pub open spec fn lex_le(a: Seq<char>, b: Seq<char>) -> bool
    decreases a.len(),
{
    if a.len() == 0 {
        true
    } else if b.len() == 0 {
        false
    } else if a[0] != b[0] {
        (a[0] as u32) < (b[0] as u32)
    } else {
        lex_le(a.drop_first(), b.drop_first())
    }
}

fn lex_le_exec(a: &Vec<char>, b: &Vec<char>) -> (r: bool)
    ensures
        r == lex_le(a@, b@),
{
    let mut i: usize = 0;
    proof {
        assert(a@.skip(0) =~= a@);
        assert(b@.skip(0) =~= b@);
    }
    while i < a.len() && i < b.len() && a[i] == b[i]
        invariant
            i <= a@.len(),
            i <= b@.len(),
            lex_le(a@, b@) == lex_le(a@.skip(i as int), b@.skip(i as int)),
        decreases a@.len() - i,
    {
        proof {
            assert(a@.skip(i as int).drop_first() =~= a@.skip(i as int + 1));
            assert(b@.skip(i as int).drop_first() =~= b@.skip(i as int + 1));
        }
        i += 1;
    }
    if i == a.len() {
        true
    } else if i == b.len() {
        false
    } else {
        (a[i] as u32) < (b[i] as u32)
    }
}

/// Inserts index `x` into `t` after every index whose key sorts before or with that of `x`,
/// looking from the back.
pub open spec fn insert_key(t: Seq<usize>, x: usize, keys: Seq<Seq<char>>) -> Seq<usize>
    decreases t.len(),
{
    if t.len() == 0 || lex_le(keys[t.last() as int], keys[x as int]) {
        t.push(x)
    } else {
        insert_key(t.drop_last(), x, keys).push(t.last())
    }
}

/// The indices `0..n` in the order of their keys, equal keys keeping their order.
pub open spec fn sort_key(n: nat, keys: Seq<Seq<char>>) -> Seq<usize>
    decreases n,
{
    if n == 0 {
        Seq::empty()
    } else {
        insert_key(sort_key((n - 1) as nat, keys), (n - 1) as usize, keys)
    }
}

proof fn lemma_insert_key_split(t: Seq<usize>, x: usize, keys: Seq<Seq<char>>, j: int)
    requires
        0 <= j <= t.len(),
        forall|i: int| j <= i < t.len() ==> !lex_le(#[trigger] keys[t[i] as int], keys[x as int]),
    ensures
        insert_key(t, x, keys) == insert_key(t.take(j), x, keys) + t.skip(j),
    decreases t.len() - j,
{
    if j < t.len() {
        let dl = t.drop_last();
        lemma_insert_key_split(dl, x, keys, j);
        assert(dl.take(j) =~= t.take(j));
        assert(t.skip(j) =~= dl.skip(j).push(t.last()));
        assert(insert_key(t, x, keys) =~= insert_key(t.take(j), x, keys) + t.skip(j));
    } else {
        assert(t.take(j) =~= t);
        assert(insert_key(t, x, keys) + t.skip(j) =~= insert_key(t, x, keys));
    }
}

/// The stable order of `keys` as a list of indices (see [`sort_key`]).
pub fn sort_indices_by_key(keys: &Vec<Vec<char>>) -> (r: Vec<usize>)
    ensures
        r@ == sort_key(keys@.len() as nat, keys@.map_values(|k: Vec<char>| k@)),
{
    let ghost kv = keys@.map_values(|k: Vec<char>| k@);
    let mut out: Vec<usize> = Vec::new();
    let mut n: usize = 0;
    while n < keys.len()
        invariant
            n <= keys@.len(),
            kv == keys@.map_values(|k: Vec<char>| k@),
            out@ == sort_key(n as nat, kv),
            forall|i: int| 0 <= i < out@.len() ==> #[trigger] out@[i] < n,
        decreases keys@.len() - n,
    {
        let ghost t = out@;
        let mut j = out.len();
        while j > 0 && !lex_le_exec(&keys[out[j - 1]], &keys[n])
            invariant
                j <= out@.len(),
                n < keys@.len(),
                out@ == t,
                kv == keys@.map_values(|k: Vec<char>| k@),
                forall|i: int| 0 <= i < out@.len() ==> #[trigger] out@[i] < n,
                forall|i: int|
                    j <= i < t.len() ==> !lex_le(#[trigger] kv[t[i] as int], kv[n as int]),
            decreases j,
        {
            j -= 1;
        }
        proof {
            lemma_insert_key_split(t, n, kv, j as int);
            if j > 0 {
                assert(t.take(j as int).last() == t[j - 1]);
            }
            assert(insert_key(t.take(j as int), n, kv) == t.take(j as int).push(n));
        }
        out.insert(j, n);
        proof {
            assert(out@ =~= t.take(j as int).push(n) + t.skip(j as int));
            assert(out@ == sort_key((n + 1) as nat, kv));
            assert forall|i: int| 0 <= i < out@.len() implies #[trigger] out@[i] < n + 1 by {
                if i < j {
                    assert(out@[i] == t[i]);
                } else if i > j {
                    assert(out@[i] == t[i - 1]);
                }
            }
        }
        n += 1;
    }
    out
}


/// `s` ends with `suf`.
pub open spec fn ends_with(s: Seq<char>, suf: Seq<char>) -> bool {
    suf.len() <= s.len() && s.skip(s.len() - suf.len()) == suf
}

/// A lowercase name ends with one of the audio extensions the browser lists
/// (wav, flac, ogg, aiff, aif, mp3; no dot is required).
pub open spec fn has_audio_extension(lower: Seq<char>) -> bool {
    ||| ends_with(lower, seq!['w', 'a', 'v'])
    ||| ends_with(lower, seq!['f', 'l', 'a', 'c'])
    ||| ends_with(lower, seq!['o', 'g', 'g'])
    ||| ends_with(lower, seq!['a', 'i', 'f', 'f'])
    ||| ends_with(lower, seq!['a', 'i', 'f'])
    ||| ends_with(lower, seq!['m', 'p', '3'])
}

/// A file name the sample browser lists as audio.
pub open spec fn is_audio_name(name: Seq<char>) -> bool {
    has_audio_extension(lowercase_of(name))
}

fn ends_with_chars(s: &Vec<char>, suf: &[char]) -> (r: bool)
    ensures
        r == ends_with(s@, suf@),
{
    if suf.len() > s.len() {
        return false;
    }
    let off = s.len() - suf.len();
    let mut i: usize = 0;
    while i < suf.len()
        invariant
            off == s@.len() - suf@.len(),
            suf@.len() <= s@.len(),
            s@.len() <= usize::MAX,
            i <= suf@.len(),
            forall|k: int| 0 <= k < i ==> s@[off + k] == suf@[k],
        decreases suf@.len() - i,
    {
        if s[off + i] != suf[i] {
            proof {
                assert(s@.skip(off as int)[i as int] != suf@[i as int]);
            }
            return false;
        }
        i += 1;
    }
    proof {
        assert(s@.skip(off as int) =~= suf@);
    }
    true
}

/// Whether a lowercase name ends with one of the audio extensions.
pub fn has_audio_extension_exec(lower: &Vec<char>) -> (r: bool)
    ensures
        r == has_audio_extension(lower@),
{
    let wav = ['w', 'a', 'v'];
    let flac = ['f', 'l', 'a', 'c'];
    let ogg = ['o', 'g', 'g'];
    let aiff = ['a', 'i', 'f', 'f'];
    let aif = ['a', 'i', 'f'];
    let mp3 = ['m', 'p', '3'];
    proof {
        assert(wav@ =~= seq!['w', 'a', 'v']);
        assert(flac@ =~= seq!['f', 'l', 'a', 'c']);
        assert(ogg@ =~= seq!['o', 'g', 'g']);
        assert(aiff@ =~= seq!['a', 'i', 'f', 'f']);
        assert(aif@ =~= seq!['a', 'i', 'f']);
        assert(mp3@ =~= seq!['m', 'p', '3']);
    }
    ends_with_chars(lower, &wav) || ends_with_chars(lower, &flac) || ends_with_chars(lower, &ogg)
        || ends_with_chars(lower, &aiff) || ends_with_chars(lower, &aif) || ends_with_chars(
        lower,
        &mp3,
    )
}

/// Whether the browser lists a file of this name as audio: its lowercase form ends with
/// one of the audio extensions.
pub fn is_audio_file(name: &str) -> (r: bool)
    ensures
        r == is_audio_name(name@),
{
    let lower = to_lowercase(name);
    let chars = chars_of(lower.as_str());
    has_audio_extension_exec(&chars)
}


/// One entry of a directory listing, as the file system reported it.
pub struct DirEntryInfo {
    pub name: String,
    /// The file type was read and is a directory.
    pub is_dir: bool,
    /// The file type was read and is a regular file.
    pub is_file: bool,
    /// For a directory: its own entries, or `None` when it could not be read.
    pub contents: Option<Vec<DirEntryInfo>>,
}

/// Whether an entry is listed as a sample: an audio name that is a regular file inside a
/// folder, or anything but a directory at the top of a library.
pub open spec fn picks(e: DirEntryInfo, in_folder: bool) -> bool {
    is_audio_name(e.name@) && if in_folder {
        e.is_file
    } else {
        !e.is_dir
    }
}

/// Names of the sample entries of `es`, in listing order.
pub open spec fn sample_names(es: Seq<DirEntryInfo>, in_folder: bool) -> Seq<Seq<char>>
    decreases es.len(),
{
    if es.len() == 0 {
        Seq::empty()
    } else {
        sample_names(es.drop_last(), in_folder) + if picks(es.last(), in_folder) {
            seq![es.last().name@]
        } else {
            Seq::empty()
        }
    }
}

/// `names` in the stable order of their lowercase forms.
pub open spec fn sorted_by_lower(names: Seq<Seq<char>>) -> Seq<Seq<char>> {
    sort_key(names.len(), names.map_values(|n: Seq<char>| lowercase_of(n))).map_values(
        |i: usize| names[i as int],
    )
}

/// The directories among `es`, in listing order.
pub open spec fn dir_entries(es: Seq<DirEntryInfo>) -> Seq<DirEntryInfo>
    decreases es.len(),
{
    if es.len() == 0 {
        Seq::empty()
    } else {
        dir_entries(es.drop_last()) + if es.last().is_dir {
            seq![es.last()]
        } else {
            Seq::empty()
        }
    }
}

/// `ds` in the stable order of their lowercase names.
pub open spec fn sorted_entries(ds: Seq<DirEntryInfo>) -> Seq<DirEntryInfo> {
    sort_key(ds.len(), ds.map_values(|d: DirEntryInfo| lowercase_of(d.name@))).map_values(
        |i: usize| ds[i as int],
    )
}

/// The sample file names a directory entry holds, sorted; `None` if it could not be read.
pub open spec fn folder_files(d: DirEntryInfo) -> Option<Seq<Seq<char>>> {
    match d.contents {
        Some(es) => Some(sorted_by_lower(sample_names(es@, true))),
        None => None,
    }
}

/// A directory is kept as a folder when it could be read and holds some sample.
pub open spec fn folder_kept(d: DirEntryInfo) -> bool {
    folder_files(d) matches Some(fs) && fs.len() > 0
}

pub open spec fn kept_folders(ds: Seq<DirEntryInfo>) -> Seq<DirEntryInfo>
    decreases ds.len(),
{
    if ds.len() == 0 {
        Seq::empty()
    } else {
        kept_folders(ds.drop_last()) + if folder_kept(ds.last()) {
            seq![ds.last()]
        } else {
            Seq::empty()
        }
    }
}

/// `cs` are file nodes named `names`, in order.
pub open spec fn files_named(cs: Seq<SampleNode>, names: Seq<Seq<char>>) -> bool {
    &&& cs.len() == names.len()
    &&& forall|i: int| 0 <= i < cs.len() ==> #[trigger] cs[i] is File && label_of(cs[i]) == names[i]
}

/// Node `n` is the collapsed folder that directory `d` yields.
pub open spec fn folder_node_of(n: SampleNode, d: DirEntryInfo) -> bool {
    &&& n matches SampleNode::Folder { name, expanded, .. }
    &&& name@ == d.name@
    &&& !expanded
    &&& files_named(children_of(n), folder_files(d)->0)
}

/// `nodes` is what a library listing `es` yields: its kept folders (sorted by lowercase
/// name, each holding its sorted sample files), then its sample files (sorted likewise).
pub open spec fn listing_nodes(nodes: Seq<SampleNode>, es: Seq<DirEntryInfo>) -> bool {
    let fs = kept_folders(sorted_entries(dir_entries(es)));
    let files = sorted_by_lower(sample_names(es, false));
    &&& nodes.len() == fs.len() + files.len()
    &&& forall|i: int| 0 <= i < fs.len() ==> folder_node_of(#[trigger] nodes[i], fs[i])
    &&& forall|j: int|
        0 <= j < files.len() ==> #[trigger] nodes[fs.len() + j] is File && label_of(
            nodes[fs.len() + j],
        ) == files[j]
}

/// Lowercase keys of a list of names.
fn lower_keys(names: &Vec<String>) -> (r: Vec<Vec<char>>)
    ensures
        r@.map_values(|k: Vec<char>| k@) == names@.map_values(|n: String| lowercase_of(n@)),
{
    let mut keys: Vec<Vec<char>> = Vec::new();
    let mut i: usize = 0;
    while i < names.len()
        invariant
            i <= names@.len(),
            keys@.map_values(|k: Vec<char>| k@) == names@.take(i as int).map_values(
                |n: String| lowercase_of(n@),
            ),
        decreases names@.len() - i,
    {
        let lower = to_lowercase(names[i].as_str());
        let ghost before = keys@;
        let c = chars_of(lower.as_str());
        keys.push(c);
        proof {
            assert(keys@.map_values(|k: Vec<char>| k@) =~= before.map_values(|k: Vec<char>| k@).push(
                lowercase_of(names@[i as int]@),
            ));
            assert(names@.take(i as int + 1).map_values(|n: String| lowercase_of(n@))
                =~= names@.take(i as int).map_values(|n: String| lowercase_of(n@)).push(
                lowercase_of(names@[i as int]@),
            ));
            assert(keys@.map_values(|k: Vec<char>| k@) =~= names@.take(i as int + 1).map_values(
                |n: String| lowercase_of(n@),
            ));
        }
        i += 1;
    }
    proof {
        assert(names@.take(i as int) =~= names@);
    }
    keys
}

/// Sorts names by their lowercase forms, keeping the order of equal ones.
pub fn sort_by_lowercase(names: Vec<String>) -> (r: Vec<String>)
    ensures
        r@.map_values(|n: String| n@) == sorted_by_lower(names@.map_values(|n: String| n@)),
{
    let ghost nv = names@.map_values(|n: String| n@);
    let keys = lower_keys(&names);
    let order = sort_indices_by_key(&keys);
    proof {
        assert(keys@.map_values(|k: Vec<char>| k@) =~= nv.map_values(|n: Seq<char>| lowercase_of(n)));
        lemma_sort_key_in_range(keys@.len() as nat, keys@.map_values(|k: Vec<char>| k@));
    }
    let mut out: Vec<String> = Vec::new();
    let mut i: usize = 0;
    while i < order.len()
        invariant
            i <= order@.len(),
            order@.len() == names@.len(),
            forall|k: int| 0 <= k < order@.len() ==> #[trigger] order@[k] < names@.len(),
            out@.map_values(|n: String| n@) == order@.take(i as int).map_values(
                |k: usize| nv[k as int],
            ),
            nv == names@.map_values(|n: String| n@),
        decreases order@.len() - i,
    {
        let ghost before = out@;
        out.push(names[order[i]].clone());
        proof {
            assert(out@.map_values(|n: String| n@) =~= before.map_values(|n: String| n@).push(
                nv[order@[i as int] as int],
            ));
            assert(order@.take(i as int + 1).map_values(|k: usize| nv[k as int])
                =~= order@.take(i as int).map_values(|k: usize| nv[k as int]).push(
                nv[order@[i as int] as int],
            ));
            assert(out@.map_values(|n: String| n@) =~= order@.take(i as int + 1).map_values(
                |k: usize| nv[k as int],
            ));
        }
        i += 1;
    }
    proof {
        assert(order@.take(i as int) =~= order@);
    }
    out
}

/// `sort_key(n, ..)` lists `n` indices, each below `n`.
pub proof fn lemma_sort_key_in_range(n: nat, keys: Seq<Seq<char>>)
    ensures
        sort_key(n, keys).len() == n,
        forall|k: int| 0 <= k < n ==> #[trigger] sort_key(n, keys)[k] < n,
    decreases n,
{
    if n > 0 {
        lemma_sort_key_in_range((n - 1) as nat, keys);
        lemma_insert_key_members(sort_key((n - 1) as nat, keys), (n - 1) as usize, keys);
    }
}

proof fn lemma_insert_key_members(t: Seq<usize>, x: usize, keys: Seq<Seq<char>>)
    ensures
        insert_key(t, x, keys).len() == t.len() + 1,
        forall|k: int|
            0 <= k < insert_key(t, x, keys).len() ==> #[trigger] insert_key(t, x, keys)[k] == x
                || t.contains(insert_key(t, x, keys)[k]),
    decreases t.len(),
{
    if !(t.len() == 0 || lex_le(keys[t.last() as int], keys[x as int])) {
        let dl = t.drop_last();
        lemma_insert_key_members(dl, x, keys);
        let r = insert_key(dl, x, keys);
        assert forall|k: int| 0 <= k < r.push(t.last()).len() implies #[trigger] r.push(
            t.last(),
        )[k] == x || t.contains(r.push(t.last())[k]) by {
            if k < r.len() {
                if r[k] != x {
                    assert(dl.contains(r[k]));
                    let m = choose|m: int| 0 <= m < dl.len() && dl[m] == r[k];
                    assert(t[m] == dl[m]);
                }
            } else {
                assert(t[t.len() - 1] == t.last());
            }
        }
    } else {
        assert forall|k: int| 0 <= k < t.push(x).len() implies #[trigger] t.push(x)[k] == x
            || t.contains(t.push(x)[k]) by {
            if k < t.len() {
                assert(t[k] == t.push(x)[k]);
            }
        }
    }
}


/// Names of the sample entries of `es` (see [`picks`]), in listing order.
fn collect_sample_names(es: &Vec<DirEntryInfo>, in_folder: bool) -> (r: Vec<String>)
    ensures
        r@.map_values(|n: String| n@) == sample_names(es@, in_folder),
{
    let mut out: Vec<String> = Vec::new();
    let mut i: usize = 0;
    while i < es.len()
        invariant
            i <= es@.len(),
            out@.map_values(|n: String| n@) == sample_names(es@.take(i as int), in_folder),
        decreases es@.len() - i,
    {
        proof {
            assert(es@.take(i as int + 1).drop_last() =~= es@.take(i as int));
        }
        let e = &es[i];
        let kind_ok = if in_folder {
            e.is_file
        } else {
            !e.is_dir
        };
        let ghost before = out@;
        if kind_ok && is_audio_file(e.name.as_str()) {
            out.push(e.name.clone());
            proof {
                assert(out@.map_values(|n: String| n@) =~= before.map_values(|n: String| n@) + seq![
                    e.name@,
                ]);
            }
        } else {
            proof {
                assert(out@.map_values(|n: String| n@) =~= before.map_values(|n: String| n@)
                    + Seq::<Seq<char>>::empty());
            }
        }
        i += 1;
    }
    proof {
        assert(es@.take(i as int) =~= es@);
    }
    out
}

/// File nodes named `names`, in order.
fn file_nodes(names: Vec<String>) -> (r: Vec<SampleNode>)
    ensures
        files_named(r@, names@.map_values(|n: String| n@)),
{
    let ghost nv = names@.map_values(|n: String| n@);
    let mut out: Vec<SampleNode> = Vec::new();
    let mut i: usize = 0;
    while i < names.len()
        invariant
            i <= names@.len(),
            nv == names@.map_values(|n: String| n@),
            files_named(out@, nv.take(i as int)),
        decreases names@.len() - i,
    {
        out.push(SampleNode::File { name: names[i].clone() });
        proof {
            assert forall|k: int| 0 <= k < out@.len() implies #[trigger] out@[k] is File && label_of(
                out@[k],
            ) == nv.take(i as int + 1)[k] by {
                if k < i {
                    assert(nv.take(i as int)[k] == nv.take(i as int + 1)[k]);
                }
            }
        }
        i += 1;
    }
    proof {
        assert(nv.take(i as int) =~= nv);
    }
    out
}

/// The folder a directory listing yields: its sample files (regular audio files), sorted by
/// lowercase name, or nothing if the directory could not be read or holds no sample.
pub fn scan_folder(name: &String, contents: &Option<Vec<DirEntryInfo>>) -> (r: Option<SampleNode>)
    ensures
        ({
            let d = DirEntryInfo { name: *name, is_dir: true, is_file: false, contents: *contents };
            &&& r is Some <==> folder_kept(d)
            &&& r matches Some(n) ==> folder_node_of(n, d) && node_wf(n)
        }),
{
    match contents {
        None => None,
        Some(es) => {
            let files = sort_by_lowercase(collect_sample_names(es, true));
            if files.len() == 0 {
                return None;
            }
            let children = file_nodes(files);
            Some(SampleNode::Folder { name: name.clone(), children, expanded: false })
        },
    }
}

/// Positions of the directories of `es`.
fn dir_positions(es: &Vec<DirEntryInfo>) -> (r: Vec<usize>)
    ensures
        r@.len() == dir_entries(es@).len(),
        forall|k: int|
            0 <= k < r@.len() ==> #[trigger] r@[k] < es@.len() && es@[r@[k] as int]
                == dir_entries(es@)[k],
{
    let mut out: Vec<usize> = Vec::new();
    let mut i: usize = 0;
    while i < es.len()
        invariant
            i <= es@.len(),
            out@.len() == dir_entries(es@.take(i as int)).len(),
            forall|k: int|
                0 <= k < out@.len() ==> #[trigger] out@[k] < i && es@[out@[k] as int]
                    == dir_entries(es@.take(i as int))[k],
        decreases es@.len() - i,
    {
        proof {
            assert(es@.take(i as int + 1).drop_last() =~= es@.take(i as int));
        }
        if es[i].is_dir {
            out.push(i);
        }
        i += 1;
    }
    proof {
        assert(es@.take(i as int) =~= es@);
    }
    out
}

/// The nodes of a library listing (see [`listing_nodes`]): readable folders holding samples,
/// then sample files, each group sorted by lowercase name.
pub fn scan_entries(es: &Vec<DirEntryInfo>) -> (r: Vec<SampleNode>)
    ensures
        listing_nodes(r@, es@),
        forall|i: int| 0 <= i < r@.len() ==> node_wf(#[trigger] r@[i]),
{
    let ghost ds = dir_entries(es@);
    let dirs = dir_positions(es);
    let mut dir_names: Vec<String> = Vec::new();
    let mut m: usize = 0;
    while m < dirs.len()
        invariant
            m <= dirs@.len(),
            dirs@.len() == ds.len(),
            forall|k: int|
                0 <= k < dirs@.len() ==> #[trigger] dirs@[k] < es@.len() && es@[dirs@[k] as int]
                    == ds[k],
            dir_names@.map_values(|n: String| n@) == ds.take(m as int).map_values(
                |d: DirEntryInfo| d.name@,
            ),
        decreases dirs@.len() - m,
    {
        let ghost before = dir_names@;
        dir_names.push(es[dirs[m]].name.clone());
        proof {
            assert(dir_names@.map_values(|n: String| n@) =~= before.map_values(|n: String| n@).push(
                ds[m as int].name@,
            ));
            assert(ds.take(m as int + 1).map_values(|d: DirEntryInfo| d.name@) =~= ds.take(
                m as int,
            ).map_values(|d: DirEntryInfo| d.name@).push(ds[m as int].name@));
        }
        m += 1;
    }
    proof {
        assert(ds.take(m as int) =~= ds);
    }
    let keys = lower_keys(&dir_names);
    let order = sort_indices_by_key(&keys);
    let ghost kv = keys@.map_values(|k: Vec<char>| k@);
    let ghost sds = sorted_entries(ds);
    proof {
        assert forall|i: int| 0 <= i < kv.len() implies kv[i] == lowercase_of(ds[i].name@) by {
            assert(dir_names@.map_values(|n: String| n@)[i] == dir_names@[i]@);
            assert(keys@.map_values(|k: Vec<char>| k@)[i] == dir_names@.map_values(
                |n: String| lowercase_of(n@),
            )[i]);
        }
        assert(kv =~= ds.map_values(|d: DirEntryInfo| lowercase_of(d.name@)));
        lemma_sort_key_in_range(keys@.len() as nat, kv);
    }
    let mut nodes: Vec<SampleNode> = Vec::new();
    let mut k: usize = 0;
    while k < order.len()
        invariant
            k <= order@.len(),
            order@.len() == ds.len(),
            dirs@.len() == ds.len(),
            order@ == sort_key(ds.len(), kv),
            kv == ds.map_values(|d: DirEntryInfo| lowercase_of(d.name@)),
            sds == sorted_entries(ds),
            forall|j: int| 0 <= j < order@.len() ==> #[trigger] order@[j] < ds.len(),
            forall|j: int|
                0 <= j < dirs@.len() ==> #[trigger] dirs@[j] < es@.len() && es@[dirs@[j] as int]
                    == ds[j],
            nodes@.len() == kept_folders(sds.take(k as int)).len(),
            forall|j: int|
                0 <= j < nodes@.len() ==> folder_node_of(
                    #[trigger] nodes@[j],
                    kept_folders(sds.take(k as int))[j],
                ) && node_wf(nodes@[j]),
        decreases order@.len() - k,
    {
        let d = &es[dirs[order[k]]];
        proof {
            assert(sds[k as int] == ds[order@[k as int] as int]);
            assert(*d == sds[k as int]);
            assert(sds.take(k as int + 1).drop_last() =~= sds.take(k as int));
        }
        let ghost before = nodes@;
        match scan_folder(&d.name, &d.contents) {
            Some(folder) => {
                nodes.push(folder);
                proof {
                    assert(kept_folders(sds.take(k as int + 1)) =~= kept_folders(
                        sds.take(k as int),
                    ).push(*d));
                    assert forall|j: int| 0 <= j < nodes@.len() implies folder_node_of(
                        #[trigger] nodes@[j],
                        kept_folders(sds.take(k as int + 1))[j],
                    ) && node_wf(nodes@[j]) by {
                        if j < before.len() {
                            assert(nodes@[j] == before[j]);
                        }
                    }
                }
            },
            None => {
                proof {
                    assert(kept_folders(sds.take(k as int + 1)) =~= kept_folders(
                        sds.take(k as int),
                    ));
                }
            },
        }
        k += 1;
    }
    proof {
        assert(sds.take(k as int) =~= sds);
    }
    let ghost nf = nodes@.len();
    let files = sort_by_lowercase(collect_sample_names(es, false));
    let file_list = file_nodes(files);
    let ghost fl = file_list@;
    let mut file_list = file_list;
    nodes.append(&mut file_list);
    proof {
        assert forall|i: int| 0 <= i < nodes@.len() implies node_wf(#[trigger] nodes@[i]) by {
            if i >= nf {
                assert(nodes@[i] == fl[i - nf]);
            }
        }
        assert forall|j: int| 0 <= j < fl.len() implies #[trigger] nodes@[nf + j] is File
            && label_of(nodes@[nf + j]) == sorted_by_lower(sample_names(es@, false))[j] by {
            assert(nodes@[nf + j] == fl[j]);
        }
    }
    nodes
}

/// The collapsed root node of a library folder labelled `label` whose listing is `es`.
pub fn scan_root(label: String, es: &Vec<DirEntryInfo>) -> (r: SampleNode)
    ensures
        r matches SampleNode::Root { label: l, children, expanded } && l@ == label@ && !expanded
            && listing_nodes(children@, es@),
        node_wf(r),
{
    let children = scan_entries(es);
    proof {
        let fs = kept_folders(sorted_entries(dir_entries(es@)));
        assert forall|i: int| 0 <= i < children@.len() implies {
            let c = #[trigger] children@[i];
            c is File || (c is Folder && files_only(children_of(c)))
        } by {
            if i < fs.len() {
                assert(folder_node_of(children@[i], fs[i]));
            } else {
                assert(children@[fs.len() + (i - fs.len())] is File);
            }
        }
    }
    SampleNode::Root { label, children, expanded: false }
}


/// A library folder (the default one or one the user added): its path and its listing,
/// or `None` when it could not be read.
pub struct RootListing {
    pub path: String,
    pub entries: Option<Vec<DirEntryInfo>>,
}

/// The last component of a path, as `Path::file_name` finds it (none for a path ending in
/// `..` or made of a root alone). How a path splits into components is fixed for the
/// platform the library is built for (Unix and Windows paths differ).
pub uninterp spec fn file_name_of(path: Seq<char>) -> Option<Seq<char>>;

/// Calls `Path::file_name` on `path`. Its result is the named function `file_name_of` of
/// the path; how paths split into components is not claimed.
#[verifier::external_body]
fn path_file_name(path: &str) -> (r: Option<String>)
    ensures
        match r {
            Some(n) => file_name_of(path@) == Some(n@),
            None => file_name_of(path@) is None,
        },
{
    match std::path::Path::new(path).file_name() {
        Some(n) => Some(n.to_string_lossy().into_owned()),
        None => None,
    }
}

/// The label a library folder is shown under: the path's last component, else the whole
/// path.
pub open spec fn root_label_of(path: Seq<char>) -> Seq<char> {
    match file_name_of(path) {
        Some(n) => n,
        None => path,
    }
}

/// The label of the library folder at `path` (see [`root_label_of`]).
pub fn root_label(path: &str) -> (r: String)
    ensures
        r@ == root_label_of(path@),
{
    match path_file_name(path) {
        Some(n) => n,
        None => path.to_string(),
    }
}

/// `n` is the collapsed root node of the readable library folder `l`.
pub open spec fn root_listed(n: SampleNode, l: RootListing) -> bool {
    &&& l.entries is Some
    &&& n matches SampleNode::Root { label, children, expanded }
    &&& label@ == root_label_of(l.path@)
    &&& !expanded
    &&& listing_nodes(children@, l.entries->0@)
}

/// The folders of `ls` that could be read, in order.
pub open spec fn readable(ls: Seq<RootListing>) -> Seq<RootListing>
    decreases ls.len(),
{
    if ls.len() == 0 {
        Seq::empty()
    } else if ls.last().entries is Some {
        readable(ls.drop_last()).push(ls.last())
    } else {
        readable(ls.drop_last())
    }
}

/// The roots of a library made of the default folder and the user's folders: the default
/// folder's root first (when it could be read); then, when that is missing and the user
/// chose exactly one folder, that folder's own contents as roots (nothing when it could not
/// be read); otherwise one root per readable user folder.
pub open spec fn library_roots(
    roots: Seq<SampleNode>,
    default_count: int,
    default_root: Option<RootListing>,
    user: Seq<RootListing>,
) -> bool {
    let has_default = default_root matches Some(d) && d.entries is Some;
    &&& default_count == if has_default {
        1int
    } else {
        0int
    }
    &&& has_default ==> root_listed(roots[0], default_root->0)
    &&& if !has_default && user.len() == 1 {
        listing_nodes(
            roots,
            match user[0].entries {
                Some(es) => es@,
                None => Seq::empty(),
            },
        )
    } else {
        &&& roots.len() == default_count + readable(user).len()
        &&& forall|i: int|
            0 <= i < readable(user).len() ==> root_listed(
                #[trigger] roots[default_count + i],
                readable(user)[i],
            )
    }
}

impl SampleTree {
    /// The library of the default folder and the user's folders (see [`library_roots`]).
    pub fn from_paths_with_default(default_root: Option<RootListing>, user_roots: Vec<RootListing>) -> (t:
        Self)
        ensures
            library_roots(t.roots(), t.default_count(), default_root, user_roots@),
    {
        let ghost d = default_root;
        let default_node = match default_root {
            Some(l) => match l.entries {
                Some(es) => Some(scan_root(root_label(l.path.as_str()), &es)),
                None => None,
            },
            None => None,
        };
        let has_default = default_node.is_some();
        if !has_default && user_roots.len() == 1 {
            let empty: Vec<DirEntryInfo> = Vec::new();
            let nodes = match &user_roots[0].entries {
                Some(es) => scan_entries(es),
                None => scan_entries(&empty),
            };
            proof {
                if user_roots@[0].entries is None {
                    assert(empty@ =~= Seq::<DirEntryInfo>::empty());
                }
            }
            let t = SampleTree::from_parts(None, nodes);
            return t;
        }
        let mut nodes: Vec<SampleNode> = Vec::new();
        let mut i: usize = 0;
        while i < user_roots.len()
            invariant
                i <= user_roots@.len(),
                nodes@.len() == readable(user_roots@.take(i as int)).len(),
                forall|k: int|
                    0 <= k < nodes@.len() ==> root_listed(
                        #[trigger] nodes@[k],
                        readable(user_roots@.take(i as int))[k],
                    ),
                forall|k: int| 0 <= k < nodes@.len() ==> node_wf(#[trigger] nodes@[k]),
            decreases user_roots@.len() - i,
        {
            proof {
                assert(user_roots@.take(i as int + 1).drop_last() =~= user_roots@.take(i as int));
            }
            let l = &user_roots[i];
            match &l.entries {
                Some(es) => {
                    let n = scan_root(root_label(l.path.as_str()), es);
                    nodes.push(n);
                },
                None => {},
            }
            i += 1;
        }
        proof {
            assert(user_roots@.take(i as int) =~= user_roots@);
        }
        let t = SampleTree::from_parts(default_node, nodes);
        proof {
            if has_default {
                assert(t.roots()[0] == default_node->0);
                assert forall|k: int| 0 <= k < readable(user_roots@).len() implies root_listed(
                    #[trigger] t.roots()[t.default_count() + k],
                    readable(user_roots@)[k],
                ) by {
                    assert(t.roots()[1 + k] == nodes@[k]);
                }
            }
        }
        t
    }
}


/// One entry of a library folder, as seen when a sample file is looked up.
pub struct ProbeEntry {
    pub name: String,
    /// The entry's file type could be read.
    pub type_known: bool,
    pub is_dir: bool,
    /// The entry, joined with the sample's file name, is a regular file.
    pub has_file: bool,
}

/// A library folder, as seen when a sample file is looked up in it.
pub struct RootProbe {
    /// The folder, joined with the sample's file name, is a regular file.
    pub direct_file: bool,
    /// The folder's entries, or `None` when it could not be read.
    pub entries: Option<Vec<ProbeEntry>>,
}

/// Where a sample file was found: right in library folder `root`, or in its entry `entry`.
#[derive(Clone, Copy, PartialEq, Eq, Structural, Debug)]
pub enum SampleLocation {
    Direct { root: usize },
    InFolder { root: usize, entry: usize },
}

/// The first entry from `k` on that is a directory named `folder` holding the file; the
/// search gives up at the first entry whose type cannot be read.
pub open spec fn probe_entries(es: Seq<ProbeEntry>, folder: Seq<char>, k: int) -> Option<int>
    decreases es.len() - k,
{
    if k < 0 || k >= es.len() {
        None
    } else if !es[k].type_known {
        None
    } else if es[k].is_dir && es[k].name@ == folder && es[k].has_file {
        Some(k)
    } else {
        probe_entries(es, folder, k + 1)
    }
}

/// Where a file of `folder` is found in library folder `root` (see [`probe_entries`]): a
/// file of the top of a library (an empty folder name) may lie right in it.
pub open spec fn probe_root(p: RootProbe, root: int, folder: Seq<char>) -> Option<SampleLocation> {
    if folder.len() == 0 && p.direct_file {
        Some(SampleLocation::Direct { root: root as usize })
    } else {
        match p.entries {
            None => None,
            Some(es) => match probe_entries(es@, folder, 0) {
                Some(k) => Some(SampleLocation::InFolder { root: root as usize, entry: k as usize }),
                None => None,
            },
        }
    }
}

/// The first library folder from `r` on where a file of `folder` is found.
pub open spec fn probe_roots(ps: Seq<RootProbe>, folder: Seq<char>, r: int) -> Option<SampleLocation>
    decreases ps.len() - r,
{
    if r < 0 || r >= ps.len() {
        None
    } else if probe_root(ps[r], r, folder) is Some {
        probe_root(ps[r], r, folder)
    } else {
        probe_roots(ps, folder, r + 1)
    }
}

/// Entry `e` is a readable directory named `folder` that holds the sample's file.
pub open spec fn holds_file(e: ProbeEntry, folder: Seq<char>) -> bool {
    e.type_known && e.is_dir && e.name@ == folder && e.has_file
}

/// The library folder `p` yields the sample of `folder`: a top-level sample lies right in
/// it, or some entry holds the file and every entry before that one has a readable type.
pub open spec fn yields_file(p: RootProbe, folder: Seq<char>) -> bool {
    ||| folder.len() == 0 && p.direct_file
    ||| p.entries matches Some(es) && exists|k: int|
        0 <= k < es@.len() && holds_file(#[trigger] es@[k], folder) && forall|j: int|
            0 <= j < k ==> (#[trigger] es@[j]).type_known
}

proof fn lemma_probe_entries(es: Seq<ProbeEntry>, folder: Seq<char>, k: int)
    requires
        0 <= k <= es.len(),
        forall|j: int| 0 <= j < k ==> (#[trigger] es[j]).type_known && !holds_file(es[j], folder),
    ensures
        match probe_entries(es, folder, k) {
            Some(e) => k <= e < es.len() && holds_file(es[e], folder) && forall|j: int|
                0 <= j < e ==> (#[trigger] es[j]).type_known && !holds_file(es[j], folder),
            None => forall|m: int|
                0 <= m < es.len() && holds_file(#[trigger] es[m], folder) ==> exists|j: int|
                    0 <= j < m && !(#[trigger] es[j]).type_known,
        },
    decreases es.len() - k,
{
    if k < es.len() {
        if !es[k].type_known {
            assert forall|m: int|
                0 <= m < es.len() && holds_file(#[trigger] es[m], folder) implies exists|j: int|
                    0 <= j < m && !(#[trigger] es[j]).type_known by {
                if m > k {
                    assert(!es[k].type_known);
                }
            }
        } else if es[k].is_dir && es[k].name@ == folder && es[k].has_file {
        } else {
            lemma_probe_entries(es, folder, k + 1);
        }
    }
}

proof fn lemma_probe_root(p: RootProbe, root: int, folder: Seq<char>)
    requires
        0 <= root <= usize::MAX,
    ensures
        match probe_root(p, root, folder) {
            Some(SampleLocation::Direct { root: r }) => r == root && folder.len() == 0
                && p.direct_file,
            Some(SampleLocation::InFolder { root: r, entry }) => {
                &&& r == root
                &&& !(folder.len() == 0 && p.direct_file)
                &&& p.entries matches Some(es) && entry < es@.len() && holds_file(
                    es@[entry as int],
                    folder,
                ) && forall|j: int| 0 <= j < entry ==> (#[trigger] es@[j]).type_known
                    && !holds_file(es@[j], folder)
            },
            None => !yields_file(p, folder),
        },
{
    match p.entries {
        Some(es) => {
            assert(es@.len() == es.len());
            lemma_probe_entries(es@, folder, 0);
            if probe_entries(es@, folder, 0) is None {
                if exists|k: int|
                    0 <= k < es@.len() && holds_file(#[trigger] es@[k], folder) && forall|j: int|
                        0 <= j < k ==> (#[trigger] es@[j]).type_known {
                    let k = choose|k: int|
                        0 <= k < es@.len() && holds_file(#[trigger] es@[k], folder) && forall|j: int|
                            0 <= j < k ==> (#[trigger] es@[j]).type_known;
                    let j = choose|j: int| 0 <= j < k && !(#[trigger] es@[j]).type_known;
                    assert(es@[j].type_known);
                }
            }
        },
        None => {},
    }
}

proof fn lemma_probe_roots(ps: Seq<RootProbe>, folder: Seq<char>, r: int)
    requires
        0 <= r <= ps.len(),
        ps.len() <= usize::MAX,
    ensures
        match probe_roots(ps, folder, r) {
            Some(loc) => {
                let root = match loc {
                    SampleLocation::Direct { root } => root as int,
                    SampleLocation::InFolder { root, .. } => root as int,
                };
                &&& r <= root < ps.len()
                &&& probe_root(ps[root], root, folder) == Some(loc)
                &&& forall|q: int| r <= q < root ==> !yields_file(#[trigger] ps[q], folder)
            },
            None => forall|q: int| r <= q < ps.len() ==> !yields_file(#[trigger] ps[q], folder),
        },
    decreases ps.len() - r,
{
    if r < ps.len() {
        lemma_probe_root(ps[r], r, folder);
        if probe_root(ps[r], r, folder) is None {
            lemma_probe_roots(ps, folder, r + 1);
        }
    }
}

/// Where a sample is looked for: the location found is in the first library folder that
/// yields the file (see [`yields_file`]); it is the folder itself for a top-level sample
/// lying right in it, else its first entry that is a directory named like the sample's
/// folder and holds the file (a same-named folder without the file is passed over, and an
/// entry of unreadable type ends the look in that library folder). Nothing is found only
/// when no library folder yields the file.
pub proof fn lemma_sample_found(ps: Seq<RootProbe>, folder: Seq<char>)
    requires
        ps.len() <= usize::MAX,
    ensures
        match probe_roots(ps, folder, 0) {
            Some(SampleLocation::Direct { root }) => {
                &&& root < ps.len()
                &&& folder.len() == 0 && ps[root as int].direct_file
                &&& forall|q: int| 0 <= q < root ==> !yields_file(#[trigger] ps[q], folder)
            },
            Some(SampleLocation::InFolder { root, entry }) => {
                &&& root < ps.len()
                &&& !(folder.len() == 0 && ps[root as int].direct_file)
                &&& ps[root as int].entries matches Some(es) && entry < es@.len() && holds_file(
                    es@[entry as int],
                    folder,
                ) && forall|j: int| 0 <= j < entry ==> (#[trigger] es@[j]).type_known
                    && !holds_file(es@[j], folder)
                &&& forall|q: int| 0 <= q < root ==> !yields_file(#[trigger] ps[q], folder)
            },
            None => forall|q: int| 0 <= q < ps.len() ==> !yields_file(#[trigger] ps[q], folder),
        },
{
    lemma_probe_roots(ps, folder, 0);
    match probe_roots(ps, folder, 0) {
        Some(loc) => {
            let root = match loc {
                SampleLocation::Direct { root } => root as int,
                SampleLocation::InFolder { root, .. } => root as int,
            };
            lemma_probe_root(ps[root], root, folder);
        },
        None => {},
    }
}

fn probe_root_exec(p: &RootProbe, root: usize, folder: &String) -> (r: Option<SampleLocation>)
    ensures
        r == probe_root(*p, root as int, folder@),
{
    if folder.as_str().unicode_len() == 0 && p.direct_file {
        return Some(SampleLocation::Direct { root });
    }
    let es = match &p.entries {
        None => return None,
        Some(es) => es,
    };
    let mut k: usize = 0;
    while k < es.len()
        invariant
            k <= es@.len(),
            p.entries matches Some(v) && v@ == es@,
            !(folder@.len() == 0 && p.direct_file),
            probe_entries(es@, folder@, 0) == probe_entries(es@, folder@, k as int),
        decreases es@.len() - k,
    {
        let e = &es[k];
        if !e.type_known {
            return None;
        }
        if e.is_dir && e.name == *folder && e.has_file {
            return Some(SampleLocation::InFolder { root, entry: k });
        }
        k += 1;
    }
    None
}

/// Where the sample file of `entry` is, looking through the library folders in order (see
/// [`probe_roots`]); only file lines have one. `probes` describes the folders in the order
/// the library lists them.
pub fn resolve_sample_path(probes: &Vec<RootProbe>, entry: &TreeLine) -> (r: Option<SampleLocation>)
    ensures
        r == if entry.kind is File {
            probe_roots(probes@, entry.folder@, 0)
        } else {
            None
        },
{
    if !matches!(entry.kind, TreeLineKind::File) {
        return None;
    }
    let mut i: usize = 0;
    while i < probes.len()
        invariant
            i <= probes@.len(),
            probe_roots(probes@, entry.folder@, 0) == probe_roots(probes@, entry.folder@, i as int),
            entry.kind is File,
        decreases probes@.len() - i,
    {
        let found = probe_root_exec(&probes[i], i, &entry.folder);
        proof {
            assert(probe_roots(probes@, entry.folder@, i as int) == if found is Some {
                found
            } else {
                probe_roots(probes@, entry.folder@, i + 1)
            });
        }
        if found.is_some() {
            return found;
        }
        i += 1;
    }
    None
}


impl SampleBrowserState {
    /// A browser over the library of the default folder and the user's folders (see
    /// [`library_roots`]), with the cursor on the first line and no search.
    pub fn new(default_root: Option<RootListing>, user_roots: Vec<RootListing>) -> (s: Self)
        ensures
            library_roots(s@.tree.roots(), s@.tree.default_count(), default_root, user_roots@),
            s@.cursor == 0,
            s@.scroll_offset == 0,
            s@.search_query == Seq::<char>::empty(),
            s@.filter is None,
            s@.entries == s@.tree.lines(),
    {
        SampleBrowserState::with_tree(SampleTree::from_paths_with_default(default_root, user_roots))
    }
}

} // verus!
