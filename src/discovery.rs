//! Discovery: turning the files found by walking a directory tree into the
//! catalog of work items, keeping walk order.
use crate::paths::{extension, file_name, has_extension, join, last_index_of};
use vstd::prelude::*;

verus! {

/// One file system entry met while walking a tree.
#[derive(Clone, Debug, PartialEq, Eq)]
pub struct WalkEntry {
    pub path: String,
    pub is_file: bool,
    pub size: u64,
}

/// An archive to extract.
#[derive(Clone, Debug, PartialEq, Eq)]
pub struct ZipFile {
    pub path: String,
    pub size: u64,
}

/// An audio file whose tag may be rewritten; `has_metadata` records whether
/// a tag could be read from it when it was found.
#[derive(Clone, Debug, PartialEq, Eq)]
pub struct Mp3File {
    pub path: String,
    pub size: u64,
    pub has_metadata: bool,
}

/// A walked entry is accepted when it is a regular file whose name carries
/// exactly the extension `ext`.
pub open spec fn accepted(e: WalkEntry, ext: Seq<char>) -> bool {
    e.is_file && extension(file_name(e.path@)) == Some(ext)
}

/// The accepted entries, in walk order.
pub open spec fn catalog(entries: Seq<WalkEntry>, ext: Seq<char>) -> Seq<WalkEntry> {
    entries.filter(|e: WalkEntry| accepted(e, ext))
}

/// The catalog item for an accepted archive.
pub open spec fn zip_item(e: WalkEntry) -> ZipFile {
    ZipFile { path: e.path, size: e.size }
}

/// The catalog item for an audio file, with its probe result.
pub open spec fn mp3_item(e: WalkEntry, tagged: bool) -> Mp3File {
    Mp3File { path: e.path, size: e.size, has_metadata: tagged }
}

proof fn lemma_catalog_step(entries: Seq<WalkEntry>, ext: Seq<char>, i: int)
    requires
        0 <= i < entries.len(),
    ensures
        catalog(entries.subrange(0, i + 1), ext) == if accepted(entries[i], ext) {
            catalog(entries.subrange(0, i), ext).push(entries[i])
        } else {
            catalog(entries.subrange(0, i), ext)
        },
{
    reveal(Seq::filter);
    assert(entries.subrange(0, i + 1).drop_last() =~= entries.subrange(0, i));
}

proof fn lemma_catalog_from_entries(entries: Seq<WalkEntry>, ext: Seq<char>, k: int)
    requires
        0 <= k < catalog(entries, ext).len(),
    ensures
        entries.contains(catalog(entries, ext)[k]),
    decreases entries.len(),
{
    reveal(Seq::filter);
    let rest = entries.drop_last();
    if k < catalog(rest, ext).len() {
        lemma_catalog_from_entries(rest, ext, k);
        let j = choose|j: int| 0 <= j < rest.len() && rest[j] == catalog(rest, ext)[k];
        assert(entries[j] == catalog(entries, ext)[k]);
    } else {
        assert(catalog(entries, ext)[k] == entries[entries.len() - 1]);
    }
}

/// Discovery law: the catalog holds all and only the accepted entries (regular
/// files with the wanted extension, wherever they sit in the tree), in walk
/// order; entries of any other kind leave it unchanged.
pub proof fn catalog_holds_exactly_the_matches(entries: Seq<WalkEntry>, ext: Seq<char>)
    ensures
        forall|k: int|
            0 <= k < catalog(entries, ext).len() ==> #[trigger] accepted(
                catalog(entries, ext)[k],
                ext,
            ) && entries.contains(catalog(entries, ext)[k]),
        forall|i: int|
            0 <= i < entries.len() && accepted(entries[i], ext) ==> #[trigger] catalog(
                entries,
                ext,
            ).contains(entries[i]),
        forall|other: WalkEntry|
            !accepted(other, ext) ==> #[trigger] catalog(entries.push(other), ext) == catalog(
                entries,
                ext,
            ),
{
    broadcast use vstd::seq_lib::group_filter_ensures;
    assert forall|k: int| 0 <= k < catalog(entries, ext).len() implies entries.contains(
        catalog(entries, ext)[k],
    ) by {
        lemma_catalog_from_entries(entries, ext, k);
    }
    assert forall|other: WalkEntry| !accepted(other, ext) implies #[trigger] catalog(
        entries.push(other),
        ext,
    ) == catalog(entries, ext) by {
        reveal(Seq::filter);
        assert(entries.push(other).drop_last() =~= entries);
    }
}

proof fn lemma_last_index_skips_tail(a: Seq<char>, b: Seq<char>, c: char)
    requires
        !b.contains(c),
    ensures
        last_index_of(a + b, c) == last_index_of(a, c),
    decreases b.len(),
{
    if b.len() > 0 {
        assert((a + b).drop_last() =~= a + b.drop_last());
        assert(b.last() == b[b.len() - 1]);
        assert forall|x: char| b.drop_last().contains(x) implies b.contains(x) by {
            let j = choose|j: int| 0 <= j < b.drop_last().len() && b.drop_last()[j] == x;
            assert(b[j] == x);
        }
        lemma_last_index_skips_tail(a, b.drop_last(), c);
    }
}

/// Depth law: a file is accepted or not by its own name alone; placing it
/// under any directory, at any depth, changes nothing.
pub proof fn acceptance_ignores_directory(dir: Seq<char>, name: Seq<char>, e: WalkEntry, ext: Seq<char>)
    requires
        name.len() > 0,
        !name.contains('/'),
        e.path@ == join(dir, name),
    ensures
        file_name(e.path@) == name,
        accepted(e, ext) == (e.is_file && extension(name) == Some(ext)),
{
    let p = e.path@;
    if dir.len() == 0 || dir.last() == '/' {
        if dir.len() > 0 {
            assert(dir == dir.drop_last().push('/'));
            assert(dir.drop_last().push('/') =~= dir.drop_last() + seq!['/']);
            lemma_last_index_skips_tail(dir, name, '/');
            assert(last_index_of(dir, '/') == dir.len() - 1);
        } else {
            lemma_last_index_skips_tail(dir, name, '/');
            assert(last_index_of(dir, '/') == -1);
        }
        assert(p.subrange(last_index_of(p, '/') + 1, p.len() as int) =~= name);
    } else {
        let d2 = dir + seq!['/'];
        assert(p =~= d2 + name);
        lemma_last_index_skips_tail(d2, name, '/');
        assert(d2.drop_last() =~= dir);
        assert(last_index_of(d2, '/') == dir.len());
        assert(p.subrange(last_index_of(p, '/') + 1, p.len() as int) =~= name);
    }
}

proof fn lemma_catalog_of_rejected(x: Seq<WalkEntry>, ext: Seq<char>)
    requires
        forall|i: int| 0 <= i < x.len() ==> !accepted(#[trigger] x[i], ext),
    ensures
        catalog(x, ext) =~= Seq::<WalkEntry>::empty(),
{
    broadcast use vstd::seq_lib::group_filter_ensures;

    if catalog(x, ext).len() > 0 {
        lemma_catalog_from_entries(x, ext, 0);
        let e = catalog(x, ext)[0];
        assert(accepted(e, ext));
        let j = choose|j: int| 0 <= j < x.len() && x[j] == e;
        assert(!accepted(x[j], ext));
    }
}

/// Discovery law: entries that are not accepted (directories, files with
/// another extension), inserted anywhere in a walk, leave its catalog
/// unchanged.
pub proof fn rejected_entries_do_not_change_catalog(
    a: Seq<WalkEntry>,
    x: Seq<WalkEntry>,
    b: Seq<WalkEntry>,
    ext: Seq<char>,
)
    requires
        forall|i: int| 0 <= i < x.len() ==> !accepted(#[trigger] x[i], ext),
    ensures
        catalog(a + x + b, ext) == catalog(a + b, ext),
{
    let pred = |e: WalkEntry| accepted(e, ext);
    Seq::filter_distributes_over_add(a + x, b, pred);
    Seq::filter_distributes_over_add(a, x, pred);
    Seq::filter_distributes_over_add(a, b, pred);
    lemma_catalog_of_rejected(x, ext);
    assert(catalog(a, ext) + catalog(x, ext) =~= catalog(a, ext));
}

/// Discovery law: a tree that holds no regular file (an empty directory,
/// whose walk yields only the directory itself) gives an empty catalog.
pub proof fn empty_tree_gives_empty_catalog(entries: Seq<WalkEntry>, ext: Seq<char>)
    requires
        forall|i: int| 0 <= i < entries.len() ==> !(#[trigger] entries[i]).is_file,
    ensures
        catalog(entries, ext).len() == 0,
{
    broadcast use vstd::seq_lib::group_filter_ensures;

    if catalog(entries, ext).len() > 0 {
        lemma_catalog_from_entries(entries, ext, 0);
        let x = catalog(entries, ext)[0];
        assert(accepted(x, ext));
        let j = choose|j: int| 0 <= j < entries.len() && entries[j] == x;
        assert(!entries[j].is_file);
    }
}

/// The entries that are regular files with extension `ext`, in walk order.
pub fn select_matching(entries: &Vec<WalkEntry>, ext: &str) -> (r: Vec<WalkEntry>)
    ensures
        r@ == catalog(entries@, ext@),
{
    let mut out: Vec<WalkEntry> = Vec::new();
    let mut i: usize = 0;
    while i < entries.len()
        invariant
            i <= entries@.len(),
            out@ == catalog(entries@.subrange(0, i as int), ext@),
        decreases entries@.len() - i,
    {
        proof {
            lemma_catalog_step(entries@, ext@, i as int);
        }
        let e = &entries[i];
        if e.is_file && has_extension(e.path.as_str(), ext) {
            out.push(WalkEntry { path: e.path.clone(), is_file: e.is_file, size: e.size });
        }
        i = i + 1;
    }
    assert(entries@.subrange(0, entries@.len() as int) =~= entries@);
    out
}

/// The archives among the walked entries: regular files ending in `.zip`,
/// in walk order.
pub fn find_zip_files(entries: &Vec<WalkEntry>) -> (r: Vec<ZipFile>)
    ensures
        r@ == catalog(entries@, "zip"@).map_values(|e: WalkEntry| zip_item(e)),
{
    let found = select_matching(entries, "zip");
    let mut out: Vec<ZipFile> = Vec::new();
    let mut i: usize = 0;
    while i < found.len()
        invariant
            i <= found@.len(),
            out@ == found@.subrange(0, i as int).map_values(|e: WalkEntry| zip_item(e)),
        decreases found@.len() - i,
    {
        out.push(ZipFile { path: found[i].path.clone(), size: found[i].size });
        i = i + 1;
        assert(out@ =~= found@.subrange(0, i as int).map_values(|e: WalkEntry| zip_item(e)));
    }
    assert(found@.subrange(0, found@.len() as int) =~= found@);
    out
}

/// The audio files among the walked entries: regular files ending in `.mp3`,
/// in walk order. Their tags are probed next, before `find_mp3_files`.
pub fn audio_candidates(entries: &Vec<WalkEntry>) -> (r: Vec<WalkEntry>)
    ensures
        r@ == catalog(entries@, "mp3"@),
{
    select_matching(entries, "mp3")
}

/// The audio catalog: each candidate with the result of probing it for a
/// tag (`tagged[k]` belongs to `candidates[k]`).
pub fn find_mp3_files(candidates: &Vec<WalkEntry>, tagged: &Vec<bool>) -> (r: Vec<Mp3File>)
    requires
        candidates@.len() == tagged@.len(),
    ensures
        r@.len() == candidates@.len(),
        forall|k: int| 0 <= k < r@.len() ==> #[trigger] r@[k] == mp3_item(candidates@[k], tagged@[k]),
{
    let mut out: Vec<Mp3File> = Vec::new();
    let mut i: usize = 0;
    while i < candidates.len()
        invariant
            i <= candidates@.len(),
            candidates@.len() == tagged@.len(),
            out@.len() == i,
            forall|k: int| 0 <= k < i ==> #[trigger] out@[k] == mp3_item(candidates@[k], tagged@[k]),
        decreases candidates@.len() - i,
    {
        out.push(
            Mp3File {
                path: candidates[i].path.clone(),
                size: candidates[i].size,
                has_metadata: tagged[i],
            },
        );
        i = i + 1;
    }
    out
}

} // verus!
