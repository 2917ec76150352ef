//! The folder registry: user-registered source folders, each with a cached
//! list of discovered references, and flattened filter-aware indexing over
//! the concatenation of all folders' contents.

use vstd::prelude::*;
use vstd::string::StrSliceExecFns;

use crate::cache::{PixelBuffer, RefCache, buffer_view};

verus! {

/// The fixed logical name under which the persistence collaborator keeps
/// the registry.
pub const REF_STORE_FILENAME: &'static str = "refstore.ron";

/// One selectable image, identified by its file path.
pub struct Reference {
    pub path: String,
}

impl Reference {
    pub fn new(path: String) -> (r: Reference)
        ensures
            r.path@ == path@,
    {
        Reference { path }
    }
}

impl Clone for Reference {
    fn clone(&self) -> (r: Self)
        ensures
            r == *self,
    {
        Reference { path: self.path.clone() }
    }
}

impl PartialEq for Reference {
    fn eq(&self, other: &Self) -> bool {
        self.path == other.path
    }
}

/// References are equal exactly when their paths are: the path is a
/// reference's identity.
impl vstd::std_specs::cmp::PartialEqSpecImpl for Reference {
    open spec fn obeys_eq_spec() -> bool {
        true
    }

    open spec fn eq_spec(&self, other: &Reference) -> bool {
        self.path@ == other.path@
    }
}

/// The start of a path's final segment: the position right after the
/// last separator, or zero when there is none.
pub open spec fn file_name_start(p: Seq<char>) -> int
    decreases p.len(),
{
    if p.len() == 0 {
        0
    } else if p[p.len() - 1] == '/' {
        p.len() as int
    } else {
        file_name_start(p.drop_last())
    }
}

/// The index of the last dot at or after position `from`, or -1 when
/// there is none.
pub open spec fn last_dot_at_or_after(p: Seq<char>, from: int) -> int
    decreases p.len(),
{
    if p.len() <= from || p.len() == 0 {
        -1
    } else if p[p.len() - 1] == '.' {
        p.len() - 1
    } else {
        last_dot_at_or_after(p.drop_last(), from)
    }
}

/// The extension a path carries: the characters after the last dot of
/// its final segment, provided that dot is not the segment's first
/// character (a leading dot marks a hidden file, not an extension).
pub open spec fn spec_extension(p: Seq<char>) -> Option<Seq<char>> {
    let dot = last_dot_at_or_after(p, file_name_start(p) + 1);
    if dot == -1 {
        Option::None
    } else {
        Option::Some(p.skip(dot + 1))
    }
}

/// One character matching a lowercase pattern character, ASCII case
/// ignored.
pub open spec fn char_ci(c: char, lower: char) -> bool {
    c == lower || c as u32 == lower as u32 - 32
}

/// A sequence matching a lowercase pattern, ASCII case ignored.
pub open spec fn seq_ci(s: Seq<char>, lower: Seq<char>) -> bool {
    s.len() == lower.len() && forall|i: int| 0 <= i < s.len() ==> char_ci(s[i], lower[i])
}

/// Whether a path names a file the scanner accepts as an image: its
/// extension is jpg, png or webp, compared ASCII-case-insensitively.
pub open spec fn spec_is_image_path(p: Seq<char>) -> bool {
    match spec_extension(p) {
        Option::Some(ext) => seq_ci(ext, "jpg"@) || seq_ci(ext, "png"@) || seq_ci(ext, "webp"@),
        Option::None => false,
    }
}

/// A segment of a path matching a lowercase pattern from `start` on,
/// ASCII case ignored.
fn tail_eq_ci(path: &str, start: usize, lower: &str) -> (r: bool)
    requires
        start <= path@.len(),
    ensures
        r == seq_ci(path@.skip(start as int), lower@),
{
    let n = path.unicode_len();
    let m = lower.unicode_len();
    if n - start != m {
        return false;
    }
    let mut k: usize = 0;
    while k < m
        invariant
            start + m == n,
            n == path@.len(),
            m == lower@.len(),
            k <= m,
            forall|t: int| 0 <= t < k ==> char_ci(path@[start + t], lower@[t]),
        decreases m - k,
    {
        let c = path.get_char(start + k);
        let lc = lower.get_char(k);
        if !(c == lc || (c as u32) + 32 == (lc as u32)) {
            proof {
                assert(!char_ci(path@.skip(start as int)[k as int], lower@[k as int]));
            }
            return false;
        }
        k += 1;
    }
    proof {
        assert(forall|t: int|
            0 <= t < m ==> path@.skip(start as int)[t] == path@[start + t]);
    }
    true
}

/// Whether a file path names an image the scanner keeps: extension jpg,
/// png or webp, case-insensitively, on the path's final segment.
pub fn is_image_path(path: &str) -> (r: bool)
    ensures
        r == spec_is_image_path(path@),
{
    let n = path.unicode_len();
    let mut i: usize = n;
    let mut start: usize = 0;
    proof {
        assert(path@.take(n as int) =~= path@);
    }
    while i > 0
        invariant_except_break
            start == 0,
        invariant
            i <= n,
            n == path@.len(),
            file_name_start(path@) == file_name_start(path@.take(i as int)),
        ensures
            start == file_name_start(path@),
            start <= n,
        decreases i,
    {
        proof {
            assert(path@.take(i as int).drop_last() =~= path@.take(i - 1));
            assert(path@.take(i as int).last() == path@[i - 1]);
        }
        if path.get_char(i - 1) == '/' {
            start = i;
            break ;
        }
        i -= 1;
    }
    if start >= n {
        return false;
    }
    let from = start + 1;
    let mut j: usize = n;
    proof {
        assert(path@.take(n as int) =~= path@);
    }
    while j > from
        invariant
            from <= j <= n,
            n == path@.len(),
            from == start + 1,
            last_dot_at_or_after(path@, from as int) == last_dot_at_or_after(
                path@.take(j as int),
                from as int,
            ),
        ensures
            from <= j <= n,
            (j == from && last_dot_at_or_after(path@, from as int) == -1) || (j > from && path@[j
                - 1] == '.' && last_dot_at_or_after(path@, from as int) == j - 1),
        decreases j,
    {
        proof {
            assert(path@.take(j as int).drop_last() =~= path@.take(j - 1));
            assert(path@.take(j as int).last() == path@[j - 1]);
        }
        if path.get_char(j - 1) == '.' {
            break ;
        }
        j -= 1;
    }
    if j == from {
        return false;
    }
    tail_eq_ci(path, j, "jpg") || tail_eq_ci(path, j, "png") || tail_eq_ci(path, j, "webp")
}

/// Keeps the image files among the scanner's listing: every path with an
/// accepted extension becomes a reference, in listing order.
pub fn filter_image_paths(paths: &Vec<String>) -> (r: Vec<Reference>)
    ensures
        r@.map_values(|x: Reference| x.path@) == paths@.map_values(|s: String| s@).filter(
            |p: Seq<char>| spec_is_image_path(p),
        ),
{
    let ghost mp = paths@.map_values(|s: String| s@);
    let ghost pred = |p: Seq<char>| spec_is_image_path(p);
    let n = paths.len();
    let mut r: Vec<Reference> = Vec::new();
    let mut i: usize = 0;
    proof {
        reveal(Seq::filter);
        assert(mp.take(0) =~= Seq::<Seq<char>>::empty());
    }
    while i < n
        invariant
            n == paths@.len(),
            mp == paths@.map_values(|s: String| s@),
            pred == (|p: Seq<char>| spec_is_image_path(p)),
            i <= n,
            r@.map_values(|x: Reference| x.path@) == mp.take(i as int).filter(pred),
        decreases n - i,
    {
        let ghost before = r@.map_values(|x: Reference| x.path@);
        let keep = is_image_path(paths[i].as_str());
        if keep {
            r.push(Reference { path: paths[i].clone() });
        }
        proof {
            reveal(Seq::filter);
            assert(mp.take(i + 1).drop_last() =~= mp.take(i as int));
            assert(mp.take(i + 1).last() == mp[i as int]);
            assert(mp[i as int] == paths@[i as int]@);
            if keep {
                assert(r@.map_values(|x: Reference| x.path@) =~= before.push(
                    paths@[i as int]@,
                ));
            }
        }
        i += 1;
    }
    proof {
        assert(mp.take(n as int) =~= mp);
    }
    r
}

/// A user-registered directory contributing references, tagged
/// safe-for-work or not. The `children` list is derived by scanning and is
/// never persisted.
pub struct SourceFolder {
    pub path: String,
    pub is_sfw: bool,
    pub children: Vec<Reference>,
}

impl PartialEq for SourceFolder {
    fn eq(&self, other: &Self) -> bool {
        self.path == other.path
    }
}

/// Folders are equal exactly when their paths are, whatever their
/// classification or contents: the path is a folder's identity.
impl vstd::std_specs::cmp::PartialEqSpecImpl for SourceFolder {
    open spec fn obeys_eq_spec() -> bool {
        true
    }

    open spec fn eq_spec(&self, other: &SourceFolder) -> bool {
        self.path@ == other.path@
    }
}

/// Whether a folder passes the active filter: with the filter off every
/// folder passes, with it on only folders marked safe-for-work do.
pub open spec fn folder_passes(folder: SourceFolder, sfw_filter: bool) -> bool {
    !sfw_filter || folder.is_sfw
}

/// The paths of a folder's discovered references, in scan order.
pub open spec fn child_paths(folder: SourceFolder) -> Seq<Seq<char>> {
    folder.children@.map_values(|r: Reference| r.path@)
}

/// The flattened view of a folder list under a filter: the concatenation,
/// in registration order, of the child paths of every folder passing the
/// filter. Folders that fail the filter contribute nothing and consume no
/// index space.
pub open spec fn flattened_paths(folders: Seq<SourceFolder>, sfw_filter: bool) -> Seq<Seq<char>>
    decreases folders.len(),
{
    if folders.len() == 0 {
        Seq::empty()
    } else {
        (if folder_passes(folders[0], sfw_filter) {
            child_paths(folders[0])
        } else {
            Seq::empty()
        }) + flattened_paths(folders.drop_first(), sfw_filter)
    }
}

/// The flattened view distributes over concatenation of folder lists.
pub proof fn lemma_flattened_distributes(
    a: Seq<SourceFolder>,
    b: Seq<SourceFolder>,
    sfw_filter: bool,
)
    ensures
        flattened_paths(a + b, sfw_filter) == flattened_paths(a, sfw_filter) + flattened_paths(
            b,
            sfw_filter,
        ),
    decreases a.len(),
{
    if a.len() == 0 {
        assert(a + b =~= b);
        assert(flattened_paths(a, sfw_filter) + flattened_paths(b, sfw_filter) =~= flattened_paths(
            b,
            sfw_filter,
        ));
    } else {
        assert((a + b).drop_first() =~= a.drop_first() + b);
        lemma_flattened_distributes(a.drop_first(), b, sfw_filter);
        assert(flattened_paths(a + b, sfw_filter) =~= flattened_paths(a, sfw_filter)
            + flattened_paths(b, sfw_filter));
    }
}

/// The flattened view of a single folder is its child paths when it
/// passes the filter and empty otherwise.
pub proof fn lemma_flattened_singleton(f: SourceFolder, sfw_filter: bool)
    ensures
        flattened_paths(seq![f], sfw_filter) == (if folder_passes(f, sfw_filter) {
            child_paths(f)
        } else {
            Seq::<Seq<char>>::empty()
        }),
{
    assert(seq![f].drop_first() =~= Seq::<SourceFolder>::empty());
    assert(seq![f][0] == f);
    assert(flattened_paths(Seq::<SourceFolder>::empty(), sfw_filter) == Seq::<Seq<char>>::empty());
    assert(flattened_paths(seq![f], sfw_filter) =~= if folder_passes(f, sfw_filter) {
        child_paths(f)
    } else {
        Seq::<Seq<char>>::empty()
    });
}

/// Unfolds the flattened view of the folders from position `i` on into
/// folder `i`'s contribution followed by the rest.
pub proof fn lemma_flattened_unfold(folders: Seq<SourceFolder>, sfw_filter: bool, i: int)
    requires
        0 <= i < folders.len(),
    ensures
        flattened_paths(folders.skip(i), sfw_filter) == (if folder_passes(folders[i], sfw_filter) {
            child_paths(folders[i])
        } else {
            Seq::<Seq<char>>::empty()
        }) + flattened_paths(folders.skip(i + 1), sfw_filter),
{
    assert(folders.skip(i)[0] == folders[i]);
    assert(folders.skip(i).drop_first() =~= folders.skip(i + 1));
}

/// The flattened view of the first `i` folders is never longer than that
/// of the whole list.
pub proof fn lemma_flattened_take_le(folders: Seq<SourceFolder>, sfw_filter: bool, i: int)
    requires
        0 <= i <= folders.len(),
    ensures
        flattened_paths(folders.take(i), sfw_filter).len() <= flattened_paths(
            folders,
            sfw_filter,
        ).len(),
{
    assert(folders =~= folders.take(i) + folders.skip(i));
    lemma_flattened_distributes(folders.take(i), folders.skip(i), sfw_filter);
}

/// Sum of the children counts over the folders passing the filter.
pub open spec fn sum_children(folders: Seq<SourceFolder>, sfw_filter: bool) -> int
    decreases folders.len(),
{
    if folders.len() == 0 {
        0
    } else {
        (if folder_passes(folders[0], sfw_filter) {
            folders[0].children@.len() as int
        } else {
            0
        }) + sum_children(folders.drop_first(), sfw_filter)
    }
}

/// The flattened view's length is the sum of the children counts over the
/// folders passing the filter.
pub proof fn lemma_count_is_sum(folders: Seq<SourceFolder>, sfw_filter: bool)
    ensures
        flattened_paths(folders, sfw_filter).len() == sum_children(folders, sfw_filter),
    decreases folders.len(),
{
    if folders.len() > 0 {
        lemma_count_is_sum(folders.drop_first(), sfw_filter);
    }
}

/// Filtering only ever removes folders, so the filtered view is never
/// longer than the unfiltered one.
pub proof fn lemma_filtered_le_unfiltered(folders: Seq<SourceFolder>, sfw_filter: bool)
    ensures
        flattened_paths(folders, sfw_filter).len() <= flattened_paths(folders, false).len(),
    decreases folders.len(),
{
    if folders.len() > 0 {
        lemma_filtered_le_unfiltered(folders.drop_first(), sfw_filter);
    }
}

/// Whether some folder in the list is registered under the given path.
pub open spec fn contains_path(folders: Seq<SourceFolder>, path: Seq<char>) -> bool {
    exists|i: int| 0 <= i < folders.len() && folders[i].path@ == path
}

/// No two folders share a path: the path is a folder's identity.
pub open spec fn unique_paths(folders: Seq<SourceFolder>) -> bool {
    forall|i: int, j: int| 0 <= i < j < folders.len() ==> folders[i].path@ != folders[j].path@
}

/// What registering one folder does: nothing if the path is already
/// registered (the path is the folder's identity), otherwise the folder is
/// appended.
pub open spec fn spec_push_folder(folders: Seq<SourceFolder>, f: SourceFolder) -> Seq<SourceFolder> {
    if contains_path(folders, f.path@) {
        folders
    } else {
        folders.push(f)
    }
}

/// Appending a folder appends its contribution to the flattened view.
pub proof fn lemma_flattened_push(folders: Seq<SourceFolder>, f: SourceFolder, sfw_filter: bool)
    ensures
        flattened_paths(folders.push(f), sfw_filter) == flattened_paths(folders, sfw_filter) + (
        if folder_passes(f, sfw_filter) {
            child_paths(f)
        } else {
            Seq::<Seq<char>>::empty()
        }),
{
    assert(folders.push(f) =~= folders + seq![f]);
    lemma_flattened_distributes(folders, seq![f], sfw_filter);
    lemma_flattened_singleton(f, sfw_filter);
}

/// Removing a folder never lengthens the flattened view.
pub proof fn lemma_flattened_remove_le(folders: Seq<SourceFolder>, sfw_filter: bool, i: int)
    requires
        0 <= i < folders.len(),
    ensures
        flattened_paths(folders.remove(i), sfw_filter).len() <= flattened_paths(
            folders,
            sfw_filter,
        ).len(),
{
    assert(folders =~= folders.take(i) + folders.skip(i));
    assert(folders.remove(i) =~= folders.take(i) + folders.skip(i + 1));
    lemma_flattened_distributes(folders.take(i), folders.skip(i), sfw_filter);
    lemma_flattened_distributes(folders.take(i), folders.skip(i + 1), sfw_filter);
    lemma_flattened_unfold(folders, sfw_filter, i);
}

/// Replacing a folder with one holding the same contents leaves the
/// unfiltered flattened view unchanged.
pub proof fn lemma_flattened_update_same_children(folders: Seq<SourceFolder>, i: int, f: SourceFolder)
    requires
        0 <= i < folders.len(),
        f.children == folders[i].children,
    ensures
        flattened_paths(folders.update(i, f), false) == flattened_paths(folders, false),
{
    let t = folders.update(i, f);
    assert(folders =~= (folders.take(i) + seq![folders[i]]) + folders.skip(i + 1));
    assert(t =~= (t.take(i) + seq![f]) + t.skip(i + 1));
    assert(t.take(i) =~= folders.take(i));
    assert(t.skip(i + 1) =~= folders.skip(i + 1));
    lemma_flattened_distributes(folders.take(i) + seq![folders[i]], folders.skip(i + 1), false);
    lemma_flattened_distributes(folders.take(i), seq![folders[i]], false);
    lemma_flattened_distributes(folders.take(i) + seq![f], folders.skip(i + 1), false);
    lemma_flattened_distributes(folders.take(i), seq![f], false);
    lemma_flattened_singleton(folders[i], false);
    lemma_flattened_singleton(f, false);
}

/// What registering a batch of folders under one safety classification
/// does: each entry is registered in turn, deduplication applying against
/// everything registered so far.
pub open spec fn spec_push_folders(
    folders: Seq<SourceFolder>,
    batch: Seq<(String, Vec<Reference>)>,
    is_sfw: bool,
) -> Seq<SourceFolder>
    decreases batch.len(),
{
    if batch.len() == 0 {
        folders
    } else {
        spec_push_folders(
            spec_push_folder(
                folders,
                SourceFolder { path: batch[0].0, is_sfw, children: batch[0].1 },
            ),
            batch.drop_first(),
            is_sfw,
        )
    }
}

/// Total number of scanned references in a batch of folders to register.
pub open spec fn batch_total(batch: Seq<(String, Vec<Reference>)>) -> int
    decreases batch.len(),
{
    if batch.len() == 0 {
        0
    } else {
        batch[0].1@.len() + batch_total(batch.drop_first())
    }
}

/// A batch never holds a negative number of references.
pub proof fn lemma_batch_total_nonneg(batch: Seq<(String, Vec<Reference>)>)
    ensures
        batch_total(batch) >= 0,
    decreases batch.len(),
{
    if batch.len() > 0 {
        lemma_batch_total_nonneg(batch.drop_first());
    }
}

/// Total number of references over a list of scan results.
pub open spec fn scanned_total(scans: Seq<Vec<Reference>>) -> int
    decreases scans.len(),
{
    if scans.len() == 0 {
        0
    } else {
        scans[0]@.len() + scanned_total(scans.drop_first())
    }
}

/// When folders hold exactly the given scan results, the unfiltered sum
/// of their content counts is the total of the scans.
pub proof fn lemma_sum_matches_scans(folders: Seq<SourceFolder>, scans: Seq<Vec<Reference>>)
    requires
        folders.len() == scans.len(),
        forall|i: int| 0 <= i < folders.len() ==> folders[i].children == scans[i],
    ensures
        sum_children(folders, false) == scanned_total(scans),
    decreases folders.len(),
{
    if folders.len() > 0 {
        assert(forall|i: int|
            0 <= i < folders.drop_first().len() ==> folders.drop_first()[i].children
                == scans.drop_first()[i]);
        lemma_sum_matches_scans(folders.drop_first(), scans.drop_first());
    }
}

/// The persisted form of one folder: its identity and classification.
/// Scanned contents and decoded data are never persisted.
pub struct PersistedFolder {
    pub path: String,
    pub is_sfw: bool,
}

/// No two persisted entries share a path.
pub open spec fn unique_persisted(list: Seq<PersistedFolder>) -> bool {
    forall|i: int, j: int| 0 <= i < j < list.len() ==> list[i].path@ != list[j].path@
}

/// The registry: the ordered list of registered source folders (order =
/// registration order, the basis of stable flattened indexing) together
/// with the cache of decoded reference data.
pub struct RefStore {
    pub source_folders: Vec<SourceFolder>,
    /// Decoded images, keyed by reference path.
    pub ref_data: RefCache,
}

impl Default for RefStore {
    fn default() -> (r: Self)
        ensures
            r.wf(),
            r.source_folders@.len() == 0,
    {
        RefStore::new()
    }
}

impl RefStore {
    /// The flattened view of this registry under a filter.
    pub open spec fn refs(self, sfw_filter: bool) -> Seq<Seq<char>> {
        flattened_paths(self.source_folders@, sfw_filter)
    }

    /// Registry invariants: folder paths are unique, the total content
    /// count fits the machine, and the cache is well formed.
    pub open spec fn wf(self) -> bool {
        &&& unique_paths(self.source_folders@)
        &&& flattened_paths(self.source_folders@, false).len() <= usize::MAX
        &&& self.ref_data.wf()
    }

    pub fn new() -> (r: RefStore)
        ensures
            r.wf(),
            r.source_folders@.len() == 0,
            r.ref_data.as_map() == Map::<Seq<char>, (u32, u32, Seq<u8>)>::empty(),
    {
        RefStore { source_folders: Vec::new(), ref_data: RefCache::new() }
    }

    /// How many references pass the filter: the sum of the content counts
    /// of every folder passing it.
    pub fn reference_count(&self, sfw_filter: bool) -> (r: usize)
        requires
            self.wf(),
        ensures
            r == self.refs(sfw_filter).len(),
    {
        let folders = &self.source_folders;
        let n = folders.len();
        let mut acc: usize = 0;
        let mut i: usize = 0;
        while i < n
            invariant
                self.wf(),
                n == folders@.len(),
                folders == self.source_folders,
                i <= n,
                acc == flattened_paths(folders@.take(i as int), sfw_filter).len(),
            decreases n - i,
        {
            proof {
                assert(folders@.take(i + 1) =~= folders@.take(i as int) + seq![folders@[i as int]]);
                lemma_flattened_distributes(
                    folders@.take(i as int),
                    seq![folders@[i as int]],
                    sfw_filter,
                );
                lemma_flattened_singleton(folders@[i as int], sfw_filter);
                lemma_flattened_take_le(folders@, sfw_filter, i + 1);
                lemma_filtered_le_unfiltered(folders@, sfw_filter);
            }
            if !sfw_filter || folders[i].is_sfw {
                acc = acc + folders[i].children.len();
            }
            i += 1;
        }
        proof {
            assert(folders@.take(n as int) =~= folders@);
        }
        acc
    }

    /// Resolves a flattened index under a filter: folders are flattened in
    /// registration order, folders failing the filter are skipped entirely
    /// (their children consume no index space), and the reference at the
    /// cumulative offset is returned. Out-of-range indices give `None`.
    pub fn get_reference(&self, index: usize, sfw_filter: bool) -> (r: Option<&Reference>)
        ensures
            index < self.refs(sfw_filter).len() ==> (match r {
                Some(p) => p.path@ == self.refs(sfw_filter)[index as int],
                None => false,
            }),
            index >= self.refs(sfw_filter).len() ==> r is None,
    {
        let folders = &self.source_folders;
        let n = folders.len();
        let mut idx = index;
        let mut i: usize = 0;
        while i < n
            invariant
                n == folders@.len(),
                folders == self.source_folders,
                i <= n,
                idx <= index,
                flattened_paths(folders@.take(i as int), sfw_filter).len() + idx == index,
            decreases n - i,
        {
            proof {
                assert(folders@ =~= folders@.take(i as int) + folders@.skip(i as int));
                lemma_flattened_distributes(
                    folders@.take(i as int),
                    folders@.skip(i as int),
                    sfw_filter,
                );
                lemma_flattened_unfold(folders@, sfw_filter, i as int);
                assert(folders@.take(i + 1) =~= folders@.take(i as int) + seq![folders@[i as int]]);
                lemma_flattened_distributes(
                    folders@.take(i as int),
                    seq![folders@[i as int]],
                    sfw_filter,
                );
                lemma_flattened_singleton(folders@[i as int], sfw_filter);
            }
            let folder = &folders[i];
            if !sfw_filter || folder.is_sfw {
                if idx < folder.children.len() {
                    proof {
                        assert(child_paths(folders@[i as int])[idx as int] == folder.children@[idx
                            as int].path@);
                        assert(self.refs(sfw_filter)[index as int] == folder.children@[idx
                            as int].path@);
                    }
                    return Some(&folder.children[idx]);
                }
                idx = idx - folder.children.len();
            }
            i += 1;
        }
        proof {
            assert(folders@.take(n as int) =~= folders@);
        }
        None
    }

    /// Registers a folder whose contents have already been scanned.
    /// Registering a path twice is a no-op: the registry is left exactly
    /// as it was. The caller is responsible for persisting the registry
    /// afterwards.
    pub fn push_folder(&mut self, path: String, is_sfw: bool, children: Vec<Reference>)
        requires
            old(self).wf(),
            flattened_paths(old(self).source_folders@, false).len() + children@.len()
                <= usize::MAX,
        ensures
            final(self).wf(),
            final(self).source_folders@ == spec_push_folder(
                old(self).source_folders@,
                (SourceFolder { path, is_sfw, children }),
            ),
            flattened_paths(final(self).source_folders@, false).len() <= flattened_paths(
                old(self).source_folders@,
                false,
            ).len() + children@.len(),
            final(self).ref_data == old(self).ref_data,
    {
        let n = self.source_folders.len();
        let mut i: usize = 0;
        while i < n
            invariant
                *self == *old(self),
                old(self).wf(),
                n == self.source_folders@.len(),
                i <= n,
                forall|j: int| 0 <= j < i ==> self.source_folders@[j].path@ != path@,
            decreases n - i,
        {
            if self.source_folders[i].path == path {
                return ;
            }
            i += 1;
        }
        proof {
            lemma_flattened_push(
                self.source_folders@,
                (SourceFolder { path, is_sfw, children }),
                false,
            );
        }
        self.source_folders.push(SourceFolder { path, is_sfw, children });
    }

    /// Registers a batch of scanned folders under one safety
    /// classification, deduplicating by path as each is registered. The
    /// caller is responsible for persisting the registry afterwards.
    pub fn push_folders(&mut self, batch: Vec<(String, Vec<Reference>)>, is_sfw: bool)
        requires
            old(self).wf(),
            flattened_paths(old(self).source_folders@, false).len() + batch_total(batch@)
                <= usize::MAX,
        ensures
            final(self).wf(),
            final(self).source_folders@ == spec_push_folders(
                old(self).source_folders@,
                batch@,
                is_sfw,
            ),
            final(self).ref_data == old(self).ref_data,
    {
        let ghost all = batch@;
        let mut batch = batch;
        let ghost start = self.source_folders@;
        while batch.len() > 0
            invariant
                self.wf(),
                self.ref_data == old(self).ref_data,
                spec_push_folders(start, all, is_sfw) == spec_push_folders(
                    self.source_folders@,
                    batch@,
                    is_sfw,
                ),
                start == old(self).source_folders@,
                flattened_paths(self.source_folders@, false).len() + batch_total(batch@)
                    <= usize::MAX,
            decreases batch@.len(),
        {
            let ghost before = batch@;
            proof {
                assert(before.remove(0) =~= before.drop_first());
                lemma_batch_total_nonneg(before.drop_first());
            }
            let (path, children) = batch.remove(0);
            proof {
                assert(before[0] == (path, children));
            }
            self.push_folder(path, is_sfw, children);
        }
    }

    /// Removes the first folder registered under the given path; a path
    /// that is not registered leaves the registry untouched. The caller is
    /// responsible for persisting the registry afterwards.
    pub fn remove_folder(&mut self, path: &String)
        requires
            old(self).wf(),
        ensures
            final(self).wf(),
            final(self).ref_data == old(self).ref_data,
            !contains_path(old(self).source_folders@, path@) ==> *final(self) == *old(self),
            contains_path(old(self).source_folders@, path@) ==> exists|i: int|
                0 <= i < old(self).source_folders@.len() && old(self).source_folders@[i].path@
                    == path@ && final(self).source_folders@ == old(self).source_folders@.remove(i),
    {
        let n = self.source_folders.len();
        let mut i: usize = 0;
        while i < n
            invariant
                *self == *old(self),
                old(self).wf(),
                n == self.source_folders@.len(),
                i <= n,
                forall|j: int| 0 <= j < i ==> self.source_folders@[j].path@ != path@,
            decreases n - i,
        {
            if self.source_folders[i].path == *path {
                proof {
                    let s = self.source_folders@;
                    let r = s.remove(i as int);
                    lemma_flattened_remove_le(s, false, i as int);
                    assert forall|p: int, q: int| 0 <= p < q < r.len() implies r[p].path@
                        != r[q].path@ by {
                        assert(r[p] == (if p < i { s[p] } else { s[p + 1] }));
                        assert(r[q] == (if q < i { s[q] } else { s[q + 1] }));
                    }
                }
                self.source_folders.remove(i);
                return ;
            }
            i += 1;
        }
    }

    /// Re-classifies the folder registered under the given path as
    /// safe-for-work or not; a path that is not registered leaves the
    /// registry untouched.
    pub fn set_sfw_source(&mut self, path: &String, is_sfw: bool)
        requires
            old(self).wf(),
        ensures
            final(self).wf(),
            final(self).ref_data == old(self).ref_data,
            !contains_path(old(self).source_folders@, path@) ==> *final(self) == *old(self),
            contains_path(old(self).source_folders@, path@) ==> exists|i: int|
                0 <= i < old(self).source_folders@.len() && old(self).source_folders@[i].path@
                    == path@ && final(self).source_folders@ == old(self).source_folders@.update(
                    i,
                    (SourceFolder {
                        path: old(self).source_folders@[i].path,
                        is_sfw,
                        children: old(self).source_folders@[i].children,
                    }),
                ),
    {
        let n = self.source_folders.len();
        let mut i: usize = 0;
        while i < n
            invariant
                *self == *old(self),
                old(self).wf(),
                n == self.source_folders@.len(),
                i <= n,
                forall|j: int| 0 <= j < i ==> self.source_folders@[j].path@ != path@,
            decreases n - i,
        {
            if self.source_folders[i].path == *path {
                let ghost s = self.source_folders@;
                let mut folder = SourceFolder {
                    path: String::new(),
                    is_sfw: false,
                    children: Vec::new(),
                };
                self.source_folders.set_and_swap(i, &mut folder);
                folder.is_sfw = is_sfw;
                self.source_folders.set_and_swap(i, &mut folder);
                proof {
                    let f = SourceFolder { path: s[i as int].path, is_sfw, children: s[i as int].children };
                    assert(self.source_folders@ =~= s.update(i as int, f));
                    lemma_flattened_update_same_children(s, i as int, f);
                }
                return ;
            }
            i += 1;
        }
    }

    /// Re-derives every folder's contents from fresh scan results, one
    /// per registered folder, in registration order. Contents are not
    /// restored from persistence, so this must run once at start-up.
    pub fn sync_with_source_folders(&mut self, scans: Vec<Vec<Reference>>)
        requires
            old(self).wf(),
            scans@.len() == old(self).source_folders@.len(),
            scanned_total(scans@) <= usize::MAX,
        ensures
            final(self).wf(),
            final(self).ref_data == old(self).ref_data,
            final(self).source_folders@.len() == old(self).source_folders@.len(),
            forall|i: int|
                0 <= i < old(self).source_folders@.len() ==> final(self).source_folders@[i].path
                    == old(self).source_folders@[i].path && final(self).source_folders@[i].is_sfw
                    == old(self).source_folders@[i].is_sfw
                    && final(self).source_folders@[i].children == scans@[i],
    {
        let ghost all = scans@;
        let mut scans = scans;
        let n = self.source_folders.len();
        let mut rebuilt: Vec<SourceFolder> = Vec::new();
        let mut i: usize = 0;
        proof {
            assert(all.skip(0) =~= all);
        }
        while i < n
            invariant
                *self == *old(self),
                old(self).wf(),
                n == self.source_folders@.len(),
                all.len() == n,
                scans@ == all.skip(i as int),
                i <= n,
                rebuilt@.len() == i,
                forall|j: int| #![trigger rebuilt@[j]]
                    0 <= j < i ==> rebuilt@[j].path == self.source_folders@[j].path
                        && rebuilt@[j].is_sfw == self.source_folders@[j].is_sfw
                        && rebuilt@[j].children == all[j],
            decreases n - i,
        {
            proof {
                assert(all.skip(i as int)[0] == all[i as int]);
                assert(all.skip(i as int).remove(0) =~= all.skip(i + 1));
            }
            let children = scans.remove(0);
            let folder = &self.source_folders[i];
            let path = folder.path.clone();
            let ghost prev = rebuilt@;
            rebuilt.push(SourceFolder { path, is_sfw: folder.is_sfw, children });
            proof {
                assert(forall|j: int| 0 <= j < i ==> rebuilt@[j] == #[trigger] prev[j]);
            }
            i += 1;
        }
        proof {
            assert forall|p: int, q: int| 0 <= p < q < rebuilt@.len() implies rebuilt@[p].path@
                != rebuilt@[q].path@ by {
                assert(rebuilt@[p].path == self.source_folders@[p].path);
                assert(rebuilt@[q].path == self.source_folders@[q].path);
            }
            lemma_count_is_sum(rebuilt@, false);
            lemma_sum_matches_scans(rebuilt@, all);
        }
        self.source_folders = rebuilt;
    }

    /// The registry's durable form: the ordered folder list, each entry
    /// reduced to its path and classification.
    pub fn to_persisted(&self) -> (r: Vec<PersistedFolder>)
        ensures
            r@.len() == self.source_folders@.len(),
            forall|i: int|
                0 <= i < r@.len() ==> r@[i].path@ == self.source_folders@[i].path@ && r@[i].is_sfw
                    == self.source_folders@[i].is_sfw,
    {
        let n = self.source_folders.len();
        let mut r: Vec<PersistedFolder> = Vec::new();
        let mut i: usize = 0;
        while i < n
            invariant
                n == self.source_folders@.len(),
                i <= n,
                r@.len() == i,
                forall|j: int|
                    0 <= j < i ==> r@[j].path@ == self.source_folders@[j].path@ && r@[j].is_sfw
                        == self.source_folders@[j].is_sfw,
            decreases n - i,
        {
            let folder = &self.source_folders[i];
            r.push(PersistedFolder { path: folder.path.clone(), is_sfw: folder.is_sfw });
            i += 1;
        }
        r
    }

    /// Records a completed decode in the cache: repeated selection of the
    /// same reference becomes a hit from here on. A completion arriving
    /// for a slot the user has navigated away from is harmless: the
    /// insert is idempotent and keyed by path.
    pub fn insert_loaded(&mut self, path: String, buffer: PixelBuffer)
        requires
            old(self).wf(),
        ensures
            final(self).wf(),
            final(self).source_folders == old(self).source_folders,
            final(self).ref_data.as_map() == old(self).ref_data.as_map().insert(
                path@,
                buffer_view(buffer),
            ),
    {
        self.ref_data.insert(path, buffer);
    }

    /// Rebuilds a registry from its durable form: folders are registered
    /// in their persisted order with empty contents (a resync re-derives
    /// them), a duplicated path keeping its first occurrence.
    pub fn from_persisted(list: &Vec<PersistedFolder>) -> (r: RefStore)
        ensures
            r.wf(),
            r.ref_data.as_map() == Map::<Seq<char>, (u32, u32, Seq<u8>)>::empty(),
            forall|i: int|
                0 <= i < r.source_folders@.len() ==> r.source_folders@[i].children@.len() == 0,
            forall|j: int| 0 <= j < list@.len() ==> contains_path(r.source_folders@, list@[j].path@),
            unique_persisted(list@) ==> r.source_folders@.len() == list@.len(),
            unique_persisted(list@) ==> forall|i: int|
                0 <= i < list@.len() ==> r.source_folders@[i].path@ == list@[i].path@
                    && r.source_folders@[i].is_sfw == list@[i].is_sfw,
    {
        let n = list.len();
        let mut store = RefStore::new();
        let mut j: usize = 0;
        while j < n
            invariant
                store.wf(),
                store.ref_data.as_map() == Map::<Seq<char>, (u32, u32, Seq<u8>)>::empty(),
                flattened_paths(store.source_folders@, false).len() == 0,
                n == list@.len(),
                j <= n,
                store.source_folders@.len() <= j,
                forall|i: int|
                    0 <= i < store.source_folders@.len() ==> store.source_folders@[i].children@.len()
                        == 0,
                forall|k: int| 0 <= k < j ==> contains_path(store.source_folders@, list@[k].path@),
                unique_persisted(list@) ==> store.source_folders@.len() == j,
                unique_persisted(list@) ==> forall|i: int|
                    0 <= i < j ==> store.source_folders@[i].path@ == list@[i].path@
                        && store.source_folders@[i].is_sfw == list@[i].is_sfw,
            decreases n - j,
        {
            let ghost before = store.source_folders@;
            let entry = &list[j];
            let path = entry.path.clone();
            let ghost gpath = path;
            store.push_folder(path, entry.is_sfw, Vec::new());
            proof {
                let cur = store.source_folders@;
                assert(gpath@ == list@[j as int].path@);
                if unique_persisted(list@) && contains_path(before, list@[j as int].path@) {
                    let i = choose|i: int|
                        0 <= i < before.len() && before[i].path@ == list@[j as int].path@;
                    assert(list@[i].path@ == list@[j as int].path@);
                    assert(false);
                }
                assert forall|k: int| 0 <= k < j + 1 implies contains_path(
                    cur,
                    list@[k].path@,
                ) by {
                    if k < j {
                        let i = choose|i: int|
                            0 <= i < before.len() && before[i].path@ == list@[k].path@;
                        assert(cur[i] == before[i]);
                    } else if contains_path(before, list@[j as int].path@) {
                        let i = choose|i: int|
                            0 <= i < before.len() && before[i].path@ == list@[j as int].path@;
                        assert(cur[i] == before[i]);
                    } else {
                        assert(cur[before.len() as int].path@ == list@[j as int].path@);
                    }
                }
            }
            j += 1;
        }
        store
    }
}

/// Law: registering a path is idempotent. Registering the same path a
/// second time, with any classification and contents, leaves the folder
/// list exactly as the first registration left it.
pub proof fn lemma_push_folder_idempotent(
    folders: Seq<SourceFolder>,
    f1: SourceFolder,
    f2: SourceFolder,
)
    requires
        f1.path@ == f2.path@,
    ensures
        spec_push_folder(spec_push_folder(folders, f1), f2) == spec_push_folder(folders, f1),
{
    let s1 = spec_push_folder(folders, f1);
    if !contains_path(folders, f1.path@) {
        assert(s1[folders.len() as int] == f1);
        assert(contains_path(s1, f2.path@));
    }
}

/// Law: every reference in the flattened view belongs to a folder that
/// passes the filter.
pub proof fn lemma_flattened_membership(folders: Seq<SourceFolder>, sfw_filter: bool, k: int)
    requires
        0 <= k < flattened_paths(folders, sfw_filter).len(),
    ensures
        exists|i: int|
            0 <= i < folders.len() && folder_passes(folders[i], sfw_filter) && child_paths(
                folders[i],
            ).contains(flattened_paths(folders, sfw_filter)[k]),
    decreases folders.len(),
{
    let head = if folder_passes(folders[0], sfw_filter) {
        child_paths(folders[0])
    } else {
        Seq::<Seq<char>>::empty()
    };
    if k < head.len() {
        assert(child_paths(folders[0])[k] == flattened_paths(folders, sfw_filter)[k]);
        assert(folder_passes(folders[0], sfw_filter) && child_paths(folders[0]).contains(
            flattened_paths(folders, sfw_filter)[k],
        ));
    } else {
        lemma_flattened_membership(folders.drop_first(), sfw_filter, k - head.len());
        let i = choose|i: int|
            0 <= i < folders.drop_first().len() && folder_passes(
                folders.drop_first()[i],
                sfw_filter,
            ) && child_paths(folders.drop_first()[i]).contains(
                flattened_paths(folders.drop_first(), sfw_filter)[k - head.len()],
            );
        assert(folders[i + 1] == folders.drop_first()[i]);
        assert(folder_passes(folders[i + 1], sfw_filter) && child_paths(folders[i + 1]).contains(
            flattened_paths(folders, sfw_filter)[k],
        ));
    }
}

/// Law: the flattened view reproduces each passing folder's children as a
/// contiguous block at the cumulative offset of the passing folders before
/// it, in registration order, with non-matching folders skipped entirely.
pub proof fn lemma_flattened_segments(folders: Seq<SourceFolder>, sfw_filter: bool, j: int)
    requires
        0 <= j < folders.len(),
        folder_passes(folders[j], sfw_filter),
    ensures
        flattened_paths(folders.take(j), sfw_filter).len() + child_paths(folders[j]).len()
            <= flattened_paths(folders, sfw_filter).len(),
        flattened_paths(folders, sfw_filter).subrange(
            flattened_paths(folders.take(j), sfw_filter).len() as int,
            flattened_paths(folders.take(j), sfw_filter).len() + child_paths(folders[j]).len() as int,
        ) == child_paths(folders[j]),
{
    assert(folders =~= folders.take(j) + folders.skip(j));
    lemma_flattened_distributes(folders.take(j), folders.skip(j), sfw_filter);
    lemma_flattened_unfold(folders, sfw_filter, j);
    assert(flattened_paths(folders, sfw_filter).subrange(
        flattened_paths(folders.take(j), sfw_filter).len() as int,
        flattened_paths(folders.take(j), sfw_filter).len() + child_paths(folders[j]).len() as int,
    ) =~= child_paths(folders[j]));
}

/// Law: persisting a registry and rebuilding from its durable form yields
/// the same ordered folder list, with every folder's contents empty until
/// a resync re-derives them. `list` is any value meeting `to_persisted`'s
/// contract for `s`, and `r` any registry meeting `from_persisted`'s
/// contract for `list`.
pub proof fn lemma_persist_round_trip(s: RefStore, list: Seq<PersistedFolder>, r: RefStore)
    requires
        s.wf(),
        list.len() == s.source_folders@.len(),
        forall|i: int|
            0 <= i < list.len() ==> list[i].path@ == s.source_folders@[i].path@ && list[i].is_sfw
                == s.source_folders@[i].is_sfw,
        forall|i: int|
            0 <= i < r.source_folders@.len() ==> r.source_folders@[i].children@.len() == 0,
        unique_persisted(list) ==> r.source_folders@.len() == list.len(),
        unique_persisted(list) ==> forall|i: int|
            0 <= i < list.len() ==> r.source_folders@[i].path@ == list[i].path@
                && r.source_folders@[i].is_sfw == list[i].is_sfw,
    ensures
        r.source_folders@.len() == s.source_folders@.len(),
        forall|i: int|
            0 <= i < s.source_folders@.len() ==> r.source_folders@[i].path@
                == s.source_folders@[i].path@ && r.source_folders@[i].is_sfw
                == s.source_folders@[i].is_sfw && r.source_folders@[i].children@.len() == 0,
{
    assert forall|i: int, j: int| 0 <= i < j < list.len() implies list[i].path@
        != list[j].path@ by {
        assert(list[i].path@ == s.source_folders@[i].path@);
        assert(list[j].path@ == s.source_folders@[j].path@);
    }
    assert(unique_persisted(list));
    assert forall|i: int|
        0 <= i < s.source_folders@.len() implies r.source_folders@[i].path@
        == s.source_folders@[i].path@ && r.source_folders@[i].is_sfw == s.source_folders@[i].is_sfw
        && r.source_folders@[i].children@.len() == 0 by {
        assert(list[i].path@ == s.source_folders@[i].path@);
        assert(r.source_folders@[i].path@ == list[i].path@ && r.source_folders@[i].is_sfw
            == list[i].is_sfw);
    }
}

} // verus!
