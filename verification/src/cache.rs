//! The image cache: a mapping from a reference's path to its decoded pixel
//! buffer. Entries are added lazily after a decode completes and are never
//! evicted within a session; repeated selection of the same reference is a
//! cache hit.

use vstd::prelude::*;

verus! {

/// A decoded image: RGBA pixel data with explicit dimensions, as the
/// decoder collaborator hands it over.
pub struct PixelBuffer {
    pub width: u32,
    pub height: u32,
    pub data: Vec<u8>,
}

/// The mathematical value of a pixel buffer: its dimensions and bytes.
pub open spec fn buffer_view(b: PixelBuffer) -> (u32, u32, Seq<u8>) {
    (b.width, b.height, b.data@)
}

/// The map described by a list of path/buffer entries, later entries
/// taking precedence.
pub open spec fn entries_map(s: Seq<(String, PixelBuffer)>) -> Map<Seq<char>, (u32, u32, Seq<u8>)>
    decreases s.len(),
{
    if s.len() == 0 {
        Map::empty()
    } else {
        entries_map(s.drop_last()).insert(s.last().0@, buffer_view(s.last().1))
    }
}

/// A key is in the map exactly when some entry carries it.
proof fn lemma_entries_map_domain(s: Seq<(String, PixelBuffer)>, k: Seq<char>)
    ensures
        entries_map(s).contains_key(k) <==> exists|i: int| 0 <= i < s.len() && s[i].0@ == k,
    decreases s.len(),
{
    if s.len() > 0 {
        lemma_entries_map_domain(s.drop_last(), k);
        if s.last().0@ == k {
            assert(s[s.len() - 1].0@ == k);
        } else if entries_map(s).contains_key(k) {
            let i = choose|i: int| 0 <= i < s.drop_last().len() && s.drop_last()[i].0@ == k;
            assert(s[i].0@ == k);
        } else if exists|i: int| 0 <= i < s.len() && s[i].0@ == k {
            let i = choose|i: int| 0 <= i < s.len() && s[i].0@ == k;
            assert(s.drop_last()[i].0@ == k);
        }
    }
}

/// No two entries carry the same path.
pub open spec fn entries_unique(s: Seq<(String, PixelBuffer)>) -> bool {
    forall|i: int, j: int| 0 <= i < j < s.len() ==> s[i].0@ != s[j].0@
}

/// With unique keys, the map's value at an entry's key is that entry's
/// buffer.
proof fn lemma_entries_map_value(s: Seq<(String, PixelBuffer)>, i: int)
    requires
        entries_unique(s),
        0 <= i < s.len(),
    ensures
        entries_map(s).contains_key(s[i].0@),
        entries_map(s)[s[i].0@] == buffer_view(s[i].1),
    decreases s.len(),
{
    lemma_entries_map_domain(s, s[i].0@);
    if i < s.len() - 1 {
        assert(entries_unique(s.drop_last()));
        assert(s.drop_last()[i] == s[i]);
        lemma_entries_map_value(s.drop_last(), i);
        assert(s[i].0@ != s.last().0@);
    }
}

/// Replacing the entry that carries a key updates the map at that key.
proof fn lemma_entries_map_update(s: Seq<(String, PixelBuffer)>, i: int, e: (String, PixelBuffer))
    requires
        entries_unique(s),
        0 <= i < s.len(),
        s[i].0@ == e.0@,
    ensures
        entries_map(s.update(i, e)) == entries_map(s).insert(e.0@, buffer_view(e.1)),
    decreases s.len(),
{
    let t = s.update(i, e);
    if i == s.len() - 1 {
        assert(t.drop_last() =~= s.drop_last());
        assert(t.last() == e);
        assert(entries_map(t) =~= entries_map(s).insert(e.0@, buffer_view(e.1)));
    } else {
        assert(t.drop_last() =~= s.drop_last().update(i, e));
        assert(t.last() == s.last());
        assert(entries_unique(s.drop_last()));
        assert(s.drop_last()[i] == s[i]);
        lemma_entries_map_update(s.drop_last(), i, e);
        assert(s[i].0@ != s.last().0@);
        assert(entries_map(t) =~= entries_map(s).insert(e.0@, buffer_view(e.1)));
    }
}

/// The session-lifetime cache of decoded references, keyed by path.
pub struct RefCache {
    entries: Vec<(String, PixelBuffer)>,
}

impl RefCache {
    /// No two cached entries share a path.
    pub closed spec fn wf(self) -> bool {
        entries_unique(self.entries@)
    }

    /// The cache's contents as a map from path to decoded buffer.
    pub closed spec fn as_map(self) -> Map<Seq<char>, (u32, u32, Seq<u8>)> {
        entries_map(self.entries@)
    }

    pub fn new() -> (r: RefCache)
        ensures
            r.wf(),
            r.as_map() == Map::<Seq<char>, (u32, u32, Seq<u8>)>::empty(),
    {
        RefCache { entries: Vec::new() }
    }

    /// Looks a path up: a hit hands the cached buffer back, a miss means
    /// the caller is responsible for dispatching a decode request. The
    /// cache itself performs no work on a miss.
    pub fn get(&self, path: &String) -> (r: Option<&PixelBuffer>)
        requires
            self.wf(),
        ensures
            match r {
                Some(b) => self.as_map().contains_key(path@) && buffer_view(*b) == self.as_map()[
                    path@
                ],
                None => !self.as_map().contains_key(path@),
            },
    {
        let n = self.entries.len();
        let mut i: usize = 0;
        while i < n
            invariant
                self.wf(),
                n == self.entries@.len(),
                i <= n,
                forall|j: int| 0 <= j < i ==> self.entries@[j].0@ != path@,
            decreases n - i,
        {
            if self.entries[i].0 == *path {
                proof {
                    lemma_entries_map_value(self.entries@, i as int);
                }
                return Some(&self.entries[i].1);
            }
            i += 1;
        }
        proof {
            lemma_entries_map_domain(self.entries@, path@);
        }
        None
    }

    /// Records a decode result. Inserting is idempotent and the last
    /// writer wins when a path is decoded twice; decode results are
    /// expected to be deterministic per path, so overwriting is safe.
    pub fn insert(&mut self, path: String, buffer: PixelBuffer)
        requires
            old(self).wf(),
        ensures
            final(self).wf(),
            final(self).as_map() == old(self).as_map().insert(path@, buffer_view(buffer)),
    {
        let n = self.entries.len();
        let mut i: usize = 0;
        while i < n
            invariant
                self.wf(),
                n == self.entries@.len(),
                i <= n,
                forall|j: int| 0 <= j < i ==> self.entries@[j].0@ != path@,
                *self == *old(self),
            decreases n - i,
        {
            if self.entries[i].0 == path {
                proof {
                    lemma_entries_map_update(self.entries@, i as int, (path, buffer));
                }
                self.entries.set(i, (path, buffer));
                return ;
            }
            i += 1;
        }
        proof {
            assert(self.entries@.push((path, buffer)).drop_last() =~= self.entries@);
        }
        self.entries.push((path, buffer));
    }
}

} // verus!
