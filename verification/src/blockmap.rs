//! The block-to-file lookup table handed to file-scoped `CodeBook`
//! operations.
//!
//! The `CodeBook` deliberately holds no reference to the `FileList`; a
//! caller builds this cheap projection from the current file contents and
//! passes it per call.  Applied codes whose block is absent from the table
//! are "orphans": file-scoped queries skip them, and they stay in the book.

use vstd::prelude::*;
use vstd::map::*;
use crate::ids::{BlockId, FileId};

verus! {

/// The mapping described by a sequence of insertions, later entries
/// overriding earlier ones.
pub open spec fn entries_to_map(s: Seq<(BlockId, FileId)>) -> Map<BlockId, FileId>
    decreases s.len(),
{
    if s.len() == 0 {
        Map::empty()
    } else {
        entries_to_map(s.drop_last()).insert(s.last().0, s.last().1)
    }
}

/// A lookup table from text blocks to the file that owns them.
pub struct BlockFileMap {
    entries: Vec<(BlockId, FileId)>,
}

impl View for BlockFileMap {
    type V = Map<BlockId, FileId>;

    closed spec fn view(&self) -> Map<BlockId, FileId> {
        entries_to_map(self.entries@)
    }
}

proof fn lemma_entries_get(s: Seq<(BlockId, FileId)>, b: BlockId, i: int)
    requires
        0 <= i < s.len(),
        s[i].0 == b,
        forall|k: int| i < k < s.len() ==> (#[trigger] s[k]).0 != b,
    ensures
        entries_to_map(s).contains_key(b),
        entries_to_map(s)[b] == s[i].1,
    decreases s.len(),
{
    broadcast use group_map_axioms;

    if i == s.len() - 1 {
    } else {
        assert(s.last().0 != b);
        assert(s.drop_last()[i] == s[i]);
        lemma_entries_get(s.drop_last(), b, i);
    }
}

proof fn lemma_entries_absent(s: Seq<(BlockId, FileId)>, b: BlockId)
    requires
        forall|k: int| 0 <= k < s.len() ==> (#[trigger] s[k]).0 != b,
    ensures
        !entries_to_map(s).contains_key(b),
    decreases s.len(),
{
    broadcast use group_map_axioms;

    if s.len() > 0 {
        lemma_entries_absent(s.drop_last(), b);
    }
}

impl BlockFileMap {
    /// An empty table.
    pub fn new() -> (r: Self)
        ensures
            r@ == Map::<BlockId, FileId>::empty(),
    {
        BlockFileMap { entries: Vec::new() }
    }

    /// Records that block `b` belongs to file `f`, overriding any earlier
    /// record for `b`.
    pub fn insert(&mut self, b: BlockId, f: FileId)
        ensures
            final(self)@ == old(self)@.insert(b, f),
    {
        self.entries.push((b, f));
        proof {
            assert(self.entries@.drop_last() =~= old(self).entries@);
        }
    }

    /// Looks up the file that owns block `b`.
    pub fn get(&self, b: BlockId) -> (r: Option<FileId>)
        ensures
            r == if self@.contains_key(b) {
                Some(self@[b])
            } else {
                None::<FileId>
            },
    {
        let mut i = self.entries.len();
        loop
            invariant
                i <= self.entries.len(),
                forall|k: int| i <= k < self.entries@.len() ==> (#[trigger] self.entries@[k]).0
                    != b,
            ensures
                i == 0,
                forall|k: int| 0 <= k < self.entries@.len() ==> (#[trigger] self.entries@[k]).0
                    != b,
            decreases i,
        {
            if i == 0 {
                break ;
            }
            i = i - 1;
            let (eb, ef) = self.entries[i];
            if eb == b {
                proof {
                    lemma_entries_get(self.entries@, b, i as int);
                }
                return Some(ef);
            }
        }
        proof {
            lemma_entries_absent(self.entries@, b);
        }
        None
    }
}

} // verus!
