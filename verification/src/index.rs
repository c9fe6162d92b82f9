use crate::digest::ContentDigest;
use crate::group::{
    distinct_hashes, extended, group_models, no_empty_group, record_into, DuplicateGroup,
    GroupModel,
};
use vstd::hash_map::StringHashMap;
use vstd::prelude::*;

verus! {

/// The accumulating mapping from content digest to the paths seen with it.
///
/// The groups stand in the order in which their digests were first seen; a
/// table from digest text to position finds a digest's group in one lookup.
pub struct GroupIndex {
    groups: Vec<DuplicateGroup>,
    slots: StringHashMap<usize>,
}

impl View for GroupIndex {
    type V = Seq<GroupModel>;

    closed spec fn view(&self) -> Seq<GroupModel> {
        group_models(self.groups@)
    }
}

impl GroupIndex {
    /// The table and the list agree: each group is found under its digest, and
    /// the table knows no other digest. No group is empty.
    pub closed spec fn wf(&self) -> bool {
        &&& forall|i: int|
            0 <= i < self.groups@.len() ==> self.slots@.contains_key(
                (#[trigger] self.groups@[i]).hash@,
            ) && self.slots@[self.groups@[i].hash@] == i
        &&& forall|key: Seq<char>| #[trigger]
            self.slots@.contains_key(key) ==> self.slots@[key] < self.groups@.len()
                && self.groups@[self.slots@[key] as int].hash@ == key
        &&& forall|i: int| 0 <= i < self.groups@.len() ==> (#[trigger] self.groups@[i]).files@.len() >= 1
    }

    /// In a well-formed index keys are unique, and an entry is there only
    /// for a digest that a file was recorded with.
    pub proof fn lemma_keys_unique(&self)
        requires
            self.wf(),
        ensures
            distinct_hashes(self@),
            no_empty_group(self@),
    {
        assert forall|i: int, j: int|
            0 <= i < self@.len() && 0 <= j < self@.len() && i != j implies (#[trigger] self@[i]).hash
            != (#[trigger] self@[j]).hash by {
            assert(self@[i].hash == self.groups@[i].hash@);
            assert(self@[j].hash == self.groups@[j].hash@);
        }
        assert forall|i: int| 0 <= i < self@.len() implies (#[trigger] self@[i]).files.len()
            >= 1 by {
            assert(self@[i].files.len() == self.groups@[i].files@.len());
        }
    }

    /// An index with no entry.
    pub fn new() -> (index: Self)
        ensures
            index.wf(),
            index@ == Seq::<GroupModel>::empty(),
    {
        let index = GroupIndex { groups: Vec::new(), slots: StringHashMap::new() };
        assert(index@ =~= Seq::<GroupModel>::empty());
        index
    }

    /// Records that the file at `path` has the content identity `digest`:
    /// the path is appended to the digest's entry, which is made if absent.
    pub fn record(&mut self, digest: &ContentDigest, path: String)
        requires
            old(self).wf(),
        ensures
            final(self).wf(),
            final(self)@ == record_into(old(self)@, digest@, path@),
    {
        let ghost before = self@;
        let known: Option<usize> = match self.slots.get(digest.as_str()) {
            Some(slot) => Some(*slot),
            None => None,
        };
        match known {
            Some(at) => {
                proof {
                    assert(before[at as int].hash == digest@);
                }
                self.groups[at].files.push(path);
                proof {
                    assert forall|i: int| 0 <= i < before.len() implies (#[trigger] self@[i])
                        == extended(before[i], digest@, path@) by {
                        if i != at {
                            assert(old(self).groups@[i].hash@ != digest@);
                        } else {
                            assert(self@[i].files =~= before[i].files.push(path@));
                        }
                    }
                    assert(self@ =~= record_into(before, digest@, path@));
                }
            },
            None => {
                proof {
                    assert forall|i: int| 0 <= i < before.len() implies (#[trigger] before[i]).hash
                        != digest@ by {
                        assert(before[i].hash == old(self).groups@[i].hash@);
                    }
                }
                let at: usize = self.groups.len();
                let hash: String = digest.as_str().to_owned();
                let mut files: Vec<String> = Vec::new();
                files.push(path);
                self.slots.insert(digest.as_str().to_owned(), at);
                self.groups.push(DuplicateGroup { hash, files });
                proof {
                    assert(self.groups@[at as int]@.files =~= seq![path@]);
                    assert(self@ =~= record_into(before, digest@, path@));
                }
            },
        }
    }

    /// All entries, each a digest with its paths, in the order in which the
    /// digests were first seen.
    pub fn entries(&self) -> (entries: &Vec<DuplicateGroup>)
        ensures
            group_models(entries@) == self@,
    {
        &self.groups
    }

    /// Gives up the index for its entries.
    pub fn into_entries(self) -> (entries: Vec<DuplicateGroup>)
        ensures
            group_models(entries@) == self@,
    {
        self.groups
    }

    /// The number of distinct digests seen.
    pub fn len(&self) -> (count: usize)
        ensures
            count == self@.len(),
    {
        self.groups.len()
    }
}

} // verus!
