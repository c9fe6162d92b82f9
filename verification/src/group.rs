use vstd::prelude::*;

verus! {

/// What a group is, mathematically: a digest's text and the paths of the files
/// found with that digest, in the order in which they were found.
pub struct GroupModel {
    pub hash: Seq<char>,
    pub files: Seq<Seq<char>>,
}

/// The files that share one content digest.
#[derive(Debug)]
pub struct DuplicateGroup {
    pub hash: String,
    pub files: Vec<String>,
}

/// The texts of a list of paths.
pub open spec fn path_texts(paths: Seq<String>) -> Seq<Seq<char>> {
    paths.map_values(|p: String| p@)
}

impl View for DuplicateGroup {
    type V = GroupModel;

    open spec fn view(&self) -> GroupModel {
        GroupModel { hash: self.hash@, files: path_texts(self.files@) }
    }
}

/// The models of a list of groups.
pub open spec fn group_models(groups: Seq<DuplicateGroup>) -> Seq<GroupModel> {
    groups.map_values(|g: DuplicateGroup| g@)
}

/// Whether some group of the list stands for the digest.
pub open spec fn has_group(groups: Seq<GroupModel>, hash: Seq<char>) -> bool {
    exists|i: int| 0 <= i < groups.len() && (#[trigger] groups[i]).hash == hash
}

/// No two groups of the list stand for the same digest.
pub open spec fn distinct_hashes(groups: Seq<GroupModel>) -> bool {
    forall|i: int, j: int|
        0 <= i < groups.len() && 0 <= j < groups.len() && i != j ==> (#[trigger] groups[i]).hash
            != (#[trigger] groups[j]).hash
}

/// No group of the list is empty.
pub open spec fn no_empty_group(groups: Seq<GroupModel>) -> bool {
    forall|i: int| 0 <= i < groups.len() ==> (#[trigger] groups[i]).files.len() >= 1
}

/// The group after one more file was found with the digest `hash`: the path
/// is appended if the group stands for that digest, and the group is left
/// alone otherwise.
pub open spec fn extended(group: GroupModel, hash: Seq<char>, path: Seq<char>) -> GroupModel {
    if group.hash == hash {
        GroupModel { hash: group.hash, files: group.files.push(path) }
    } else {
        group
    }
}

/// The groups after a file was recorded: its path joins the group of its
/// digest, or opens a new group at the end if there is none yet.
pub open spec fn record_into(groups: Seq<GroupModel>, hash: Seq<char>, path: Seq<char>) -> Seq<
    GroupModel,
> {
    if has_group(groups, hash) {
        groups.map_values(|g: GroupModel| extended(g, hash, path))
    } else {
        groups.push(GroupModel { hash, files: seq![path] })
    }
}

/// Whether a group holds duplicates: at least two files.
pub open spec fn is_duplicate(group: GroupModel) -> bool {
    group.files.len() >= 2
}

/// The groups worth reporting: those with at least two files, in the order in
/// which they stand.
pub open spec fn duplicates(groups: Seq<GroupModel>) -> Seq<GroupModel> {
    groups.filter(|g: GroupModel| is_duplicate(g))
}

/// Every path listed in the groups, group after group.
pub open spec fn listed_paths(groups: Seq<GroupModel>) -> Seq<Seq<char>> {
    groups.map_values(|g: GroupModel| g.files).flatten()
}

/// The digests of a list of groups, in the order of the groups.
pub open spec fn hashes(groups: Seq<GroupModel>) -> Seq<Seq<char>> {
    groups.map_values(|g: GroupModel| g.hash)
}

/// The files listed under a digest: those of the group that stands for it,
/// and none where no group does.
pub open spec fn files_of(groups: Seq<GroupModel>, hash: Seq<char>) -> Seq<Seq<char>> {
    if has_group(groups, hash) {
        groups[choose|i: int| 0 <= i < groups.len() && (#[trigger] groups[i]).hash == hash].files
    } else {
        Seq::empty()
    }
}

/// Two lists of groups say the same but for the order of the groups and the
/// order of the files in a group: they have as many groups, for the same
/// digests, and under each digest the same files, each as often.
pub open spec fn same_up_to_order(a: Seq<GroupModel>, b: Seq<GroupModel>) -> bool {
    &&& a.len() == b.len()
    &&& forall|d: Seq<char>| #[trigger] has_group(a, d) == has_group(b, d)
    &&& forall|d: Seq<char>| #[trigger]
        files_of(a, d).to_multiset() == files_of(b, d).to_multiset()
}

/// Recording is appending in the mapping from digest to paths: among groups
/// with distinct digests, the path joins the end of the files under its
/// digest, a group is there for that digest afterwards, and the files under
/// every other digest stay as they were.
pub proof fn lemma_record_appends(
    groups: Seq<GroupModel>,
    hash: Seq<char>,
    path: Seq<char>,
    other: Seq<char>,
)
    requires
        distinct_hashes(groups),
    ensures
        distinct_hashes(record_into(groups, hash, path)),
        has_group(record_into(groups, hash, path), other) == (other == hash || has_group(
            groups,
            other,
        )),
        files_of(record_into(groups, hash, path), other) == if other == hash {
            files_of(groups, hash).push(path)
        } else {
            files_of(groups, other)
        },
{
    let after = record_into(groups, hash, path);
    assert(distinct_hashes(after)) by {
        assert forall|i: int, j: int|
            0 <= i < after.len() && 0 <= j < after.len() && i != j implies (#[trigger] after[i]).hash
            != (#[trigger] after[j]).hash by {
            if i < groups.len() {
                assert(after[i].hash == groups[i].hash);
            }
            if j < groups.len() {
                assert(after[j].hash == groups[j].hash);
            }
        }
    }
    if has_group(groups, other) {
        let at = choose|i: int| 0 <= i < groups.len() && (#[trigger] groups[i]).hash == other;
        assert(after[at].hash == other);
        let now = choose|i: int| 0 <= i < after.len() && (#[trigger] after[i]).hash == other;
        assert(now == at) by {
            if now != at {
                assert(after[now].hash != after[at].hash);
            }
        }
    } else if other == hash {
        assert(after[groups.len() as int].hash == hash);
        let now = choose|i: int| 0 <= i < after.len() && (#[trigger] after[i]).hash == other;
        assert(now == groups.len()) by {
            if now != groups.len() {
                assert(after[now].hash != after[groups.len() as int].hash);
            }
        }
        assert(after[now].files =~= Seq::<Seq<char>>::empty().push(path));
    } else {
        if has_group(after, other) {
            let now = choose|i: int| 0 <= i < after.len() && (#[trigger] after[i]).hash == other;
            if now < groups.len() {
                assert(groups[now].hash == other);
            }
        }
    }
}

impl DuplicateGroup {
    /// The number of files in the group.
    pub fn len(&self) -> (count: usize)
        ensures
            count == self@.files.len(),
    {
        self.files.len()
    }
}

} // verus!
