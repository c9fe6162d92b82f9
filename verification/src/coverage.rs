use crate::group::{
    distinct_hashes, duplicates, has_group, is_duplicate, listed_paths, record_into, GroupModel,
};
use crate::grouping::{
    grouping, lemma_grouping_sound, lemma_grouping_step, report_of, scanned_paths, HashedFile,
};
use vstd::prelude::*;
use vstd::seq_lib::{lemma_multiset_commutative, to_multiset_build};

verus! {

/// Every group that is reported holds at least two files.
pub proof fn lemma_no_singleton_groups(groups: Seq<GroupModel>)
    ensures
        forall|i: int|
            0 <= i < duplicates(groups).len() ==> (#[trigger] duplicates(groups)[i]).files.len()
                >= 2,
{
    assert forall|i: int| 0 <= i < duplicates(groups).len() implies (#[trigger] duplicates(
        groups,
    )[i]).files.len() >= 2 by {
        groups.lemma_filter_pred(|g: GroupModel| is_duplicate(g), i);
    }
}

/// The paths listed in a list of groups that is one group longer are those
/// listed before, followed by the files of the new group.
pub proof fn lemma_listed_paths_push(groups: Seq<GroupModel>, group: GroupModel)
    ensures
        listed_paths(groups.push(group)) == listed_paths(groups) + group.files,
{
    let files = groups.map_values(|g: GroupModel| g.files);
    assert(groups.push(group).map_values(|g: GroupModel| g.files) =~= files.push(group.files));
    files.lemma_flatten_push(group.files);
}

/// Recording a file lists its path once more and changes nothing else of what
/// is listed.
pub proof fn lemma_record_lists_one_more(groups: Seq<GroupModel>, hash: Seq<char>, path: Seq<char>)
    requires
        distinct_hashes(groups),
    ensures
        listed_paths(record_into(groups, hash, path)).to_multiset() == listed_paths(
            groups,
        ).to_multiset().insert(path),
    decreases groups.len(),
{
    broadcast use vstd::multiset::group_multiset_axioms;

    if !has_group(groups, hash) {
        let opened = GroupModel { hash, files: seq![path] };
        lemma_listed_paths_push(groups, opened);
        assert(listed_paths(groups) + opened.files =~= listed_paths(groups).push(path));
        to_multiset_build(listed_paths(groups), path);
    } else {
        let at = choose|i: int| 0 <= i < groups.len() && (#[trigger] groups[i]).hash == hash;
        let earlier = groups.drop_last();
        let last = groups.last();
        let after = record_into(groups, hash, path);
        assert(earlier.push(last) =~= groups);
        assert(distinct_hashes(earlier)) by {
            assert forall|i: int, j: int|
                0 <= i < earlier.len() && 0 <= j < earlier.len() && i != j implies (
            #[trigger] earlier[i]).hash != (#[trigger] earlier[j]).hash by {
                assert(earlier[i] == groups[i] && earlier[j] == groups[j]);
            }
        }
        lemma_listed_paths_push(earlier, last);
        lemma_multiset_commutative(listed_paths(earlier), last.files);
        if last.hash == hash {
            assert(!has_group(earlier, hash)) by {
                if has_group(earlier, hash) {
                    let i = choose|i: int|
                        0 <= i < earlier.len() && (#[trigger] earlier[i]).hash == hash;
                    assert(groups[i].hash == groups[groups.len() - 1].hash);
                }
            }
            let grown = GroupModel { hash: last.hash, files: last.files.push(path) };
            assert(after =~= earlier.push(grown)) by {
                assert forall|i: int| 0 <= i < earlier.len() implies after[i] == earlier[i] by {
                    assert(groups[i].hash != groups[groups.len() - 1].hash);
                }
            }
            lemma_listed_paths_push(earlier, grown);
            lemma_multiset_commutative(listed_paths(earlier), grown.files);
            to_multiset_build(last.files, path);
            assert(listed_paths(after).to_multiset() =~= listed_paths(
                groups,
            ).to_multiset().insert(path));
        } else {
            assert(has_group(earlier, hash)) by {
                assert(earlier[at].hash == hash);
            }
            lemma_record_lists_one_more(earlier, hash, path);
            assert(after =~= record_into(earlier, hash, path).push(last));
            lemma_listed_paths_push(record_into(earlier, hash, path), last);
            lemma_multiset_commutative(listed_paths(record_into(earlier, hash, path)), last.files);
            assert(listed_paths(after).to_multiset() =~= listed_paths(
                groups,
            ).to_multiset().insert(path));
        }
    }
}

/// Grouping loses no file and invents none: the paths listed in the grouping
/// of a scan are the paths of the scan, each as often as the scan met it.
pub proof fn lemma_grouping_lists_every_file(log: Seq<HashedFile>)
    ensures
        listed_paths(grouping(log)).to_multiset() == scanned_paths(log).to_multiset(),
    decreases log.len(),
{
    broadcast use vstd::multiset::group_multiset_axioms;

    if log.len() == 0 {
        assert(grouping(log) =~= Seq::<GroupModel>::empty());
        assert(listed_paths(grouping(log)) =~= Seq::<Seq<char>>::empty());
        assert(scanned_paths(log) =~= Seq::<Seq<char>>::empty());
    } else {
        let earlier = log.drop_last();
        let last = log.last();
        assert(earlier.push(last) =~= log);
        lemma_grouping_lists_every_file(earlier);
        lemma_grouping_step(earlier, last);
        lemma_grouping_sound(earlier);
        lemma_record_lists_one_more(grouping(earlier), last.digest, last.path);
        assert(scanned_paths(log) =~= scanned_paths(earlier).push(last.path));
        to_multiset_build(scanned_paths(earlier), last.path);
    }
}

/// Dropping the groups of one file drops paths and adds none.
pub proof fn lemma_duplicates_list_less(groups: Seq<GroupModel>)
    ensures
        listed_paths(duplicates(groups)).to_multiset().subset_of(
            listed_paths(groups).to_multiset(),
        ),
    decreases groups.len(),
{
    broadcast use vstd::multiset::group_multiset_axioms;

    if groups.len() == 0 {
        reveal(Seq::filter);
        assert(duplicates(groups) =~= groups);
    } else {
        let earlier = groups.drop_last();
        let last = groups.last();
        assert(earlier.push(last) =~= groups);
        lemma_duplicates_list_less(earlier);
        earlier.lemma_filter_push(last, |g: GroupModel| is_duplicate(g));
        lemma_listed_paths_push(earlier, last);
        lemma_multiset_commutative(listed_paths(earlier), last.files);
        if is_duplicate(last) {
            lemma_listed_paths_push(duplicates(earlier), last);
            lemma_multiset_commutative(listed_paths(duplicates(earlier)), last.files);
        }
    }
}

/// The report covers hashed files only: the paths in its groups, each
/// counted as often as it is listed, are among the paths of the files that
/// were hashed, each counted as often as the scan met it.
pub proof fn lemma_report_lists_hashed_files_only(log: Seq<HashedFile>)
    ensures
        listed_paths(report_of(log)).to_multiset().subset_of(scanned_paths(log).to_multiset()),
{
    lemma_grouping_lists_every_file(log);
    lemma_duplicates_list_less(grouping(log));
}

/// A file appears in at most one group: where the scan met no path twice, the
/// report lists no path twice, neither in two groups nor twice in one.
pub proof fn lemma_file_in_at_most_one_group(log: Seq<HashedFile>)
    requires
        scanned_paths(log).no_duplicates(),
    ensures
        listed_paths(report_of(log)).no_duplicates(),
{
    broadcast use vstd::multiset::group_multiset_axioms;

    let listed = listed_paths(report_of(log));
    lemma_report_lists_hashed_files_only(log);
    scanned_paths(log).lemma_multiset_has_no_duplicates();
    assert forall|p: Seq<char>| listed.to_multiset().contains(p) implies listed.to_multiset().count(
        p,
    ) == 1 by {
        assert(listed.to_multiset().count(p) <= scanned_paths(log).to_multiset().count(p));
    }
    listed.lemma_multiset_has_no_duplicates_conv();
}

} // verus!
