use crate::group::{
    distinct_hashes, duplicates, extended, has_group, no_empty_group, record_into, GroupModel,
};
use vstd::prelude::*;

verus! {

/// A file whose content was read to its end: where it lies and what its
/// content hashed to.
pub struct HashedFile {
    pub path: Seq<char>,
    pub digest: Seq<char>,
}

/// The paths of the files of a scan, in the order of the scan.
pub open spec fn scanned_paths(log: Seq<HashedFile>) -> Seq<Seq<char>> {
    log.map_values(|f: HashedFile| f.path)
}

/// The files of a scan whose content has the given digest, in the order of
/// the scan.
pub open spec fn files_with(log: Seq<HashedFile>, digest: Seq<char>) -> Seq<HashedFile> {
    log.filter(|f: HashedFile| f.digest == digest)
}

/// The paths of the files of a scan whose content has the given digest, in
/// the order of the scan.
pub open spec fn paths_with(log: Seq<HashedFile>, digest: Seq<char>) -> Seq<Seq<char>> {
    scanned_paths(files_with(log, digest))
}

/// The digests that a scan met, each once, in the order in which it first met
/// them.
pub open spec fn first_seen(log: Seq<HashedFile>) -> Seq<Seq<char>>
    decreases log.len(),
{
    if log.len() == 0 {
        Seq::empty()
    } else {
        let earlier = first_seen(log.drop_last());
        if earlier.contains(log.last().digest) {
            earlier
        } else {
            earlier.push(log.last().digest)
        }
    }
}

/// The group of a digest in a scan: all the scan's files with that digest.
pub open spec fn group_of(log: Seq<HashedFile>, digest: Seq<char>) -> GroupModel {
    GroupModel { hash: digest, files: paths_with(log, digest) }
}

/// The files of a scan, grouped by their digest: one group for each digest
/// that the scan met, in the order in which the digests were first met.
pub open spec fn grouping(log: Seq<HashedFile>) -> Seq<GroupModel> {
    first_seen(log).map_values(|d: Seq<char>| group_of(log, d))
}

/// The report of a scan: the groups of two files or more.
pub open spec fn report_of(log: Seq<HashedFile>) -> Seq<GroupModel> {
    duplicates(grouping(log))
}

/// Whether some file of the scan has the given digest.
pub open spec fn met(log: Seq<HashedFile>, digest: Seq<char>) -> bool {
    exists|k: int| 0 <= k < log.len() && (#[trigger] log[k]).digest == digest
}

/// A digest is among the first-seen digests of a scan exactly if a file of
/// the scan has it.
pub proof fn lemma_first_seen_met(log: Seq<HashedFile>, digest: Seq<char>)
    ensures
        first_seen(log).contains(digest) <==> met(log, digest),
    decreases log.len(),
{
    if log.len() > 0 {
        let earlier = log.drop_last();
        let last = log.last();
        lemma_first_seen_met(earlier, digest);
        if first_seen(log).contains(digest) {
            if first_seen(earlier).contains(digest) {
                let k = choose|k: int|
                    0 <= k < earlier.len() && (#[trigger] earlier[k]).digest == digest;
                assert(log[k].digest == digest);
            } else {
                let at = choose|i: int|
                    0 <= i < first_seen(log).len() && first_seen(log)[i] == digest;
                if at < first_seen(earlier).len() {
                    assert(first_seen(earlier)[at] == digest);
                }
                assert(log[log.len() - 1].digest == digest);
            }
        }
        if met(log, digest) {
            let k = choose|k: int| 0 <= k < log.len() && (#[trigger] log[k]).digest == digest;
            if k < log.len() - 1 {
                assert(earlier[k].digest == digest);
            }
            if first_seen(earlier).contains(digest) {
                let at = choose|i: int|
                    0 <= i < first_seen(earlier).len() && first_seen(earlier)[i] == digest;
                assert(first_seen(log)[at] == digest);
            } else {
                assert(last.digest == digest);
                assert(first_seen(log)[first_seen(earlier).len() as int] == digest);
            }
        }
    }
}

/// No digest is listed twice among the first-seen digests of a scan.
pub proof fn lemma_first_seen_distinct(log: Seq<HashedFile>)
    ensures
        first_seen(log).no_duplicates(),
    decreases log.len(),
{
    if log.len() > 0 {
        lemma_first_seen_distinct(log.drop_last());
    }
}

/// Adding a file to a scan adds its path to the paths of its digest and
/// leaves the paths of every other digest as they were.
pub proof fn lemma_paths_with_push(log: Seq<HashedFile>, file: HashedFile, digest: Seq<char>)
    ensures
        paths_with(log.push(file), digest) == if file.digest == digest {
            paths_with(log, digest).push(file.path)
        } else {
            paths_with(log, digest)
        },
{
    log.lemma_filter_push(file, |f: HashedFile| f.digest == digest);
    if file.digest == digest {
        assert(scanned_paths(files_with(log, digest).push(file)) =~= scanned_paths(
            files_with(log, digest),
        ).push(file.path));
    }
}

/// A digest that no file of the scan has comes with no paths.
pub proof fn lemma_unmet_has_no_paths(log: Seq<HashedFile>, digest: Seq<char>)
    requires
        !met(log, digest),
    ensures
        paths_with(log, digest) == Seq::<Seq<char>>::empty(),
    decreases log.len(),
{
    if log.len() == 0 {
        reveal(Seq::filter);
        assert(files_with(log, digest) =~= Seq::<HashedFile>::empty());
        assert(paths_with(log, digest) =~= Seq::<Seq<char>>::empty());
    } else {
        let earlier = log.drop_last();
        assert(earlier.push(log.last()) =~= log);
        assert(log[log.len() - 1].digest != digest);
        assert(!met(earlier, digest)) by {
            if met(earlier, digest) {
                let k = choose|k: int| 0 <= k < earlier.len() && (#[trigger] earlier[k]).digest == digest;
                assert(log[k].digest == digest);
            }
        }
        lemma_unmet_has_no_paths(earlier, digest);
        lemma_paths_with_push(earlier, log.last(), digest);
    }
}

/// Grouping a scan that is one file longer is recording that file in the
/// grouping of the scan so far.
pub proof fn lemma_grouping_step(log: Seq<HashedFile>, file: HashedFile)
    ensures
        grouping(log.push(file)) == record_into(grouping(log), file.digest, file.path),
{
    let longer = log.push(file);
    let before = grouping(log);
    assert(longer.drop_last() =~= log);
    assert(longer.last() == file);
    assert(has_group(before, file.digest) <==> first_seen(log).contains(file.digest)) by {
        if has_group(before, file.digest) {
            let i = choose|i: int| 0 <= i < before.len() && (#[trigger] before[i]).hash == file.digest;
            assert(first_seen(log)[i] == file.digest);
        }
        if first_seen(log).contains(file.digest) {
            let i = choose|i: int| 0 <= i < first_seen(log).len() && first_seen(log)[i] == file.digest;
            assert(before[i].hash == file.digest);
        }
    }
    assert forall|i: int| 0 <= i < before.len() implies group_of(longer, first_seen(log)[i])
        == extended(#[trigger] before[i], file.digest, file.path) by {
        lemma_paths_with_push(log, file, first_seen(log)[i]);
    }
    if first_seen(log).contains(file.digest) {
        assert(grouping(longer) =~= record_into(before, file.digest, file.path));
    } else {
        lemma_first_seen_met(log, file.digest);
        lemma_unmet_has_no_paths(log, file.digest);
        lemma_paths_with_push(log, file, file.digest);
        assert(paths_with(longer, file.digest) =~= seq![file.path]);
        assert forall|i: int| 0 <= i < before.len() implies first_seen(log)[i] != file.digest by {
            assert(first_seen(log).contains(first_seen(log)[i]));
        }
        assert(grouping(longer) =~= record_into(before, file.digest, file.path));
    }
}

/// The grouping of a scan keeps what the index promises: no digest has two
/// groups, no group is empty, and every file of the scan has the group of its
/// digest.
pub proof fn lemma_grouping_sound(log: Seq<HashedFile>)
    ensures
        distinct_hashes(grouping(log)),
        no_empty_group(grouping(log)),
        forall|k: int| 0 <= k < log.len() ==> has_group(grouping(log), (#[trigger] log[k]).digest),
{
    let groups = grouping(log);
    lemma_first_seen_distinct(log);
    assert forall|i: int| 0 <= i < groups.len() implies (#[trigger] groups[i]).files.len()
        >= 1 by {
        let d = first_seen(log)[i];
        lemma_first_seen_met(log, d);
        if paths_with(log, d).len() == 0 {
            let k = choose|k: int| 0 <= k < log.len() && (#[trigger] log[k]).digest == d;
            log.lemma_filter_contains(|f: HashedFile| f.digest == d, k);
        }
    }
    assert forall|k: int| 0 <= k < log.len() implies has_group(
        groups,
        (#[trigger] log[k]).digest,
    ) by {
        let d = log[k].digest;
        lemma_first_seen_met(log, d);
        let i = choose|i: int| 0 <= i < first_seen(log).len() && first_seen(log)[i] == d;
        assert(groups[i].hash == d);
    }
}

} // verus!
