use crate::engine::{hashed_files, OutcomeModel};
use crate::failure::FailureModel;
use crate::group::{
    distinct_hashes, duplicates, files_of, has_group, hashes, is_duplicate, same_up_to_order,
    GroupModel,
};
use crate::grouping::{
    first_seen, grouping, lemma_first_seen_met, lemma_grouping_sound, lemma_paths_with_push,
    lemma_unmet_has_no_paths, paths_with, report_of, HashedFile,
};
use vstd::prelude::*;
use vstd::seq_lib::{to_multiset_build, to_multiset_len};

verus! {

/// In the grouping of a scan, the files under a digest are the files of the
/// scan with that digest, in the order of the scan.
pub proof fn lemma_files_of_grouping(log: Seq<HashedFile>, digest: Seq<char>)
    ensures
        files_of(grouping(log), digest) == paths_with(log, digest),
{
    let groups = grouping(log);
    lemma_first_seen_met(log, digest);
    if has_group(groups, digest) {
        let at = choose|i: int| 0 <= i < groups.len() && (#[trigger] groups[i]).hash == digest;
        assert(first_seen(log)[at] == digest);
    } else {
        if first_seen(log).contains(digest) {
            let i = choose|i: int| 0 <= i < first_seen(log).len() && first_seen(log)[i] == digest;
            assert(groups[i].hash == digest);
        }
        lemma_unmet_has_no_paths(log, digest);
    }
}

/// Dropping groups leaves the digests of the others distinct.
pub proof fn lemma_duplicates_distinct(groups: Seq<GroupModel>)
    requires
        distinct_hashes(groups),
    ensures
        distinct_hashes(duplicates(groups)),
    decreases groups.len(),
{
    if groups.len() == 0 {
        reveal(Seq::filter);
    } else {
        let earlier = groups.drop_last();
        let last = groups.last();
        assert(earlier.push(last) =~= groups);
        assert(distinct_hashes(earlier)) by {
            assert forall|i: int, j: int|
                0 <= i < earlier.len() && 0 <= j < earlier.len() && i != j implies (
            #[trigger] earlier[i]).hash != (#[trigger] earlier[j]).hash by {
                assert(earlier[i] == groups[i] && earlier[j] == groups[j]);
            }
        }
        lemma_duplicates_distinct(earlier);
        earlier.lemma_filter_push(last, |g: GroupModel| is_duplicate(g));
        if is_duplicate(last) {
            let kept = duplicates(earlier);
            assert forall|i: int| 0 <= i < kept.len() implies (#[trigger] kept[i]).hash
                != last.hash by {
                earlier.lemma_filter_contains_rev(|g: GroupModel| is_duplicate(g), kept[i]);
                let j = choose|j: int| 0 <= j < earlier.len() && earlier[j] == kept[i];
                assert(groups[j].hash != groups[groups.len() - 1].hash);
            }
        }
    }
}

/// Among groups with distinct digests, the report keeps under a digest all
/// its files when they are two or more, and none otherwise.
pub proof fn lemma_files_of_duplicates(groups: Seq<GroupModel>, digest: Seq<char>)
    requires
        distinct_hashes(groups),
    ensures
        has_group(duplicates(groups), digest) == (files_of(groups, digest).len() >= 2),
        files_of(duplicates(groups), digest) == if files_of(groups, digest).len() >= 2 {
            files_of(groups, digest)
        } else {
            Seq::empty()
        },
{
    let kept = duplicates(groups);
    let keep = |g: GroupModel| is_duplicate(g);
    if has_group(kept, digest) {
        let i = choose|i: int| 0 <= i < kept.len() && (#[trigger] kept[i]).hash == digest;
        groups.lemma_filter_contains_rev(keep, kept[i]);
        let j = choose|j: int| 0 <= j < groups.len() && groups[j] == kept[i];
        assert(groups[j].hash == digest);
        let at = choose|k: int| 0 <= k < groups.len() && (#[trigger] groups[k]).hash == digest;
        assert(at == j);
    } else if has_group(groups, digest) {
        let at = choose|k: int| 0 <= k < groups.len() && (#[trigger] groups[k]).hash == digest;
        if is_duplicate(groups[at]) {
            groups.lemma_filter_contains(keep, at);
            let i = choose|i: int| 0 <= i < kept.len() && kept[i] == groups[at];
            assert(kept[i].hash == digest);
        }
    }
}

/// A path stands under a digest as often as the scan met that path with that
/// digest.
pub proof fn lemma_paths_with_counts(log: Seq<HashedFile>, digest: Seq<char>, path: Seq<char>)
    ensures
        paths_with(log, digest).to_multiset().count(path) == log.to_multiset().count(
            HashedFile { path, digest },
        ),
    decreases log.len(),
{
    broadcast use vstd::multiset::group_multiset_axioms;

    if log.len() == 0 {
        lemma_unmet_has_no_paths(log, digest);
        to_multiset_len(log);
        to_multiset_len(paths_with(log, digest));
    } else {
        let earlier = log.drop_last();
        let last = log.last();
        assert(earlier.push(last) =~= log);
        lemma_paths_with_counts(earlier, digest, path);
        lemma_paths_with_push(earlier, last, digest);
        to_multiset_build(earlier, last);
        if last.digest == digest {
            to_multiset_build(paths_with(earlier, digest), last.path);
        }
    }
}

/// The scan's order does not matter to what stands under a digest: two scans
/// of the same files, in whatever order, find under each digest the same
/// paths, each as often.
pub proof fn lemma_paths_with_reordered(a: Seq<HashedFile>, b: Seq<HashedFile>, digest: Seq<char>)
    requires
        a.to_multiset() == b.to_multiset(),
    ensures
        paths_with(a, digest).to_multiset() == paths_with(b, digest).to_multiset(),
        paths_with(a, digest).len() == paths_with(b, digest).len(),
{
    assert forall|p: Seq<char>|
        paths_with(a, digest).to_multiset().count(p) == paths_with(b, digest).to_multiset().count(
            p,
        ) by {
        lemma_paths_with_counts(a, digest, p);
        lemma_paths_with_counts(b, digest, p);
    }
    assert(paths_with(a, digest).to_multiset() =~= paths_with(b, digest).to_multiset());
    to_multiset_len(paths_with(a, digest));
    to_multiset_len(paths_with(b, digest));
}

/// What stands under a digest in the report of a scan: the scan's files with
/// that digest when they are two or more, and nothing otherwise.
pub proof fn lemma_files_of_report(log: Seq<HashedFile>, digest: Seq<char>)
    ensures
        has_group(report_of(log), digest) == (paths_with(log, digest).len() >= 2),
        files_of(report_of(log), digest) == if paths_with(log, digest).len() >= 2 {
            paths_with(log, digest)
        } else {
            Seq::empty()
        },
{
    lemma_grouping_sound(log);
    lemma_files_of_grouping(log, digest);
    lemma_files_of_duplicates(grouping(log), digest);
}

/// Lists of groups with distinct digests, for the same digests, have as many
/// groups.
pub proof fn lemma_same_digests_same_count(a: Seq<GroupModel>, b: Seq<GroupModel>)
    requires
        distinct_hashes(a),
        distinct_hashes(b),
        forall|d: Seq<char>| #[trigger] has_group(a, d) == has_group(b, d),
    ensures
        a.len() == b.len(),
{
    assert(hashes(a).no_duplicates());
    assert(hashes(b).no_duplicates());
    assert forall|d: Seq<char>| hashes(a).to_set().contains(d) == hashes(b).to_set().contains(
        d,
    ) by {
        lemma_hashes_contain(a, d);
        lemma_hashes_contain(b, d);
        assert(has_group(a, d) == has_group(b, d));
    }
    assert(hashes(a).to_set() =~= hashes(b).to_set());
    hashes(a).unique_seq_to_set();
    hashes(b).unique_seq_to_set();
}

/// A digest is among the digests of a list of groups exactly if one of the
/// groups stands for it.
pub proof fn lemma_hashes_contain(groups: Seq<GroupModel>, digest: Seq<char>)
    ensures
        hashes(groups).to_set().contains(digest) == has_group(groups, digest),
{
    if hashes(groups).contains(digest) {
        let i = choose|i: int| 0 <= i < hashes(groups).len() && hashes(groups)[i] == digest;
        assert(groups[i].hash == digest);
    }
    if has_group(groups, digest) {
        let i = choose|i: int| 0 <= i < groups.len() && (#[trigger] groups[i]).hash == digest;
        assert(hashes(groups)[i] == digest);
    }
}

/// Scanning an unchanged tree again gives the same report, but for the order
/// of the groups and of the files in a group: two scans that hashed the same
/// files, in whatever order the walk came upon them, report as many groups,
/// for the same digests, with the same files under each.
pub proof fn lemma_rescan_reports_the_same(a: Seq<HashedFile>, b: Seq<HashedFile>)
    requires
        a.to_multiset() == b.to_multiset(),
    ensures
        same_up_to_order(report_of(a), report_of(b)),
        distinct_hashes(report_of(a)),
        distinct_hashes(report_of(b)),
{
    lemma_grouping_sound(a);
    lemma_grouping_sound(b);
    lemma_duplicates_distinct(grouping(a));
    lemma_duplicates_distinct(grouping(b));
    assert forall|d: Seq<char>| #[trigger]
        has_group(report_of(a), d) == has_group(report_of(b), d) by {
        lemma_files_of_report(a, d);
        lemma_files_of_report(b, d);
        lemma_paths_with_reordered(a, b, d);
    }
    assert forall|d: Seq<char>| #[trigger]
        files_of(report_of(a), d).to_multiset() == files_of(report_of(b), d).to_multiset() by {
        lemma_files_of_report(a, d);
        lemma_files_of_report(b, d);
        lemma_paths_with_reordered(a, b, d);
    }
    lemma_same_digests_same_count(report_of(a), report_of(b));
}

/// A file that cannot be hashed changes nothing of the report: wherever in
/// the scan the failure falls, the files that were hashed are those of the
/// scan without it.
pub proof fn lemma_failure_leaves_report(
    outcomes: Seq<OutcomeModel>,
    at: int,
    path: Seq<char>,
    failure: FailureModel,
)
    requires
        0 <= at <= outcomes.len(),
    ensures
        hashed_files(outcomes.insert(at, OutcomeModel::Failed { path, failure })) == hashed_files(
            outcomes,
        ),
        report_of(hashed_files(outcomes.insert(at, OutcomeModel::Failed { path, failure })))
            == report_of(hashed_files(outcomes)),
{
    let failed = OutcomeModel::Failed { path, failure };
    let head = outcomes.subrange(0, at);
    let tail = outcomes.subrange(at, outcomes.len() as int);
    let keep = |o: OutcomeModel| o is Hashed;
    assert(head + tail =~= outcomes);
    Seq::filter_distributes_over_add(head, tail, keep);
    Seq::filter_distributes_over_add(head.push(failed), tail, keep);
    head.lemma_filter_push(failed, keep);
    assert(outcomes.insert(at, failed).filter(keep) =~= outcomes.filter(keep));
}

} // verus!
