use crate::coverage::lemma_no_singleton_groups;
use crate::group::{duplicates, group_models, is_duplicate, DuplicateGroup, GroupModel};
use crate::index::GroupIndex;
use vstd::prelude::*;

verus! {

/// The outcome of a scan: the groups of files that share their content.
#[derive(Debug)]
pub struct Report {
    groups: Vec<DuplicateGroup>,
}

impl View for Report {
    type V = Seq<GroupModel>;

    closed spec fn view(&self) -> Seq<GroupModel> {
        group_models(self.groups@)
    }
}

impl Report {
    /// No group of a report is a singleton.
    #[verifier::type_invariant]
    spec fn no_singleton(&self) -> bool {
        forall|i: int| 0 <= i < self.groups@.len() ==> (#[trigger] self.groups@[i]).files@.len() >= 2
    }

    /// Keeps the entries of the index that hold two paths or more, in their
    /// order, and drops the others.
    pub fn build(index: GroupIndex) -> (report: Self)
        ensures
            report@ == duplicates(index@),
            forall|i: int| 0 <= i < report@.len() ==> (#[trigger] report@[i]).files.len() >= 2,
    {
        let entries: Vec<DuplicateGroup> = index.into_entries();
        let ghost all: Seq<GroupModel> = group_models(entries@);
        let mut kept: Vec<DuplicateGroup> = Vec::new();
        assert(all.take(0) =~= Seq::<GroupModel>::empty());
        assert(group_models(kept@) =~= Seq::<GroupModel>::empty());
        for group in it: entries
            invariant
                all == group_models(it.seq()),
                group_models(kept@) == duplicates(all.take(it.index() as int)),
        {
            proof {
                let done: int = it.index() as int;
                assert(all.take(done + 1) =~= all.take(done).push(all[done]));
                all.take(done).lemma_filter_push(all[done], |g: GroupModel| is_duplicate(g));
                assert(all[done] == group@);
            }
            let ghost before = kept@;
            if group.files.len() >= 2 {
                kept.push(group);
                assert(group_models(kept@) =~= group_models(before).push(group@));
            }
        }
        proof {
            assert(all.take(all.len() as int) =~= all);
            lemma_no_singleton_groups(all);
            assert forall|i: int| 0 <= i < kept@.len() implies (#[trigger] kept@[i]).files@.len()
                >= 2 by {
                assert(group_models(kept@)[i].files.len() == kept@[i].files@.len());
            }
        }
        Report { groups: kept }
    }

    /// The groups of the report, each of two files or more.
    pub fn groups(&self) -> (groups: &Vec<DuplicateGroup>)
        ensures
            group_models(groups@) == self@,
            forall|i: int| 0 <= i < groups@.len() ==> (#[trigger] groups@[i]).files@.len() >= 2,
    {
        proof {
            use_type_invariant(self);
        }
        &self.groups
    }

    /// Gives up the report for its groups, each of two files or more.
    pub fn into_groups(self) -> (groups: Vec<DuplicateGroup>)
        ensures
            group_models(groups@) == self@,
            forall|i: int| 0 <= i < groups@.len() ==> (#[trigger] groups@[i]).files@.len() >= 2,
    {
        proof {
            use_type_invariant(&self);
        }
        self.groups
    }

    /// The number of groups of duplicates that were found.
    pub fn count(&self) -> (count: usize)
        ensures
            count == self@.len(),
    {
        self.groups.len()
    }

    /// Whether no duplicates were found.
    pub fn is_empty(&self) -> (empty: bool)
        ensures
            empty == (self@.len() == 0),
    {
        self.groups.len() == 0
    }
}

} // verus!
