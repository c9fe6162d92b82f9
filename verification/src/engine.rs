use crate::digest::ContentDigest;
use crate::failure::{FailureModel, HashError};
use crate::group::{distinct_hashes, GroupModel};
use crate::grouping::{
    grouping, lemma_grouping_sound, lemma_grouping_step, report_of, HashedFile,
};
use crate::index::GroupIndex;
use crate::report::Report;
use crate::stability::lemma_duplicates_distinct;
use vstd::prelude::*;

verus! {

/// What became of one file of the scan, mathematically: it was hashed, or it
/// could not be.
pub enum OutcomeModel {
    Hashed(HashedFile),
    Failed { path: Seq<char>, failure: FailureModel },
}

/// The outcome of hashing the file at `path`.
pub open spec fn outcome_model(
    path: Seq<char>,
    outcome: Result<ContentDigest, HashError>,
) -> OutcomeModel {
    match outcome {
        Ok(digest) => OutcomeModel::Hashed(HashedFile { path, digest: digest@ }),
        Err(error) => OutcomeModel::Failed { path, failure: error@ },
    }
}

/// The files among the outcomes that were hashed, in their order.
pub open spec fn hashed_files(outcomes: Seq<OutcomeModel>) -> Seq<HashedFile> {
    outcomes.filter(|o: OutcomeModel| o is Hashed).map_values(|o: OutcomeModel| o->Hashed_0)
}

/// A file that could not be hashed, for the diagnostic stream: where it lies
/// and what went wrong.
#[derive(Debug)]
pub struct ScanFailure {
    pub path: String,
    pub error: HashError,
}

/// The duplicate detection engine in the middle of a scan. It owns the group
/// index of the run; nothing of it outlives the run.
pub struct Engine {
    index: GroupIndex,
    seen: Ghost<Seq<OutcomeModel>>,
}

impl Engine {
    /// The index holds the grouping of the files hashed so far.
    pub closed spec fn wf(&self) -> bool {
        &&& self.index.wf()
        &&& self.index@ == grouping(hashed_files(self.seen@))
    }

    /// What became of each file that the engine was told of, in order.
    pub closed spec fn history(&self) -> Seq<OutcomeModel> {
        self.seen@
    }

    /// An engine at the start of a run.
    pub fn new() -> (engine: Self)
        ensures
            engine.wf(),
            engine.history() == Seq::<OutcomeModel>::empty(),
    {
        let engine = Engine { index: GroupIndex::new(), seen: Ghost(Seq::empty()) };
        proof {
            lemma_hashed_files_empty();
            assert(grouping(Seq::<HashedFile>::empty()) =~= Seq::<GroupModel>::empty());
        }
        engine
    }

    /// Takes the outcome of hashing the file at `path`. A digest is recorded
    /// in the index. A failure leaves the index as it is and comes back as a
    /// value for the diagnostic stream: one file that cannot be read never
    /// stops the run.
    pub fn observe(&mut self, path: String, outcome: Result<ContentDigest, HashError>) -> (failure:
        Option<ScanFailure>)
        requires
            old(self).wf(),
        ensures
            final(self).wf(),
            final(self).history() == old(self).history().push(outcome_model(path@, outcome)),
            match outcome {
                Ok(_) => failure is None,
                Err(error) => failure matches Some(f) && f.path == path && f.error == error,
            },
    {
        proof {
            lemma_hashed_files_push(self.seen@, outcome_model(path@, outcome));
        }
        match outcome {
            Ok(digest) => {
                proof {
                    lemma_grouping_step(
                        hashed_files(self.seen@),
                        HashedFile { path: path@, digest: digest@ },
                    );
                    self.seen@ = self.seen@.push(outcome_model(path@, outcome));
                }
                self.index.record(&digest, path);
                None
            },
            Err(error) => {
                proof {
                    self.seen@ = self.seen@.push(outcome_model(path@, outcome));
                }
                Some(ScanFailure { path, error })
            },
        }
    }

    /// The index as it stands: the grouping of the files hashed so far.
    pub fn index(&self) -> (index: &GroupIndex)
        requires
            self.wf(),
        ensures
            index.wf(),
            index@ == grouping(hashed_files(self.history())),
    {
        &self.index
    }

    /// Ends the run in its report: the groups of two or more of the files
    /// that were hashed.
    pub fn finish(self) -> (report: Report)
        requires
            self.wf(),
        ensures
            report@ == report_of(hashed_files(self.history())),
            forall|i: int| 0 <= i < report@.len() ==> (#[trigger] report@[i]).files.len() >= 2,
            distinct_hashes(report@),
    {
        proof {
            lemma_grouping_sound(hashed_files(self.seen@));
            lemma_duplicates_distinct(self.index@);
        }
        Report::build(self.index)
    }
}

/// No outcomes, no hashed files.
pub proof fn lemma_hashed_files_empty()
    ensures
        hashed_files(Seq::<OutcomeModel>::empty()) == Seq::<HashedFile>::empty(),
{
    reveal(Seq::filter);
    assert(hashed_files(Seq::<OutcomeModel>::empty()) =~= Seq::<HashedFile>::empty());
}

/// One more outcome adds its file to the hashed files if the file was hashed,
/// and changes nothing if it was not.
pub proof fn lemma_hashed_files_push(outcomes: Seq<OutcomeModel>, next: OutcomeModel)
    ensures
        hashed_files(outcomes.push(next)) == match next {
            OutcomeModel::Hashed(file) => hashed_files(outcomes).push(file),
            OutcomeModel::Failed { .. } => hashed_files(outcomes),
        },
{
    outcomes.lemma_filter_push(next, |o: OutcomeModel| o is Hashed);
    match next {
        OutcomeModel::Hashed(file) => {
            let kept = outcomes.filter(|o: OutcomeModel| o is Hashed);
            assert(kept.push(next).map_values(|o: OutcomeModel| o->Hashed_0) =~= kept.map_values(
                |o: OutcomeModel| o->Hashed_0,
            ).push(file));
        },
        OutcomeModel::Failed { .. } => {},
    }
}

} // verus!
