//! The checkpoint record: which stages of the pipeline have completed, and when.

use vstd::prelude::*;
use crate::clock::Timestamp;
use crate::clock::now;

verus! {

/// The stages of the pipeline, in the order in which they run.
#[derive(Clone, Copy, Debug, PartialEq, Eq, Structural)]
pub enum Stage {
    FetchRepos,
    CloneRepos,
    FindCrates,
    CountCode,
    ClearCfg,
    ExpandMacros,
    CountExpanded,
    Analyze,
}

/// What the engine does with a stage on this run.
#[derive(Clone, Copy, Debug, PartialEq, Eq, Structural)]
pub enum StageDecision {
    /// The stage completed at the given time on an earlier run; its body must not run.
    Skip(Timestamp),
    /// The stage has never completed; its body runs once.
    Run,
}

/// The checkpoint record. A timestamp is present exactly for the stages that ran to completion.
#[derive(Clone, Copy, Debug, PartialEq, Eq, Structural)]
pub struct ScraperState {
    pub fetched_repos_at: Option<Timestamp>,
    pub cloned_repos_at: Option<Timestamp>,
    pub found_crates_at: Option<Timestamp>,
    pub counted_code_at: Option<Timestamp>,
    pub cleared_cfg_at: Option<Timestamp>,
    pub expanded_macros_at: Option<Timestamp>,
    pub counted_expanded_at: Option<Timestamp>,
    pub analyzed_at: Option<Timestamp>,
}

impl Stage {
    /// The position of the stage in the pipeline, counted from zero.
    pub open spec fn position(self) -> nat {
        match self {
            Stage::FetchRepos => 0,
            Stage::CloneRepos => 1,
            Stage::FindCrates => 2,
            Stage::CountCode => 3,
            Stage::ClearCfg => 4,
            Stage::ExpandMacros => 5,
            Stage::CountExpanded => 6,
            Stage::Analyze => 7,
        }
    }

    /// The stage that runs after this one, if any.
    pub open spec fn spec_next(self) -> Option<Stage> {
        match self {
            Stage::FetchRepos => Some(Stage::CloneRepos),
            Stage::CloneRepos => Some(Stage::FindCrates),
            Stage::FindCrates => Some(Stage::CountCode),
            Stage::CountCode => Some(Stage::ClearCfg),
            Stage::ClearCfg => Some(Stage::ExpandMacros),
            Stage::ExpandMacros => Some(Stage::CountExpanded),
            Stage::CountExpanded => Some(Stage::Analyze),
            Stage::Analyze => None,
        }
    }

    /// The first stage of the pipeline.
    pub fn first() -> (stage: Stage)
        ensures
            stage == Stage::FetchRepos,
            stage.position() == 0,
    {
        Stage::FetchRepos
    }

    /// The stage that runs after this one; `None` after the last.
    pub fn next(self) -> (following: Option<Stage>)
        ensures
            following == self.spec_next(),
            following matches Some(s) ==> s.position() == self.position() + 1,
            following is None <==> self == Stage::Analyze,
    {
        match self {
            Stage::FetchRepos => Some(Stage::CloneRepos),
            Stage::CloneRepos => Some(Stage::FindCrates),
            Stage::FindCrates => Some(Stage::CountCode),
            Stage::CountCode => Some(Stage::ClearCfg),
            Stage::ClearCfg => Some(Stage::ExpandMacros),
            Stage::ExpandMacros => Some(Stage::CountExpanded),
            Stage::CountExpanded => Some(Stage::Analyze),
            Stage::Analyze => None,
        }
    }
}

impl Default for ScraperState {
    fn default() -> (state: ScraperState)
        ensures
            state == ScraperState::spec_empty(),
    {
        ScraperState::new()
    }
}

impl ScraperState {
    /// The record of a pipeline that has never run: no stage has a timestamp.
    pub open spec fn spec_empty() -> ScraperState {
        ScraperState {
            fetched_repos_at: None,
            cloned_repos_at: None,
            found_crates_at: None,
            counted_code_at: None,
            cleared_cfg_at: None,
            expanded_macros_at: None,
            counted_expanded_at: None,
            analyzed_at: None,
        }
    }

    /// The timestamp stored for `stage`.
    pub open spec fn spec_checkpoint(self, stage: Stage) -> Option<Timestamp> {
        match stage {
            Stage::FetchRepos => self.fetched_repos_at,
            Stage::CloneRepos => self.cloned_repos_at,
            Stage::FindCrates => self.found_crates_at,
            Stage::CountCode => self.counted_code_at,
            Stage::ClearCfg => self.cleared_cfg_at,
            Stage::ExpandMacros => self.expanded_macros_at,
            Stage::CountExpanded => self.counted_expanded_at,
            Stage::Analyze => self.analyzed_at,
        }
    }

    /// The record with the timestamp of `stage` set to `at`, every other stage as it was.
    pub open spec fn with_checkpoint(self, stage: Stage, at: Timestamp) -> ScraperState {
        match stage {
            Stage::FetchRepos => ScraperState { fetched_repos_at: Some(at), ..self },
            Stage::CloneRepos => ScraperState { cloned_repos_at: Some(at), ..self },
            Stage::FindCrates => ScraperState { found_crates_at: Some(at), ..self },
            Stage::CountCode => ScraperState { counted_code_at: Some(at), ..self },
            Stage::ClearCfg => ScraperState { cleared_cfg_at: Some(at), ..self },
            Stage::ExpandMacros => ScraperState { expanded_macros_at: Some(at), ..self },
            Stage::CountExpanded => ScraperState { counted_expanded_at: Some(at), ..self },
            Stage::Analyze => ScraperState { analyzed_at: Some(at), ..self },
        }
    }

    /// What the engine decides for `stage` on this record.
    pub open spec fn spec_decide(self, stage: Stage) -> StageDecision {
        match self.spec_checkpoint(stage) {
            Some(at) => StageDecision::Skip(at),
            None => StageDecision::Run,
        }
    }

    /// A record with every timestamp absent.
    pub fn new() -> (state: ScraperState)
        ensures
            state == ScraperState::spec_empty(),
            forall|stage: Stage| state.spec_checkpoint(stage) is None,
    {
        ScraperState {
            fetched_repos_at: None,
            cloned_repos_at: None,
            found_crates_at: None,
            counted_code_at: None,
            cleared_cfg_at: None,
            expanded_macros_at: None,
            counted_expanded_at: None,
            analyzed_at: None,
        }
    }

    /// The timestamp stored for `stage`, if the stage has completed.
    pub fn checkpoint(&self, stage: Stage) -> (at: Option<Timestamp>)
        ensures
            at == self.spec_checkpoint(stage),
    {
        match stage {
            Stage::FetchRepos => self.fetched_repos_at,
            Stage::CloneRepos => self.cloned_repos_at,
            Stage::FindCrates => self.found_crates_at,
            Stage::CountCode => self.counted_code_at,
            Stage::ClearCfg => self.cleared_cfg_at,
            Stage::ExpandMacros => self.expanded_macros_at,
            Stage::CountExpanded => self.counted_expanded_at,
            Stage::Analyze => self.analyzed_at,
        }
    }

    /// Whether `stage` has run to completion.
    pub fn is_completed(&self, stage: Stage) -> (done: bool)
        ensures
            done <==> self.spec_checkpoint(stage) is Some,
    {
        self.checkpoint(stage).is_some()
    }

    /// Decides whether `stage` runs: it is skipped exactly when its timestamp is present.
    pub fn decide(&self, stage: Stage) -> (decision: StageDecision)
        ensures
            decision == self.spec_decide(stage),
            decision == StageDecision::Run <==> self.spec_checkpoint(stage) is None,
            decision matches StageDecision::Skip(at) ==> self.spec_checkpoint(stage) == Some(at),
    {
        match self.checkpoint(stage) {
            Some(at) => StageDecision::Skip(at),
            None => StageDecision::Run,
        }
    }

    /// Stores `at` as the completion time of `stage`, and touches no other stage.
    pub fn mark_completed(&mut self, stage: Stage, at: Timestamp)
        ensures
            *final(self) == old(self).with_checkpoint(stage, at),
            final(self).spec_checkpoint(stage) == Some(at),
            forall|other: Stage|
                other != stage ==> final(self).spec_checkpoint(other) == old(self).spec_checkpoint(
                    other,
                ),
    {
        match stage {
            Stage::FetchRepos => { self.fetched_repos_at = Some(at); },
            Stage::CloneRepos => { self.cloned_repos_at = Some(at); },
            Stage::FindCrates => { self.found_crates_at = Some(at); },
            Stage::CountCode => { self.counted_code_at = Some(at); },
            Stage::ClearCfg => { self.cleared_cfg_at = Some(at); },
            Stage::ExpandMacros => { self.expanded_macros_at = Some(at); },
            Stage::CountExpanded => { self.counted_expanded_at = Some(at); },
            Stage::Analyze => { self.analyzed_at = Some(at); },
        }
    }

    /// Stamps `stage` with the current time of the system clock and returns
    /// that time. Every other stage keeps its timestamp.
    pub fn complete_stage(&mut self, stage: Stage) -> (at: Timestamp)
        ensures
            *final(self) == old(self).with_checkpoint(stage, at),
    {
        let at = now();
        self.mark_completed(stage, at);
        at
    }

    /// The first stage, in pipeline order, that has not completed; `None`
    /// when the whole pipeline has.
    pub fn next_pending(&self) -> (pending: Option<Stage>)
        ensures
            match pending {
                Some(stage) => {
                    &&& self.spec_checkpoint(stage) is None
                    &&& forall|earlier: Stage|
                        earlier.position() < stage.position() ==> self.spec_checkpoint(
                            earlier,
                        ) is Some
                },
                None => forall|stage: Stage| self.spec_checkpoint(stage) is Some,
            },
    {
        if self.fetched_repos_at.is_none() {
            Some(Stage::FetchRepos)
        } else if self.cloned_repos_at.is_none() {
            Some(Stage::CloneRepos)
        } else if self.found_crates_at.is_none() {
            Some(Stage::FindCrates)
        } else if self.counted_code_at.is_none() {
            Some(Stage::CountCode)
        } else if self.cleared_cfg_at.is_none() {
            Some(Stage::ClearCfg)
        } else if self.expanded_macros_at.is_none() {
            Some(Stage::ExpandMacros)
        } else if self.counted_expanded_at.is_none() {
            Some(Stage::CountExpanded)
        } else if self.analyzed_at.is_none() {
            Some(Stage::Analyze)
        } else {
            None
        }
    }
}

} // verus!
