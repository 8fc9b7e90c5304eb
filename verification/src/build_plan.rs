//! The multi-revision build pipeline as an explicit state machine: per
//! revision, checkout, external build, archive extraction, artifact
//! relocation and scratch cleanup, with the original workspace position
//! restored on every exit path, successful or not.

use vstd::prelude::*;
use crate::revision::is_canonical_id;
use crate::revision::archive_path;
use crate::revision::archive_path_spec;
use crate::revision::artifact_path;
use crate::revision::artifact_path_spec;
use crate::revision::extracted_binary;
use crate::revision::extracted_binary_spec;
use crate::revision::is_canonical;
use crate::revision::scratch_dir;
use crate::revision::scratch_dir_spec;
use crate::revision::RevisionResolutionError;

verus! {

/// Where the pipeline stands for the revision at hand.
#[derive(Debug, Clone, Copy, PartialEq, Eq, Structural)]
pub enum BuildStage {
    /// Switch the workspace to the revision.
    Checkout,
    /// Run the external build tool.
    Build,
    /// Extract the archive the build left.
    Extract,
    /// Copy the produced binary to the output directory.
    Relocate,
    /// Delete the extraction scratch directory.
    Cleanup,
    /// Check the workspace back out to the original position.
    Restore,
    /// Nothing remains to be done.
    Done,
}

/// Which stage of the pipeline failed.
#[derive(Debug, Clone, Copy, PartialEq, Eq, Structural)]
pub enum BuildFailure {
    CheckoutError,
    BuildError,
    ExtractionError,
    ArtifactCopyError,
    CleanupError,
    RestoreError,
}

/// What the driver of the pipeline must do next.
#[derive(Debug)]
pub enum BuildAction {
    /// Check the workspace out at the revision.
    RunCheckout { revision: String },
    /// Run the external build tool, pinned for reproducibility when asked.
    RunBuildTool { pinned: bool },
    /// Extract the archive at the path.
    ExtractArchive { archive: String },
    /// Copy the binary from the scratch path to the artifact path.
    CopyArtifact { from: String, to: String },
    /// Delete the scratch directory.
    RemoveScratch { dir: String },
    /// Check the workspace back out at the original position.
    RestoreCheckout { position: String },
}

/// One whole multi-revision build: the workspace, the output directory,
/// the canonical revisions in build order, and the position to restore.
#[derive(Debug)]
pub struct BuildPlan {
    /// The workspace the sources are checked out in.
    pub src_dir: String,
    /// Where finished artifacts are placed.
    pub out_dir: String,
    /// The canonical revision identifiers, in the caller's order.
    pub commits: Vec<String>,
    /// Whether build invocations are pinned for reproducibility.
    pub ci_mode: bool,
    /// The branch or commit the workspace stood at before the build.
    pub original_position: String,
}

/// The pipeline's position: which revision, which stage, and the first
/// failure met, if any.
#[derive(Debug)]
pub struct BuildState {
    /// The index of the revision being built.
    pub idx: usize,
    /// The stage at hand.
    pub stage: BuildStage,
    /// The first failure met, kept through restoration.
    pub failure: Option<BuildFailure>,
}

impl BuildPlan {
    /// Every revision is canonical.
    pub open spec fn wf(&self) -> bool {
        forall|i: int|
            0 <= i < self.commits@.len() ==> is_canonical_id((#[trigger] self.commits@[i])@)
    }

    /// A plan over the given revisions; refused unless every revision is
    /// already canonical.
    pub fn new(
        src_dir: String,
        out_dir: String,
        commits: Vec<String>,
        ci_mode: bool,
        original_position: String,
    ) -> (r: Result<BuildPlan, RevisionResolutionError>)
        ensures
            (forall|i: int|
                0 <= i < commits@.len() ==> is_canonical_id((#[trigger] commits@[i])@)) <==> (
            r is Ok),
            r matches Ok(p) ==> p.wf() && p.src_dir@ == src_dir@ && p.out_dir@ == out_dir@
                && p.commits@ == commits@ && p.ci_mode == ci_mode && p.original_position@
                == original_position@,
    {
        let n = commits.len();
        let mut i: usize = 0;
        while i < n
            invariant
                n == commits@.len(),
                i <= n,
                forall|j: int| 0 <= j < i ==> is_canonical_id((#[trigger] commits@[j])@),
            decreases n - i,
        {
            if !is_canonical(commits[i].as_str()) {
                return Err(RevisionResolutionError);
            }
            i = i + 1;
        }
        Ok(BuildPlan { src_dir, out_dir, commits, ci_mode, original_position })
    }

    /// Where the pipeline starts: at the first revision's checkout, or at
    /// restoration when there is nothing to build.
    pub fn initial_state(&self) -> (r: BuildState)
        ensures
            r.idx == 0,
            self.commits@.len() == 0 ==> r.stage == BuildStage::Restore,
            self.commits@.len() > 0 ==> r.stage == BuildStage::Checkout,
            r.failure is None,
            state_wf(self, &r),
    {
        let stage = if self.commits.len() == 0 {
            BuildStage::Restore
        } else {
            BuildStage::Checkout
        };
        BuildState { idx: 0, stage, failure: None }
    }
}

/// The state points at a real revision whenever a per-revision stage is at
/// hand.
pub open spec fn state_wf(plan: &BuildPlan, state: &BuildState) -> bool {
    match state.stage {
        BuildStage::Restore => true,
        BuildStage::Done => true,
        _ => state.idx < plan.commits@.len(),
    }
}

/// The failure a stage reports when its action does not succeed.
pub open spec fn failure_of_stage(stage: BuildStage) -> BuildFailure {
    match stage {
        BuildStage::Checkout => BuildFailure::CheckoutError,
        BuildStage::Build => BuildFailure::BuildError,
        BuildStage::Extract => BuildFailure::ExtractionError,
        BuildStage::Relocate => BuildFailure::ArtifactCopyError,
        BuildStage::Cleanup => BuildFailure::CleanupError,
        _ => BuildFailure::RestoreError,
    }
}

/// How many steps the pipeline can still take: each unfinished revision
/// counts its remaining stages, and restoration counts one.
pub open spec fn steps_left(plan: &BuildPlan, state: &BuildState) -> int {
    let total = plan.commits@.len() as int;
    match state.stage {
        BuildStage::Checkout => 1 + (total - state.idx) * 5,
        BuildStage::Build => (total - state.idx) * 5,
        BuildStage::Extract => (total - state.idx) * 5 - 1,
        BuildStage::Relocate => (total - state.idx) * 5 - 2,
        BuildStage::Cleanup => (total - state.idx) * 5 - 3,
        BuildStage::Restore => 1,
        BuildStage::Done => 0,
    }
}

/// The action the driver must perform in the given state.
pub fn next_action(plan: &BuildPlan, state: &BuildState) -> (r: BuildAction)
    requires
        plan.wf(),
        state_wf(plan, state),
        state.stage != BuildStage::Done,
    ensures
        state.stage == BuildStage::Checkout ==> (r matches BuildAction::RunCheckout {
            revision,
        } && revision@ == plan.commits@[state.idx as int]@),
        state.stage == BuildStage::Build ==> (r matches BuildAction::RunBuildTool { pinned }
            && pinned == plan.ci_mode),
        state.stage == BuildStage::Extract ==> (r matches BuildAction::ExtractArchive {
            archive,
        } && archive@ == archive_path_spec(plan.src_dir@, plan.commits@[state.idx as int]@)),
        state.stage == BuildStage::Relocate ==> (r matches BuildAction::CopyArtifact {
            from,
            to,
        } && from@ == extracted_binary_spec(plan.src_dir@, plan.commits@[state.idx as int]@)
            && to@ == artifact_path_spec(plan.out_dir@, plan.commits@[state.idx as int]@)),
        state.stage == BuildStage::Cleanup ==> (r matches BuildAction::RemoveScratch { dir }
            && dir@ == scratch_dir_spec(plan.src_dir@, plan.commits@[state.idx as int]@)),
        state.stage == BuildStage::Restore ==> (r matches BuildAction::RestoreCheckout {
            position,
        } && position@ == plan.original_position@),
{
    match state.stage {
        BuildStage::Checkout => BuildAction::RunCheckout {
            revision: plan.commits[state.idx].clone(),
        },
        BuildStage::Build => BuildAction::RunBuildTool { pinned: plan.ci_mode },
        BuildStage::Extract => BuildAction::ExtractArchive {
            archive: archive_path(plan.src_dir.as_str(), plan.commits[state.idx].as_str()),
        },
        BuildStage::Relocate => BuildAction::CopyArtifact {
            from: extracted_binary(plan.src_dir.as_str(), plan.commits[state.idx].as_str()),
            to: artifact_path(plan.out_dir.as_str(), plan.commits[state.idx].as_str()),
        },
        BuildStage::Cleanup => BuildAction::RemoveScratch {
            dir: scratch_dir(plan.src_dir.as_str(), plan.commits[state.idx].as_str()),
        },
        _ => BuildAction::RestoreCheckout { position: plan.original_position.clone() },
    }
}

/// The state after the current action finished: on success the next stage,
/// the next revision, or restoration after the last one; on failure, a
/// jump to restoration carrying the stage's failure — restoration runs on
/// every exit path. A failing restoration itself ends the pipeline,
/// keeping the first failure.
pub fn advance(plan: &BuildPlan, state: &BuildState, succeeded: bool) -> (r: BuildState)
    requires
        plan.wf(),
        state_wf(plan, state),
        state.stage != BuildStage::Done,
    ensures
        state_wf(plan, &r),
        steps_left(plan, &r) < steps_left(plan, state),
        state.stage == BuildStage::Restore ==> r.stage == BuildStage::Done && r.idx == state.idx
            && r.failure == (if succeeded {
            state.failure
        } else {
            match state.failure {
                Some(f) => Some(f),
                None => Some(BuildFailure::RestoreError),
            }
        }),
        state.stage != BuildStage::Restore && !succeeded ==> r.stage == BuildStage::Restore
            && r.idx == state.idx && r.failure == Some(failure_of_stage(state.stage)),
        state.stage == BuildStage::Checkout && succeeded ==> r.stage == BuildStage::Build
            && r.idx == state.idx && r.failure == state.failure,
        state.stage == BuildStage::Build && succeeded ==> r.stage == BuildStage::Extract
            && r.idx == state.idx && r.failure == state.failure,
        state.stage == BuildStage::Extract && succeeded ==> r.stage == BuildStage::Relocate
            && r.idx == state.idx && r.failure == state.failure,
        state.stage == BuildStage::Relocate && succeeded ==> r.stage == BuildStage::Cleanup
            && r.idx == state.idx && r.failure == state.failure,
        state.stage == BuildStage::Cleanup && succeeded && state.idx + 1 < plan.commits@.len()
            ==> r.stage == BuildStage::Checkout && r.idx == state.idx + 1 && r.failure
            == state.failure,
        state.stage == BuildStage::Cleanup && succeeded && state.idx + 1 >= plan.commits@.len()
            ==> r.stage == BuildStage::Restore && r.idx == state.idx && r.failure
            == state.failure,
{
    if !succeeded {
        match state.stage {
            BuildStage::Restore => {
                let failure = match state.failure {
                    Some(f) => Some(f),
                    None => Some(BuildFailure::RestoreError),
                };
                BuildState { idx: state.idx, stage: BuildStage::Done, failure }
            },
            _ => BuildState {
                idx: state.idx,
                stage: BuildStage::Restore,
                failure: Some(match state.stage {
                    BuildStage::Checkout => BuildFailure::CheckoutError,
                    BuildStage::Build => BuildFailure::BuildError,
                    BuildStage::Extract => BuildFailure::ExtractionError,
                    BuildStage::Relocate => BuildFailure::ArtifactCopyError,
                    _ => BuildFailure::CleanupError,
                }),
            },
        }
    } else {
        match state.stage {
            BuildStage::Checkout => BuildState {
                idx: state.idx,
                stage: BuildStage::Build,
                failure: state.failure,
            },
            BuildStage::Build => BuildState {
                idx: state.idx,
                stage: BuildStage::Extract,
                failure: state.failure,
            },
            BuildStage::Extract => BuildState {
                idx: state.idx,
                stage: BuildStage::Relocate,
                failure: state.failure,
            },
            BuildStage::Relocate => BuildState {
                idx: state.idx,
                stage: BuildStage::Cleanup,
                failure: state.failure,
            },
            BuildStage::Cleanup => {
                if state.idx < plan.commits.len() - 1 {
                    BuildState {
                        idx: state.idx + 1,
                        stage: BuildStage::Checkout,
                        failure: state.failure,
                    }
                } else {
                    BuildState {
                        idx: state.idx,
                        stage: BuildStage::Restore,
                        failure: state.failure,
                    }
                }
            },
            _ => BuildState { idx: state.idx, stage: BuildStage::Done, failure: state.failure },
        }
    }
}

} // verus!
