//! The composition planner: validates a timeline, picks its strategy and
//! writes the render down as a plan of steps (progress checkpoints, files to
//! write, transcoder runs), together with everything to remove afterwards.
//! Running the plan is left to the caller, who stops at the first failing
//! step and then removes the cleanup files and the work directory.

use vstd::prelude::*;

use crate::encoder::ExportSettings;
use crate::error::ExportError;
use crate::filters::{
    base_transition_graph, build_overlay_and_audio_filter, build_xfade_and_audio_filter,
    build_xfade_and_audio_filter_offset, concat_list, concat_list_spec, overlay_audio_spec, overlay_video_spec, post_filters,
    post_filters_spec, transition_graphs,
};
use crate::text::{join, join_strings, nat_digits, push_nat, views};
use crate::timeline::{
    classify, classify_spec, copy_clip, lemma_find_transition_in_range, sort_by_start, stable_sorted,
    steps_match, transition_ok, validate_timeline, validation_error, validation_ok, xfade_name, xfade_step,
    ClipData, Strategy, TextOverlayData, TransitionData, XfadeStep,
};
use crate::toolchain::{
    concat_copy, concat_copy_args, encode_suffix, push_encode_suffix, trim_args, trim_args_spec,
};

verus! {

/// One step of a render plan.
#[derive(Debug, Clone)]
pub enum PlanStep {
    /// Report progress, in hundredths of a percent, with a stage label.
    Progress { percentage: u32, stage: String },
    /// Create a directory, with its parents.
    CreateDir { path: String },
    /// Write a text file.
    WriteFile { path: String, contents: String },
    /// Run the transcoder; a failure ends the render with a toolchain
    /// failure of `stage`. The run creates `output`.
    Run { stage: String, args: Vec<String>, output: String },
    /// Remove a file that is no longer needed, ignoring failure.
    RemoveFile { path: String },
}

/// A render written down as steps.
#[derive(Debug, Clone)]
pub struct ExportPlan {
    pub strategy: Strategy,
    pub steps: Vec<PlanStep>,
    /// Files to remove once the render has stopped, whatever its outcome.
    pub cleanup: Vec<String>,
    /// The work directory, removed after the cleanup files.
    pub work_dir: String,
    /// The rendered file.
    pub output_path: String,
    /// The last progress that the steps report.
    pub percentage: u32,
}

/// The path a step creates, if any.
pub open spec fn created_path(step: PlanStep) -> Option<Seq<char>> {
    match step {
        PlanStep::CreateDir { path } => Some(path@),
        PlanStep::WriteFile { path, .. } => Some(path@),
        PlanStep::Run { output, .. } => Some(output@),
        _ => None,
    }
}

/// The progress a step reports, if any.
pub open spec fn progress_of(step: PlanStep) -> Option<u32> {
    match step {
        PlanStep::Progress { percentage, .. } => Some(percentage),
        _ => None,
    }
}

/// The arguments of a step that runs the transcoder.
pub open spec fn run_args_of(step: PlanStep) -> Option<Seq<Seq<char>>> {
    match step {
        PlanStep::Run { args, .. } => Some(views(args@)),
        _ => None,
    }
}

/// The argument vectors of the transcoder runs among `steps`, in order.
pub open spec fn runs_of(steps: Seq<PlanStep>) -> Seq<Seq<Seq<char>>>
    decreases steps.len(),
{
    if steps.len() == 0 {
        Seq::empty()
    } else {
        match run_args_of(steps.last()) {
            Some(a) => runs_of(steps.drop_last()).push(a),
            None => runs_of(steps.drop_last()),
        }
    }
}

/// The file a step writes, with its contents.
pub open spec fn write_of(step: PlanStep) -> Option<(Seq<char>, Seq<char>)> {
    match step {
        PlanStep::WriteFile { path, contents } => Some((path@, contents@)),
        _ => None,
    }
}

/// The files written among `steps`, with their contents, in order.
pub open spec fn writes_of(steps: Seq<PlanStep>) -> Seq<(Seq<char>, Seq<char>)>
    decreases steps.len(),
{
    if steps.len() == 0 {
        Seq::empty()
    } else {
        match write_of(steps.last()) {
            Some(w) => writes_of(steps.drop_last()).push(w),
            None => writes_of(steps.drop_last()),
        }
    }
}

/// The percentages reported among `steps`, in order.
pub open spec fn progresses_of(steps: Seq<PlanStep>) -> Seq<u32>
    decreases steps.len(),
{
    if steps.len() == 0 {
        Seq::empty()
    } else {
        match progress_of(steps.last()) {
            Some(p) => progresses_of(steps.drop_last()).push(p),
            None => progresses_of(steps.drop_last()),
        }
    }
}

proof fn lemma_runs_push(steps: Seq<PlanStep>, step: PlanStep)
    ensures
        runs_of(steps.push(step)) == match run_args_of(step) {
            Some(a) => runs_of(steps).push(a),
            None => runs_of(steps),
        },
        writes_of(steps.push(step)) == match write_of(step) {
            Some(w) => writes_of(steps).push(w),
            None => writes_of(steps),
        },
        progresses_of(steps.push(step)) == match progress_of(step) {
            Some(p) => progresses_of(steps).push(p),
            None => progresses_of(steps),
        },
{
    assert(steps.push(step).drop_last() =~= steps);
}

/// `p` is removed once the render stops: a cleanup file or the work
/// directory.
pub open spec fn removed_after(plan: ExportPlan, p: Seq<char>) -> bool {
    p == plan.work_dir@ || exists|i: int| 0 <= i < plan.cleanup@.len() && #[trigger] plan.cleanup@[i]@ == p
}

/// Every path that some step creates, but the output, is removed once the
/// render stops.
pub open spec fn cleans_up(plan: ExportPlan) -> bool {
    forall|k: int|
        0 <= k < plan.steps@.len() ==> (created_path(#[trigger] plan.steps@[k]) matches Some(p) ==> p
            == plan.output_path@ || removed_after(plan, p))
}

/// The progress the steps report never decreases, never passes 100%, and
/// the last report is `plan.percentage`.
pub open spec fn progress_monotone(plan: ExportPlan) -> bool {
    &&& plan.percentage <= 10000
    &&& forall|i: int, j: int|
        0 <= i < j < plan.steps@.len() ==> (progress_of(#[trigger] plan.steps@[i]) matches Some(a) ==> (
        progress_of(#[trigger] plan.steps@[j]) matches Some(b) ==> a <= b))
    &&& forall|i: int|
        0 <= i < plan.steps@.len() ==> (progress_of(#[trigger] plan.steps@[i]) matches Some(a) ==> a
            <= plan.percentage)
}

/// A plan as it is built: its cleanup covers what it creates and its
/// progress only grows.
#[verifier::opaque]
pub open spec fn plan_inv(plan: ExportPlan) -> bool {
    cleans_up(plan) && progress_monotone(plan)
}

/// A finished plan: built consistently, starting with a report of 0% and
/// ending with a report of 100%.
pub open spec fn plan_complete(plan: ExportPlan) -> bool {
    &&& plan_inv(plan)
    &&& plan.steps@.len() > 0
    &&& progress_of(plan.steps@[0]) == Some(0u32)
    &&& progress_of(plan.steps@.last()) == Some(10000u32)
    &&& plan.percentage == 10000
}

/// Wherever a render stops, after any number of its steps, what those steps
/// created is the output or is removed afterwards: the work directory and
/// every intermediate are gone once cleanup has run.
pub proof fn lemma_cleanup_after_any_stop(plan: ExportPlan, stopped_after: int, k: int)
    requires
        plan_inv(plan),
        0 <= k < stopped_after <= plan.steps@.len(),
    ensures
        created_path(plan.steps@[k]) matches Some(p) ==> p == plan.output_path@ || removed_after(plan, p),
{
    reveal(plan_inv);
}

/// Within a render the reported percentages never decrease, and a render
/// that ran every step last reported exactly 100%.
pub proof fn lemma_progress_monotone(plan: ExportPlan, i: int, j: int)
    requires
        plan_complete(plan),
        0 <= i < j < plan.steps@.len(),
    ensures
        progress_of(plan.steps@[i]) matches Some(a) ==> (progress_of(plan.steps@[j]) matches Some(b)
            ==> a <= b),
        progress_of(plan.steps@[plan.steps@.len() - 1]) == Some(10000u32),
{
    reveal(plan_inv);
    assert(plan.steps@.last() == plan.steps@[plan.steps@.len() - 1]);
}

/// Adds a progress report, no lower than the last one.
fn push_progress(plan: &mut ExportPlan, percentage: u32, stage: String)
    requires
        plan_inv(*old(plan)),
        old(plan).percentage <= percentage <= 10000,
    ensures
        plan_inv(*final(plan)),
        final(plan).percentage == percentage,
        final(plan).steps@ == old(plan).steps@.push(PlanStep::Progress { percentage, stage }),
        runs_of(final(plan).steps@) == runs_of(old(plan).steps@),
        writes_of(final(plan).steps@) == writes_of(old(plan).steps@),
        progresses_of(final(plan).steps@) == progresses_of(old(plan).steps@).push(percentage),
        final(plan).cleanup == old(plan).cleanup,
        final(plan).work_dir == old(plan).work_dir,
        final(plan).output_path == old(plan).output_path,
        final(plan).strategy == old(plan).strategy,
{
    reveal(plan_inv);
    let ghost old_plan = *plan;
    plan.steps.push(PlanStep::Progress { percentage, stage });
    plan.percentage = percentage;
    proof {
        lemma_runs_push(old_plan.steps@, plan.steps@.last());
        assert(plan.steps@ == old_plan.steps@.push(plan.steps@.last()));
        let n = old_plan.steps@.len();
        assert forall|k: int| 0 <= k < plan.steps@.len() implies (created_path(
            #[trigger] plan.steps@[k],
        ) matches Some(p) ==> p == plan.output_path@ || removed_after(*plan, p)) by {
            if k < n {
                assert(plan.steps@[k] == old_plan.steps@[k]);
                if let Some(p) = created_path(old_plan.steps@[k]) {
                    if p != plan.work_dir@ && p != plan.output_path@ {
                        let i = choose|i: int| 0 <= i < old_plan.cleanup@.len() && #[trigger] old_plan.cleanup@[i]@ == p;
                        assert(plan.cleanup@[i]@ == p);
                    }
                }
            }
        }
        assert forall|i: int, j: int| 0 <= i < j < plan.steps@.len() implies (progress_of(
            #[trigger] plan.steps@[i],
        ) matches Some(a) ==> (progress_of(#[trigger] plan.steps@[j]) matches Some(b) ==> a <= b)) by {
            assert(plan.steps@[i] == old_plan.steps@[i]);
            if j < n {
                assert(plan.steps@[j] == old_plan.steps@[j]);
            }
        }
        assert forall|i: int| 0 <= i < plan.steps@.len() implies (progress_of(
            #[trigger] plan.steps@[i],
        ) matches Some(a) ==> a <= plan.percentage) by {
            if i < n {
                assert(plan.steps@[i] == old_plan.steps@[i]);
            }
        }
    }
}

/// Adds a step that creates nothing and reports nothing.
fn push_quiet(plan: &mut ExportPlan, step: PlanStep)
    requires
        plan_inv(*old(plan)),
        created_path(step) is None || created_path(step) == Some(old(plan).work_dir@) || created_path(step)
            == Some(old(plan).output_path@),
        progress_of(step) is None,
    ensures
        plan_inv(*final(plan)),
        final(plan).percentage == old(plan).percentage,
        final(plan).steps@ == old(plan).steps@.push(step),
        runs_of(final(plan).steps@) == match run_args_of(step) {
            Some(a) => runs_of(old(plan).steps@).push(a),
            None => runs_of(old(plan).steps@),
        },
        writes_of(final(plan).steps@) == match write_of(step) {
            Some(w) => writes_of(old(plan).steps@).push(w),
            None => writes_of(old(plan).steps@),
        },
        progresses_of(final(plan).steps@) == progresses_of(old(plan).steps@),
        final(plan).cleanup == old(plan).cleanup,
        final(plan).work_dir == old(plan).work_dir,
        final(plan).output_path == old(plan).output_path,
        final(plan).strategy == old(plan).strategy,
{
    reveal(plan_inv);
    let ghost old_plan = *plan;
    let ghost the_step = step;
    plan.steps.push(step);
    proof {
        lemma_runs_push(old_plan.steps@, the_step);
        let n = old_plan.steps@.len();
        assert forall|k: int| 0 <= k < plan.steps@.len() implies (created_path(
            #[trigger] plan.steps@[k],
        ) matches Some(p) ==> p == plan.output_path@ || removed_after(*plan, p)) by {
            if k < n {
                assert(plan.steps@[k] == old_plan.steps@[k]);
                if let Some(p) = created_path(old_plan.steps@[k]) {
                    if p != plan.work_dir@ && p != plan.output_path@ {
                        let i = choose|i: int| 0 <= i < old_plan.cleanup@.len() && #[trigger] old_plan.cleanup@[i]@ == p;
                        assert(plan.cleanup@[i]@ == p);
                    }
                }
            }
        }
        assert forall|i: int, j: int| 0 <= i < j < plan.steps@.len() implies (progress_of(
            #[trigger] plan.steps@[i],
        ) matches Some(a) ==> (progress_of(#[trigger] plan.steps@[j]) matches Some(b) ==> a <= b)) by {
            assert(plan.steps@[i] == old_plan.steps@[i]);
            if j < n {
                assert(plan.steps@[j] == old_plan.steps@[j]);
            }
        }
        assert forall|i: int| 0 <= i < plan.steps@.len() implies (progress_of(
            #[trigger] plan.steps@[i],
        ) matches Some(a) ==> a <= plan.percentage) by {
            if i < n {
                assert(plan.steps@[i] == old_plan.steps@[i]);
            }
        }
    }
}

/// Adds `path` to the files removed after the render.
fn push_cleanup(plan: &mut ExportPlan, path: String)
    requires
        plan_inv(*old(plan)),
    ensures
        plan_inv(*final(plan)),
        removed_after(*final(plan), path@),
        forall|p: Seq<char>| removed_after(*old(plan), p) ==> removed_after(*final(plan), p),
        final(plan).percentage == old(plan).percentage,
        final(plan).steps == old(plan).steps,
        final(plan).work_dir == old(plan).work_dir,
        final(plan).output_path == old(plan).output_path,
        final(plan).strategy == old(plan).strategy,
{
    reveal(plan_inv);
    let ghost old_plan = *plan;
    plan.cleanup.push(path);
    proof {
        assert(plan.cleanup@[old_plan.cleanup@.len() as int]@ == path@);
        assert forall|p: Seq<char>| removed_after(old_plan, p) implies removed_after(*plan, p) by {
            if p != plan.work_dir@ {
                let i = choose|i: int| 0 <= i < old_plan.cleanup@.len() && #[trigger] old_plan.cleanup@[i]@ == p;
                assert(plan.cleanup@[i]@ == p);
            }
        }
        assert forall|k: int| 0 <= k < plan.steps@.len() implies (created_path(
            #[trigger] plan.steps@[k],
        ) matches Some(p) ==> p == plan.output_path@ || removed_after(*plan, p)) by {
            assert(plan.steps@[k] == old_plan.steps@[k]);
        }
    }
}

/// Adds a step that creates a temporary file, and the file to the cleanup.
fn push_temporary(plan: &mut ExportPlan, step: PlanStep, path: String)
    requires
        plan_inv(*old(plan)),
        created_path(step) == Some(path@),
        progress_of(step) is None,
    ensures
        plan_inv(*final(plan)),
        removed_after(*final(plan), path@),
        forall|p: Seq<char>| removed_after(*old(plan), p) ==> removed_after(*final(plan), p),
        final(plan).percentage == old(plan).percentage,
        final(plan).steps@ == old(plan).steps@.push(step),
        runs_of(final(plan).steps@) == match run_args_of(step) {
            Some(a) => runs_of(old(plan).steps@).push(a),
            None => runs_of(old(plan).steps@),
        },
        writes_of(final(plan).steps@) == match write_of(step) {
            Some(w) => writes_of(old(plan).steps@).push(w),
            None => writes_of(old(plan).steps@),
        },
        progresses_of(final(plan).steps@) == progresses_of(old(plan).steps@),
        final(plan).work_dir == old(plan).work_dir,
        final(plan).output_path == old(plan).output_path,
        final(plan).strategy == old(plan).strategy,
{
    reveal(plan_inv);
    let ghost path_view = path@;
    push_cleanup(plan, path);
    let ghost mid = *plan;
    let ghost the_step = step;
    plan.steps.push(step);
    proof {
        lemma_runs_push(mid.steps@, the_step);
        assert(plan.cleanup == mid.cleanup);
        assert(removed_after(mid, path_view));
        assert forall|p: Seq<char>| removed_after(mid, p) implies removed_after(*plan, p) by {
            if p != plan.work_dir@ {
                let i = choose|i: int| 0 <= i < mid.cleanup@.len() && #[trigger] mid.cleanup@[i]@ == p;
                assert(plan.cleanup@[i]@ == p);
            }
        }
        let n = mid.steps@.len();
        assert forall|k: int| 0 <= k < plan.steps@.len() implies (created_path(
            #[trigger] plan.steps@[k],
        ) matches Some(p) ==> p == plan.output_path@ || removed_after(*plan, p)) by {
            if k < n {
                assert(plan.steps@[k] == mid.steps@[k]);
                if let Some(p) = created_path(mid.steps@[k]) {
                    if p != plan.work_dir@ && p != plan.output_path@ {
                        let i = choose|i: int| 0 <= i < mid.cleanup@.len() && #[trigger] mid.cleanup@[i]@ == p;
                        assert(plan.cleanup@[i]@ == p);
                    }
                }
            } else {
                assert(plan.steps@[k] == step);
            }
        }
        assert forall|i: int, j: int| 0 <= i < j < plan.steps@.len() implies (progress_of(
            #[trigger] plan.steps@[i],
        ) matches Some(a) ==> (progress_of(#[trigger] plan.steps@[j]) matches Some(b) ==> a <= b)) by {
            assert(plan.steps@[i] == mid.steps@[i]);
            if j < n {
                assert(plan.steps@[j] == mid.steps@[j]);
            }
        }
        assert forall|i: int| 0 <= i < plan.steps@.len() implies (progress_of(
            #[trigger] plan.steps@[i],
        ) matches Some(a) ==> a <= plan.percentage) by {
            if i < n {
                assert(plan.steps@[i] == mid.steps@[i]);
            }
        }
    }
}

/// `dir/name`.
fn join_path(dir: &str, name: &str) -> (r: String)
    ensures
        r@ == dir@ + "/"@ + name@,
{
    let mut r = String::from_str(dir);
    r.append("/");
    r.append(name);
    r
}

/// The intermediate `<dir>/<kind>_<ordinal>_trimmed.mp4`.
pub open spec fn intermediate_spec(dir: Seq<char>, kind: Seq<char>, ordinal: nat) -> Seq<char> {
    dir + "/"@ + kind + "_"@ + nat_digits(ordinal) + "_trimmed.mp4"@
}

/// The path of intermediate `ordinal` of `kind` in `dir`.
fn intermediate_path(dir: &str, kind: &str, ordinal: usize) -> (r: String)
    ensures
        r@ == intermediate_spec(dir@, kind@, ordinal as nat),
{
    let mut r = String::from_str(dir);
    r.append("/");
    r.append(kind);
    r.append("_");
    push_nat(&mut r, ordinal as u128);
    r.append("_trimmed.mp4");
    assert(r@ =~= intermediate_spec(dir@, kind@, ordinal as nat));
    r
}

/// `<verb> <i + 1> of <n>...`.
fn counted_label(verb: &str, i: usize, n: usize) -> String {
    let mut r = String::from_str(verb);
    r.append(" ");
    push_nat(&mut r, i as u128 + 1);
    r.append(" of ");
    push_nat(&mut r, n as u128);
    r.append("...");
    r
}

/// The progress reported before each of `n` trims: from `lo` towards `hi`
/// in equal steps, rounded down.
pub open spec fn trim_progress(lo: int, hi: int, n: nat) -> Seq<u32> {
    Seq::new(n, |i: int| (lo + ((hi - lo) * i) / (n as int)) as u32)
}

/// Adds the trimming of every clip into an intermediate, reporting progress
/// from `lo` towards `hi` across the clips. Returns the intermediates.
#[verifier::rlimit(50)]
fn plan_trims(
    plan: &mut ExportPlan,
    clips: &Vec<ClipData>,
    dir: &str,
    kind: &str,
    lo: u32,
    hi: u32,
    verb: &str,
) -> (r: Vec<String>)
    requires
        plan_inv(*old(plan)),
        old(plan).percentage <= lo <= hi <= 10000,
    ensures
        plan_inv(*final(plan)),
        final(plan).percentage <= hi,
        r@.len() == clips@.len(),
        views(r@) == Seq::new(clips@.len(), |i: int| intermediate_spec(dir@, kind@, i as nat)),
        runs_of(final(plan).steps@) == runs_of(old(plan).steps@) + Seq::new(
            clips@.len(),
            |i: int| trim_args_spec(clips@[i], intermediate_spec(dir@, kind@, i as nat)),
        ),
        forall|i: int| 0 <= i < r@.len() ==> removed_after(*final(plan), #[trigger] r@[i]@),
        writes_of(final(plan).steps@) == writes_of(old(plan).steps@),
        progresses_of(final(plan).steps@) == progresses_of(old(plan).steps@) + trim_progress(
            lo as int,
            hi as int,
            clips@.len(),
        ),
        final(plan).steps@.len() >= old(plan).steps@.len(),
        forall|k: int| 0 <= k < old(plan).steps@.len() ==> #[trigger] final(plan).steps@[k] == old(plan).steps@[k],
        final(plan).work_dir == old(plan).work_dir,
        final(plan).output_path == old(plan).output_path,
        final(plan).strategy == old(plan).strategy,
{
    let n = clips.len();
    let mut outs: Vec<String> = Vec::new();
    let span: u128 = (hi - lo) as u128;
    let mut i: usize = 0;
    while i < n
        invariant
            n == clips@.len(),
            i <= n,
            plan_inv(*plan),
            lo <= hi <= 10000,
            span == hi - lo,
            plan.percentage <= hi,
            plan.percentage <= lo || (i > 0 && plan.percentage == lo + (span * (i - 1)) / (n as int)),
            outs@.len() == i,
            forall|j: int| 0 <= j < i ==> #[trigger] outs@[j]@ == intermediate_spec(dir@, kind@, j as nat),
            runs_of(plan.steps@) == runs_of(old(plan).steps@) + Seq::new(
                i as nat,
                |j: int| trim_args_spec(clips@[j], intermediate_spec(dir@, kind@, j as nat)),
            ),
            forall|j: int| 0 <= j < outs@.len() ==> removed_after(*plan, #[trigger] outs@[j]@),
            writes_of(plan.steps@) == writes_of(old(plan).steps@),
            progresses_of(plan.steps@) == progresses_of(old(plan).steps@) + Seq::new(
                i as nat,
                |j: int| (lo + (span * j) / (n as int)) as u32,
            ),
            plan.steps@.len() >= old(plan).steps@.len(),
            forall|k: int| 0 <= k < old(plan).steps@.len() ==> #[trigger] plan.steps@[k] == old(plan).steps@[k],
            plan.work_dir == old(plan).work_dir,
            plan.output_path == old(plan).output_path,
            plan.strategy == old(plan).strategy,
        decreases n - i,
    {
        proof {
            assert(span * i <= span * n) by (nonlinear_arith)
                requires
                    i <= n,
                    span >= 0,
            ;
            assert((span * i) / (n as int) <= (span * n) / (n as int)) by (nonlinear_arith)
                requires
                    span * i <= span * n,
                    n > 0,
            ;
            assert((span * n) / (n as int) == span) by (nonlinear_arith)
                requires
                    n > 0,
            ;
            if i > 0 {
                assert(span * (i - 1) <= span * i) by (nonlinear_arith)
                    requires
                        span >= 0,
                        i >= 1,
                ;
                assert((span * (i - 1)) / (n as int) <= (span * i) / (n as int)) by (nonlinear_arith)
                    requires
                        span * (i - 1) <= span * i,
                        n > 0,
                ;
            }
            assert(span * i <= 10000 * 0x1_0000_0000_0000_0000) by (nonlinear_arith)
                requires
                    span <= 10000,
                    i <= 0x1_0000_0000_0000_0000,
            ;
            assert(0 <= (span * i) / (n as int));
        }
        let step: u128 = span * i as u128 / n as u128;
        let pct: u32 = lo + step as u32;
        push_progress(plan, pct, counted_label(verb, i, n));
        let out = intermediate_path(dir, kind, i);
        let args = trim_args(&clips[i], out.as_str());
        push_temporary(plan, PlanStep::Run { stage: String::from_str("trim"), args, output: out.clone() }, out.clone());
        outs.push(out);
        proof {
            assert(progresses_of(plan.steps@) =~= progresses_of(old(plan).steps@) + Seq::new(
                (i + 1) as nat,
                |j: int| (lo + (span * j) / (n as int)) as u32,
            ));
            assert(runs_of(plan.steps@) =~= runs_of(old(plan).steps@) + Seq::new(
                (i + 1) as nat,
                |j: int| trim_args_spec(clips@[j], intermediate_spec(dir@, kind@, j as nat)),
            ));
            assert forall|j: int| 0 <= j < outs@.len() implies removed_after(*plan, #[trigger] outs@[j]@) by {
                if j == i {
                    assert(outs@[j] == out);
                }
            }
        }
        i = i + 1;
    }
    assert(views(outs@) =~= Seq::new(clips@.len(), |i: int| intermediate_spec(dir@, kind@, i as nat)));
    assert(progresses_of(plan.steps@) =~= progresses_of(old(plan).steps@) + trim_progress(
        lo as int,
        hi as int,
        clips@.len(),
    ));
    assert(runs_of(old(plan).steps@) + Seq::new(
        n as nat,
        |j: int| trim_args_spec(clips@[j], intermediate_spec(dir@, kind@, j as nat)),
    ) =~= runs_of(old(plan).steps@) + Seq::new(
        clips@.len(),
        |i: int| trim_args_spec(clips@[i], intermediate_spec(dir@, kind@, i as nat)),
    ));
    outs
}

/// Every declared transition names a known kind, so every link of an xfade
/// chain over any clips resolves.
proof fn lemma_steps_resolve(clips: Seq<ClipData>, ts: Seq<TransitionData>)
    requires
        forall|k: int| 0 <= k < ts.len() ==> #[trigger] xfade_name(ts[k].transition_type@) is Some,
    ensures
        forall|i: int| 0 <= i < clips.len() - 1 ==> #[trigger] xfade_step(clips, ts, i) is Some,
{
    assert forall|i: int| 0 <= i < clips.len() - 1 implies #[trigger] xfade_step(clips, ts, i) is Some by {
        lemma_find_transition_in_range(ts, clips[i].id, clips[i + 1].id);
    }
}

/// A plan without steps, at 0%.
fn new_plan(strategy: Strategy, work_dir: String, output_path: String) -> (r: ExportPlan)
    ensures
        plan_inv(r),
        r.steps@.len() == 0,
        r.percentage == 0,
        r.strategy == strategy,
        r.work_dir == work_dir,
        r.output_path == output_path,
{
    reveal(plan_inv);
    ExportPlan { strategy, steps: Vec::new(), cleanup: Vec::new(), work_dir, output_path, percentage: 0 }
}

/// `-i <file>` for every file, in order.
pub open spec fn inputs_spec(files: Seq<Seq<char>>) -> Seq<Seq<char>>
    decreases files.len(),
{
    if files.len() == 0 {
        Seq::empty()
    } else {
        inputs_spec(files.drop_last()) + seq!["-i"@, files.last()]
    }
}

/// Appends `-i <file>` for every file.
fn push_input_args(args: &mut Vec<String>, files: &Vec<String>)
    ensures
        views(final(args)@) == views(old(args)@) + inputs_spec(views(files@)),
{
    let ghost a0 = views(args@);
    let n = files.len();
    let mut i: usize = 0;
    while i < n
        invariant
            n == files@.len(),
            i <= n,
            views(args@) == a0 + inputs_spec(views(files@.subrange(0, i as int))),
        decreases n - i,
    {
        let ghost before = views(args@);
        args.push(String::from_str("-i"));
        args.push(files[i].clone());
        proof {
            assert(views(args@) =~= before + seq!["-i"@, files@[i as int]@]);
            let done = views(files@.subrange(0, i + 1));
            assert(done.drop_last() =~= views(files@.subrange(0, i as int)));
            assert(done.last() == files@[i as int]@);
            assert(inputs_spec(done) == inputs_spec(done.drop_last()) + seq!["-i"@, done.last()]);
            assert(views(args@) =~= a0 + inputs_spec(done));
        }
        i = i + 1;
    }
    assert(files@.subrange(0, n as int) =~= files@);
}

/// `graph`, then, if there are post filters, the link `mid` through them
/// to `out`, then the audio graph, all separated by `;`.
pub open spec fn post_stage_spec(
    graph: Seq<char>,
    post: Seq<Seq<char>>,
    mid: Seq<char>,
    out: Seq<char>,
    audio: Seq<char>,
) -> Seq<char> {
    (if post.len() > 0 {
        graph + ";"@ + mid + join(post, ","@) + out
    } else {
        graph
    }) + ";"@ + audio
}

/// `graph`, with the post filters, if any, applied from the link `mid` to
/// `out`, then the audio graph after a `;`.
fn with_post_stage(graph: String, post: &Vec<String>, mid: &str, out: &str, audio: &str) -> (r: String)
    ensures
        r@ == post_stage_spec(graph@, views(post@), mid@, out@, audio@),
{
    let ghost g0 = graph@;
    let mut g = graph;
    if post.len() > 0 {
        g.append(";");
        g.append(mid);
        let chain = join_strings(post, ",");
        g.append(chain.as_str());
        g.append(out);
    }
    g.append(";");
    g.append(audio);
    assert(g@ =~= post_stage_spec(g0, views(post@), mid@, out@, audio@));
    g
}

/// The trims of `clips` into intermediates of `dir` named by `kind`.
pub open spec fn trims_spec(clips: Seq<ClipData>, dir: Seq<char>, kind: Seq<char>) -> Seq<Seq<Seq<char>>> {
    Seq::new(clips.len(), |i: int| trim_args_spec(clips[i], intermediate_spec(dir, kind, i as nat)))
}

/// The final pass of a fast-concat render: the concat demuxer over `list`,
/// the post filters as one `-vf` chain if there are any, then the encoding.
pub open spec fn fast_concat_encode_spec(list: Seq<char>, post: Seq<Seq<char>>, output: Seq<char>) -> Seq<
    Seq<char>,
> {
    seq!["-f"@, "concat"@, "-safe"@, "0"@, "-i"@, list] + (if post.len() > 0 {
        seq!["-vf"@, join(post, ","@)]
    } else {
        Seq::empty()
    }) + encode_suffix(output)
}

/// Fast-concat: trims, a concat list, one encoding pass with scaling and
/// drawtext as a `-vf` chain.
#[verifier::rlimit(50)]
fn plan_fast_concat(
    plan: &mut ExportPlan,
    sorted: &Vec<ClipData>,
    text_overlays: &Vec<TextOverlayData>,
    settings: &ExportSettings,
    temp_root: &str,
)
    requires
        plan_inv(*old(plan)),
        old(plan).percentage == 0,
        old(plan).output_path@ == settings.output_path@,
    ensures
        plan_inv(*final(plan)),
        final(plan).percentage == 10000,
        final(plan).steps@.len() > old(plan).steps@.len(),
        progress_of(final(plan).steps@.last()) == Some(10000u32),
        forall|k: int| 0 <= k < old(plan).steps@.len() ==> #[trigger] final(plan).steps@[k] == old(plan).steps@[k],
        runs_of(final(plan).steps@) == runs_of(old(plan).steps@) + trims_spec(
            sorted@,
            old(plan).work_dir@,
            "clip"@,
        ) + seq![
            fast_concat_encode_spec(
                temp_root@ + "/"@ + "clipforge_concat_list.txt"@,
                post_filters_spec(settings.resolution, text_overlays@),
                settings.output_path@,
            ),
        ],
        writes_of(final(plan).steps@) == writes_of(old(plan).steps@).push(
            (
                temp_root@ + "/"@ + "clipforge_concat_list.txt"@,
                concat_list_spec(intermediates_spec(old(plan).work_dir@, "clip"@, sorted@.len())),
            ),
        ),
        progresses_of(final(plan).steps@) == progresses_of(old(plan).steps@) + trim_progress(
            0,
            4000,
            sorted@.len(),
        ) + seq![4000u32, 5000u32, 9500u32, 10000u32],
        final(plan).work_dir == old(plan).work_dir,
        final(plan).output_path == old(plan).output_path,
        final(plan).strategy == old(plan).strategy,
{
    let work_dir = plan.work_dir.clone();
    let _count = sorted.len();
    let ghost runs0 = runs_of(plan.steps@);
    let outs = plan_trims(plan, sorted, work_dir.as_str(), "clip", 0, 4000, "Trimming clip");
    push_progress(plan, 4000, String::from_str("Concatenating clips..."));
    let list = join_path(temp_root, "clipforge_concat_list.txt");
    let contents = concat_list(&outs);
    assert(views(outs@) =~= intermediates_spec(work_dir@, "clip"@, sorted@.len()));
    push_temporary(plan, PlanStep::WriteFile { path: list.clone(), contents }, list.clone());
    push_progress(plan, 5000, String::from_str("Encoding video..."));
    let mut args: Vec<String> = Vec::new();
    args.push(String::from_str("-f"));
    args.push(String::from_str("concat"));
    args.push(String::from_str("-safe"));
    args.push(String::from_str("0"));
    args.push(String::from_str("-i"));
    args.push(list);
    let post = post_filters(settings.resolution, text_overlays);
    if post.len() > 0 {
        args.push(String::from_str("-vf"));
        args.push(join_strings(&post, ","));
    }
    push_encode_suffix(&mut args, settings.output_path.as_str());
    assert(views(args@) =~= fast_concat_encode_spec(
        temp_root@ + "/"@ + "clipforge_concat_list.txt"@,
        post_filters_spec(settings.resolution, text_overlays@),
        settings.output_path@,
    ));
    let output = settings.output_path.clone();
    push_quiet(plan, PlanStep::Run { stage: String::from_str("encode"), args, output });
    push_progress(plan, 9500, String::from_str("Finalizing..."));
    push_progress(plan, 10000, String::from_str("Complete!"));
    assert(progresses_of(plan.steps@) =~= progresses_of(old(plan).steps@) + trim_progress(
        0,
        4000,
        sorted@.len(),
    ) + seq![4000u32, 5000u32, 9500u32, 10000u32]);
}


/// The link the composed picture leaves its chain by: `with` when post
/// filters follow, else `without`.
pub open spec fn chain_end(post: Seq<Seq<char>>, with: Seq<char>, without: Seq<char>) -> Seq<char> {
    if post.len() > 0 {
        with
    } else {
        without
    }
}

/// The final pass of a render over `inputs` through `graph`, mapping the
/// video link `video` and `[aout]`, then the encoding.
pub open spec fn graph_encode_spec(inputs: Seq<Seq<char>>, graph: Seq<char>, video: Seq<char>, output: Seq<char>) -> Seq<
    Seq<char>,
> {
    inputs_spec(inputs) + seq!["-filter_complex"@, graph, "-map"@, video, "-map"@, "[aout]"@] + encode_suffix(output)
}

/// The arguments of a final pass over `inputs` through `graph`.
fn graph_encode_args(inputs: &Vec<String>, graph: String, video: &str, output: &str) -> (r: Vec<String>)
    ensures
        views(r@) == graph_encode_spec(views(inputs@), graph@, video@, output@),
{
    let mut args: Vec<String> = Vec::new();
    push_input_args(&mut args, inputs);
    let ghost g = graph@;
    args.push(String::from_str("-filter_complex"));
    args.push(graph);
    args.push(String::from_str("-map"));
    args.push(String::from_str(video));
    args.push(String::from_str("-map"));
    args.push(String::from_str("[aout]"));
    push_encode_suffix(&mut args, output);
    assert(views(args@) =~= graph_encode_spec(views(inputs@), g, video@, output@));
    args
}

/// The intermediates of `n` clips.
pub open spec fn intermediates_spec(dir: Seq<char>, kind: Seq<char>, n: nat) -> Seq<Seq<char>> {
    Seq::new(n, |i: int| intermediate_spec(dir, kind, i as nat))
}

/// The final pass of a with-transitions render of `sorted` through the xfade
/// links `steps`.
pub open spec fn transitions_pass_spec(
    sorted: Seq<ClipData>,
    steps: Seq<XfadeStep>,
    post: Seq<Seq<char>>,
    dir: Seq<char>,
    output: Seq<char>,
) -> Seq<Seq<char>> {
    let g = transition_graphs(sorted, steps, 1280, 720, chain_end(post, "[vx]"@, "[vout]"@));
    graph_encode_spec(
        intermediates_spec(dir, "clip"@, sorted.len()),
        post_stage_spec(g.0, post, "[vx]"@, "[vout]"@, g.1),
        "[vout]"@,
        output,
    )
}

/// With-transitions: trims, then one pass over all intermediates through
/// the normalization and xfade chain, audio concatenated, scaling and
/// drawtext applied to the chain's output.
#[verifier::rlimit(50)]
fn plan_with_transitions(
    plan: &mut ExportPlan,
    sorted: &Vec<ClipData>,
    transitions: &Vec<TransitionData>,
    text_overlays: &Vec<TextOverlayData>,
    settings: &ExportSettings,
) -> (r: Result<(), ExportError>)
    requires
        plan_inv(*old(plan)),
        old(plan).percentage == 0,
        old(plan).output_path@ == settings.output_path@,
        forall|i: int| 0 <= i < sorted@.len() - 1 ==> #[trigger] xfade_step(sorted@, transitions@, i) is Some,
        sorted@.len() > 0,
    ensures
        r is Ok,
        exists|steps: Seq<XfadeStep>|
            steps_match(sorted@, transitions@, steps) && runs_of(final(plan).steps@) == runs_of(
                old(plan).steps@,
            ) + trims_spec(sorted@, old(plan).work_dir@, "clip"@) + seq![
                transitions_pass_spec(
                    sorted@,
                    steps,
                    post_filters_spec(settings.resolution, text_overlays@),
                    old(plan).work_dir@,
                    settings.output_path@,
                ),
            ],
        writes_of(final(plan).steps@) == writes_of(old(plan).steps@),
        progresses_of(final(plan).steps@) == progresses_of(old(plan).steps@) + trim_progress(
            0,
            4000,
            sorted@.len(),
        ) + seq![4000u32, 5000u32, 9500u32, 10000u32],
        plan_inv(*final(plan)),
        final(plan).percentage == 10000,
        final(plan).steps@.len() > old(plan).steps@.len(),
        progress_of(final(plan).steps@.last()) == Some(10000u32),
        forall|k: int| 0 <= k < old(plan).steps@.len() ==> #[trigger] final(plan).steps@[k] == old(plan).steps@[k],
        final(plan).work_dir == old(plan).work_dir,
        final(plan).output_path == old(plan).output_path,
        final(plan).strategy == old(plan).strategy,
{
    let work_dir = plan.work_dir.clone();
    let _count = sorted.len();
    let outs = plan_trims(plan, sorted, work_dir.as_str(), "clip", 0, 4000, "Trimming clip");
    push_progress(plan, 4000, String::from_str("Building transition filters..."));
    let post = post_filters(settings.resolution, text_overlays);
    let last = if post.len() > 0 {
        "[vx]"
    } else {
        "[vout]"
    };
    let (video, audio) = match build_xfade_and_audio_filter(sorted, transitions, 1280, 720, last) {
        Ok(g) => g,
        Err(e) => {
            return Err(e);
        },
    };
    let ghost steps: Seq<XfadeStep> = if sorted@.len() < 2 {
        Seq::empty()
    } else {
        choose|steps: Seq<XfadeStep>|
            steps_match(sorted@, transitions@, steps) && (video@, audio@) == transition_graphs(
                sorted@,
                steps,
                1280,
                720,
                last@,
            )
    };
    assert(steps_match(sorted@, transitions@, steps));
    let graph = with_post_stage(video, &post, "[vx]", "[vout]", audio.as_str());
    let args = graph_encode_args(&outs, graph, "[vout]", settings.output_path.as_str());
    assert(views(outs@) =~= intermediates_spec(work_dir@, "clip"@, sorted@.len()));
    assert(views(args@) =~= transitions_pass_spec(
        sorted@,
        steps,
        post_filters_spec(settings.resolution, text_overlays@),
        work_dir@,
        settings.output_path@,
    ));
    push_progress(plan, 5000, String::from_str("Rendering transitions..."));
    let output = settings.output_path.clone();
    push_quiet(plan, PlanStep::Run { stage: String::from_str("transitions"), args, output });
    push_progress(plan, 9500, String::from_str("Finalizing..."));
    push_progress(plan, 10000, String::from_str("Complete!"));
    assert(steps_match(sorted@, transitions@, steps));
    assert(progresses_of(plan.steps@) =~= progresses_of(old(plan).steps@) + trim_progress(
        0,
        4000,
        sorted@.len(),
    ) + seq![4000u32, 5000u32, 9500u32, 10000u32]);
    Ok(())
}

/// The clips on the base track (`base`) or on the overlay tracks.
fn clips_on_tracks(clips: &Vec<ClipData>, base: bool) -> (r: Vec<ClipData>)
    ensures
        forall|i: int| 0 <= i < r@.len() ==> (#[trigger] r@[i].track == 0) == base,
        base ==> (r@.len() > 0 <==> has_base_clip(clips@)),
        r@ == clips_on_tracks_spec(clips@, base),
{
    let n = clips.len();
    let mut r: Vec<ClipData> = Vec::new();
    let mut i: usize = 0;
    while i < n
        invariant
            n == clips@.len(),
            i <= n,
            forall|j: int| 0 <= j < r@.len() ==> (#[trigger] r@[j].track == 0) == base,
            base ==> forall|j: int| 0 <= j < i && #[trigger] clips@[j].track == 0 ==> r@.len() > 0,
            base ==> (r@.len() > 0 ==> exists|j: int| 0 <= j < i && #[trigger] clips@[j].track == 0),
            r@ == clips_on_tracks_spec(clips@.subrange(0, i as int), base),
        decreases n - i,
    {
        proof {
            assert(clips@.subrange(0, i + 1).drop_last() =~= clips@.subrange(0, i as int));
            assert(clips@.subrange(0, i + 1).last() == clips@[i as int]);
        }
        if (clips[i].track == 0) == base {
            r.push(copy_clip(&clips[i]));
        }
        i = i + 1;
    }
    assert(clips@.subrange(0, n as int) =~= clips@);
    r
}

/// Some clip of `clips` has id `id`.
pub open spec fn has_clip_id_spec(clips: Seq<ClipData>, id: u32) -> bool {
    exists|i: int| 0 <= i < clips.len() && #[trigger] clips[i].id == id
}

/// The transitions whose clips both lie among `base`, in order.
pub open spec fn base_transitions_spec(ts: Seq<TransitionData>, base: Seq<ClipData>) -> Seq<TransitionData>
    decreases ts.len(),
{
    if ts.len() == 0 {
        Seq::empty()
    } else {
        let kept = base_transitions_spec(ts.drop_last(), base);
        if has_clip_id_spec(base, ts.last().clip_id_before) && has_clip_id_spec(base, ts.last().clip_id_after) {
            kept.push(ts.last())
        } else {
            kept
        }
    }
}

/// Whether some clip of `clips` has id `id`.
fn has_clip_id(clips: &Vec<ClipData>, id: u32) -> (r: bool)
    ensures
        r == has_clip_id_spec(clips@, id),
{
    let n = clips.len();
    let mut i: usize = 0;
    while i < n
        invariant
            n == clips@.len(),
            i <= n,
            forall|j: int| 0 <= j < i ==> #[trigger] clips@[j].id != id,
        decreases n - i,
    {
        if clips[i].id == id {
            return true;
        }
        i = i + 1;
    }
    false
}

/// A copy of a transition.
fn copy_transition(t: &TransitionData) -> (r: TransitionData)
    ensures
        r == *t,
{
    TransitionData {
        id: t.id,
        clip_id_before: t.clip_id_before,
        clip_id_after: t.clip_id_after,
        transition_type: t.transition_type.clone(),
        duration: t.duration,
    }
}

/// The transitions whose clips both lie on the base track.
fn base_transitions(transitions: &Vec<TransitionData>, base: &Vec<ClipData>) -> (r: Vec<TransitionData>)
    ensures
        forall|i: int| 0 <= i < r@.len() ==> transitions@.contains(#[trigger] r@[i]),
        r@ == base_transitions_spec(transitions@, base@),
{
    let n = transitions.len();
    let mut r: Vec<TransitionData> = Vec::new();
    let ghost mut src: Seq<int> = Seq::empty();
    let mut i: usize = 0;
    while i < n
        invariant
            n == transitions@.len(),
            i <= n,
            src.len() == r@.len(),
            forall|j: int| 0 <= j < r@.len() ==> 0 <= #[trigger] src[j] < n && r@[j] == transitions@[src[j]],
            r@ == base_transitions_spec(transitions@.subrange(0, i as int), base@),
        decreases n - i,
    {
        proof {
            assert(transitions@.subrange(0, i + 1).drop_last() =~= transitions@.subrange(0, i as int));
            assert(transitions@.subrange(0, i + 1).last() == transitions@[i as int]);
        }
        let t = &transitions[i];
        if has_clip_id(base, t.clip_id_before) && has_clip_id(base, t.clip_id_after) {
            let c = copy_transition(t);
            r.push(c);
            proof {
                src = src.push(i as int);
            }
        }
        i = i + 1;
    }
    assert(transitions@.subrange(0, n as int) =~= transitions@);
    proof {
        assert forall|j: int| 0 <= j < r@.len() implies transitions@.contains(#[trigger] r@[j]) by {
            assert(0 <= src[j] < n && r@[j] == transitions@[src[j]]);
        }
    }
    r
}

/// The pass that renders the base track into `base_video`: the trimmed
/// base clips joined by the concat demuxer with codecs copied when no
/// transition applies to them, else through their xfade chain and audio
/// crossfades.
pub open spec fn base_pass_spec(
    base: Seq<ClipData>,
    base_ts: Seq<TransitionData>,
    steps: Seq<XfadeStep>,
    list: Seq<char>,
    dir: Seq<char>,
    base_video: Seq<char>,
) -> Seq<Seq<char>> {
    if base_ts.len() == 0 {
        concat_copy_args(list, base_video)
    } else {
        graph_encode_spec(
            intermediates_spec(dir, "clip"@, base.len()),
            base_transition_graph(base, steps, 0, 1280, 720),
            "[vout]"@,
            base_video,
        )
    }
}

/// The final pass of a multi-track render: the base video and the trimmed
/// overlays through the overlay chain.
pub open spec fn overlay_pass_spec(
    overlays: Seq<ClipData>,
    post: Seq<Seq<char>>,
    dir: Seq<char>,
    base_video: Seq<char>,
    output: Seq<char>,
) -> Seq<Seq<char>> {
    graph_encode_spec(
        seq![base_video] + intermediates_spec(dir, "overlay"@, overlays.len()),
        post_stage_spec(
            overlay_video_spec(overlays, chain_end(post, "[ovx]"@, "[out]"@)),
            post,
            "[ovx]"@,
            "[out]"@,
            overlay_audio_spec(overlays.len()),
        ),
        "[out]"@,
        output,
    )
}

/// The files written once the base track is rendered: the concat list of
/// its intermediates when no transition applies to it.
pub open spec fn base_writes_spec(
    before: Seq<(Seq<char>, Seq<char>)>,
    base_ts: Seq<TransitionData>,
    list: Seq<char>,
    inputs: Seq<Seq<char>>,
) -> Seq<(Seq<char>, Seq<char>)> {
    if base_ts.len() == 0 {
        before.push((list, concat_list_spec(inputs)))
    } else {
        before
    }
}

/// Adds the rendering of the base track into `base_video`.
#[verifier::rlimit(50)]
fn plan_base_pass(
    plan: &mut ExportPlan,
    base: &Vec<ClipData>,
    base_outs: &Vec<String>,
    base_ts: &Vec<TransitionData>,
    list: String,
    base_video: &String,
) -> (r: Result<(), ExportError>)
    requires
        plan_inv(*old(plan)),
        views(base_outs@) == intermediates_spec(old(plan).work_dir@, "clip"@, base@.len()),
        forall|k: int| 0 <= k < base_ts@.len() ==> #[trigger] xfade_name(base_ts@[k].transition_type@) is Some,
        base@.len() > 0,
    ensures
        r is Ok,
        plan_inv(*final(plan)),
        final(plan).percentage == old(plan).percentage,
        final(plan).steps@.len() >= old(plan).steps@.len(),
        forall|k: int| 0 <= k < old(plan).steps@.len() ==> #[trigger] final(plan).steps@[k] == old(plan).steps@[k],
        removed_after(*final(plan), base_video@),
        exists|steps: Seq<XfadeStep>|
            (base_ts@.len() == 0 || steps_match(base@, base_ts@, steps)) && runs_of(final(plan).steps@)
                == runs_of(old(plan).steps@).push(
                #[trigger] base_pass_spec(base@, base_ts@, steps, list@, old(plan).work_dir@, base_video@),
            ),
        progresses_of(final(plan).steps@) == progresses_of(old(plan).steps@),
        writes_of(final(plan).steps@) == base_writes_spec(
            writes_of(old(plan).steps@),
            base_ts@,
            list@,
            intermediates_spec(old(plan).work_dir@, "clip"@, base@.len()),
        ),
        final(plan).work_dir == old(plan).work_dir,
        final(plan).output_path == old(plan).output_path,
        final(plan).strategy == old(plan).strategy,
{
    if base_ts.len() == 0 {
        let contents = concat_list(base_outs);
        push_temporary(plan, PlanStep::WriteFile { path: list.clone(), contents }, list.clone());
        let args = concat_copy(list.as_str(), base_video.as_str());
        push_temporary(
            plan,
            PlanStep::Run { stage: String::from_str("base"), args, output: base_video.clone() },
            base_video.clone(),
        );
        assert(runs_of(plan.steps@) == runs_of(old(plan).steps@).push(
            base_pass_spec(base@, base_ts@, Seq::empty(), list@, old(plan).work_dir@, base_video@),
        ));
    } else {
        proof {
            lemma_steps_resolve(base@, base_ts@);
        }
        let graph = match build_xfade_and_audio_filter_offset(base, base_ts, 0, 1280, 720) {
            Ok(g) => g,
            Err(e) => {
                return Err(e);
            },
        };
        let ghost steps: Seq<XfadeStep> = if base@.len() < 2 {
            Seq::empty()
        } else {
            choose|steps: Seq<XfadeStep>|
                steps_match(base@, base_ts@, steps) && graph@ == base_transition_graph(base@, steps, 0, 1280, 720)
        };
        let args = graph_encode_args(base_outs, graph, "[vout]", base_video.as_str());
        push_temporary(
            plan,
            PlanStep::Run { stage: String::from_str("base"), args, output: base_video.clone() },
            base_video.clone(),
        );
        assert(steps_match(base@, base_ts@, steps));
        assert(runs_of(plan.steps@) == runs_of(old(plan).steps@).push(
            base_pass_spec(base@, base_ts@, steps, list@, old(plan).work_dir@, base_video@),
        ));
    }
    Ok(())
}

/// `first` followed by `rest`.
fn prepend(first: &String, rest: &Vec<String>) -> (r: Vec<String>)
    ensures
        views(r@) == seq![first@] + views(rest@),
{
    let mut r: Vec<String> = Vec::new();
    r.push(first.clone());
    let n = rest.len();
    let mut i: usize = 0;
    while i < n
        invariant
            n == rest@.len(),
            i <= n,
            views(r@) == seq![first@] + views(rest@.subrange(0, i as int)),
        decreases n - i,
    {
        let ghost before = views(r@);
        r.push(rest[i].clone());
        proof {
            assert(views(r@) =~= before.push(rest@[i as int]@));
            assert(views(rest@.subrange(0, i + 1)) =~= views(rest@.subrange(0, i as int)).push(rest@[i as int]@));
        }
        i = i + 1;
        assert(views(r@) =~= seq![first@] + views(rest@.subrange(0, i as int)));
    }
    assert(rest@.subrange(0, n as int) =~= rest@);
    r
}

/// Multi-track: the base track rendered to an intermediate (concatenated,
/// or through an xfade chain when transitions apply to it), the overlays
/// trimmed, then one pass placing every overlay over the base.
#[verifier::rlimit(100)]
#[verifier::spinoff_prover]
fn plan_multitrack(
    plan: &mut ExportPlan,
    base: &Vec<ClipData>,
    overlays: &Vec<ClipData>,
    transitions: &Vec<TransitionData>,
    text_overlays: &Vec<TextOverlayData>,
    settings: &ExportSettings,
    temp_root: &str,
) -> (r: Result<(), ExportError>)
    requires
        plan_inv(*old(plan)),
        old(plan).percentage == 0,
        old(plan).output_path@ == settings.output_path@,
        forall|k: int| 0 <= k < transitions@.len() ==> #[trigger] xfade_name(transitions@[k].transition_type@) is Some,
        base@.len() > 0,
    ensures
        r is Ok,
        exists|steps: Seq<XfadeStep>|
            (base_transitions_spec(transitions@, base@).len() == 0 || steps_match(
                base@,
                base_transitions_spec(transitions@, base@),
                steps,
            )) && runs_of(final(plan).steps@) == runs_of(old(plan).steps@) + trims_spec(
                base@,
                old(plan).work_dir@,
                "clip"@,
            ) + seq![
                #[trigger] base_pass_spec(
                    base@,
                    base_transitions_spec(transitions@, base@),
                    steps,
                    temp_root@ + "/"@ + "clipforge_base_concat_list.txt"@,
                    old(plan).work_dir@,
                    old(plan).work_dir@ + "/"@ + "base_video.mp4"@,
                ),
            ] + trims_spec(overlays@, old(plan).work_dir@, "overlay"@) + seq![
                overlay_pass_spec(
                    overlays@,
                    post_filters_spec(settings.resolution, text_overlays@),
                    old(plan).work_dir@,
                    old(plan).work_dir@ + "/"@ + "base_video.mp4"@,
                    settings.output_path@,
                ),
            ],
        progresses_of(final(plan).steps@) == progresses_of(old(plan).steps@) + trim_progress(
            0,
            3000,
            base@.len(),
        ) + seq![3000u32, 4000u32] + trim_progress(4000, 6000, overlays@.len()) + seq![
            6000u32,
            8000u32,
            10000u32,
        ],
        writes_of(final(plan).steps@) == base_writes_spec(
            writes_of(old(plan).steps@),
            base_transitions_spec(transitions@, base@),
            temp_root@ + "/"@ + "clipforge_base_concat_list.txt"@,
            intermediates_spec(old(plan).work_dir@, "clip"@, base@.len()),
        ),
        plan_inv(*final(plan)),
        final(plan).percentage == 10000,
        final(plan).steps@.len() > old(plan).steps@.len(),
        progress_of(final(plan).steps@.last()) == Some(10000u32),
        forall|k: int| 0 <= k < old(plan).steps@.len() ==> #[trigger] final(plan).steps@[k] == old(plan).steps@[k],
        final(plan).work_dir == old(plan).work_dir,
        final(plan).output_path == old(plan).output_path,
        final(plan).strategy == old(plan).strategy,
{
    let work_dir = plan.work_dir.clone();
    let ghost runs0 = runs_of(plan.steps@);
    let base_outs = plan_trims(plan, base, work_dir.as_str(), "clip", 0, 3000, "Trimming clip");
    push_progress(plan, 3000, String::from_str("Concatenating base track..."));
    let ghost runs1 = runs_of(plan.steps@);
    let base_video = join_path(work_dir.as_str(), "base_video.mp4");
    let base_ts = base_transitions(transitions, base);
    proof {
        assert forall|k: int| 0 <= k < base_ts@.len() implies #[trigger] xfade_name(
            base_ts@[k].transition_type@,
        ) is Some by {
            assert(transitions@.contains(base_ts@[k]));
            let q = choose|q: int| 0 <= q < transitions@.len() && transitions@[q] == base_ts@[k];
            assert(xfade_name(transitions@[q].transition_type@) is Some);
        }
    }
    let list = join_path(temp_root, "clipforge_base_concat_list.txt");
    let ghost list_view = list@;
    assert(base_ts@ == base_transitions_spec(transitions@, base@));
    match plan_base_pass(plan, base, &base_outs, &base_ts, list, &base_video) {
        Ok(()) => {},
        Err(e) => {
            return Err(e);
        },
    }
    let ghost steps = choose|steps: Seq<XfadeStep>|
        (base_ts@.len() == 0 || steps_match(base@, base_ts@, steps)) && runs_of(plan.steps@) == runs1.push(
            base_pass_spec(base@, base_ts@, steps, list_view, work_dir@, base_video@),
        );
    let ghost runs2 = runs_of(plan.steps@);
    let ghost writes2 = writes_of(plan.steps@);
    let ghost progresses2 = progresses_of(plan.steps@);
    let mut i: usize = 0;
    while i < base_outs.len()
        invariant
            plan_inv(*plan),
            plan.percentage == 3000,
            i <= base_outs@.len(),
            runs_of(plan.steps@) == runs2,
            writes_of(plan.steps@) == writes2,
            progresses_of(plan.steps@) == progresses2,
            removed_after(*plan, base_video@),
            plan.steps@.len() >= old(plan).steps@.len(),
            forall|k: int| 0 <= k < old(plan).steps@.len() ==> #[trigger] plan.steps@[k] == old(plan).steps@[k],
            plan.work_dir == old(plan).work_dir,
            plan.output_path == old(plan).output_path,
            plan.strategy == old(plan).strategy,
        decreases base_outs@.len() - i,
    {
        push_quiet(plan, PlanStep::RemoveFile { path: base_outs[i].clone() });
        i = i + 1;
    }
    push_progress(plan, 4000, String::from_str("Processing overlay clips..."));
    let ov_outs = plan_trims(plan, overlays, work_dir.as_str(), "overlay", 4000, 6000, "Trimming overlay");
    push_progress(plan, 6000, String::from_str("Applying overlays..."));
    let post = post_filters(settings.resolution, text_overlays);
    let last = if post.len() > 0 {
        "[ovx]"
    } else {
        "[out]"
    };
    let (video, audio) = build_overlay_and_audio_filter(overlays, last);
    let graph = with_post_stage(video, &post, "[ovx]", "[out]", audio.as_str());
    let inputs = prepend(&base_video, &ov_outs);
    let args = graph_encode_args(&inputs, graph, "[out]", settings.output_path.as_str());
    assert(views(args@) == overlay_pass_spec(
        overlays@,
        post_filters_spec(settings.resolution, text_overlays@),
        work_dir@,
        base_video@,
        settings.output_path@,
    ));
    push_progress(plan, 8000, String::from_str("Encoding with overlays..."));
    let output = settings.output_path.clone();
    push_quiet(plan, PlanStep::Run { stage: String::from_str("overlays"), args, output });
    push_progress(plan, 10000, String::from_str("Complete!"));
    proof {
        assert(progresses_of(plan.steps@) =~= progresses_of(old(plan).steps@) + trim_progress(
            0,
            3000,
            base@.len(),
        ) + seq![3000u32, 4000u32] + trim_progress(4000, 6000, overlays@.len()) + seq![
            6000u32,
            8000u32,
            10000u32,
        ]);
        assert(runs_of(plan.steps@) =~= runs0 + trims_spec(base@, work_dir@, "clip"@) + seq![
            base_pass_spec(base@, base_ts@, steps, list_view, work_dir@, base_video@),
        ] + trims_spec(overlays@, work_dir@, "overlay"@) + seq![
            overlay_pass_spec(
                overlays@,
                post_filters_spec(settings.resolution, text_overlays@),
                work_dir@,
                base_video@,
                settings.output_path@,
            ),
        ]);
    }
    Ok(())
}

/// The clips on the base track (`base`) or on the overlay tracks, in order.
pub open spec fn clips_on_tracks_spec(clips: Seq<ClipData>, base: bool) -> Seq<ClipData>
    decreases clips.len(),
{
    if clips.len() == 0 {
        Seq::empty()
    } else {
        let kept = clips_on_tracks_spec(clips.drop_last(), base);
        if (clips.last().track == 0) == base {
            kept.push(clips.last())
        } else {
            kept
        }
    }
}

/// The transcoder runs of a fast-concat render of `sorted`.
pub open spec fn fast_concat_runs(
    sorted: Seq<ClipData>,
    post: Seq<Seq<char>>,
    temp_root: Seq<char>,
    output: Seq<char>,
) -> Seq<Seq<Seq<char>>> {
    trims_spec(sorted, temp_root + "/"@ + "clipforge_export"@, "clip"@) + seq![
        fast_concat_encode_spec(temp_root + "/"@ + "clipforge_concat_list.txt"@, post, output),
    ]
}

/// The transcoder runs of a with-transitions render of `sorted` through the
/// xfade links `steps`.
pub open spec fn transition_runs(
    sorted: Seq<ClipData>,
    steps: Seq<XfadeStep>,
    post: Seq<Seq<char>>,
    temp_root: Seq<char>,
    output: Seq<char>,
) -> Seq<Seq<Seq<char>>> {
    trims_spec(sorted, temp_root + "/"@ + "clipforge_export"@, "clip"@) + seq![
        transitions_pass_spec(sorted, steps, post, temp_root + "/"@ + "clipforge_export"@, output),
    ]
}

/// The transcoder runs of a multi-track render of the sorted base clips and
/// overlays, the base's transitions resolved to `steps`.
pub open spec fn multitrack_runs(
    base: Seq<ClipData>,
    overlays: Seq<ClipData>,
    base_ts: Seq<TransitionData>,
    steps: Seq<XfadeStep>,
    post: Seq<Seq<char>>,
    temp_root: Seq<char>,
    output: Seq<char>,
) -> Seq<Seq<Seq<char>>> {
    let dir = temp_root + "/"@ + "clipforge_export"@;
    trims_spec(base, dir, "clip"@) + seq![
        base_pass_spec(
            base,
            base_ts,
            steps,
            temp_root + "/"@ + "clipforge_base_concat_list.txt"@,
            dir,
            dir + "/"@ + "base_video.mp4"@,
        ),
    ] + trims_spec(overlays, dir, "overlay"@) + seq![
        overlay_pass_spec(overlays, post, dir, dir + "/"@ + "base_video.mp4"@, output),
    ]
}

/// A fast-concat plan of `clips`: the trims of the clips sorted by start,
/// then one encoding pass over their concat list, which is the one file
/// written.
pub open spec fn fast_concat_plan(
    plan: ExportPlan,
    clips: Seq<ClipData>,
    text_overlays: Seq<TextOverlayData>,
    settings: ExportSettings,
    temp_root: Seq<char>,
) -> bool {
    exists|sorted: Seq<ClipData>|
        stable_sorted(clips, sorted) && runs_of(plan.steps@) == #[trigger] fast_concat_runs(
            sorted,
            post_filters_spec(settings.resolution, text_overlays),
            temp_root,
            settings.output_path@,
        ) && writes_of(plan.steps@) == seq![
            (
                temp_root + "/"@ + "clipforge_concat_list.txt"@,
                concat_list_spec(intermediates_spec(plan.work_dir@, "clip"@, clips.len())),
            ),
        ] && progresses_of(plan.steps@) == seq![0u32] + trim_progress(0, 4000, clips.len()) + seq![
            4000u32,
            5000u32,
            9500u32,
            10000u32,
        ]
}

/// A with-transitions plan of `clips`: the trims of the clips sorted by
/// start, then one pass through their xfade chain; no file is written.
pub open spec fn transition_plan(
    plan: ExportPlan,
    clips: Seq<ClipData>,
    transitions: Seq<TransitionData>,
    text_overlays: Seq<TextOverlayData>,
    settings: ExportSettings,
    temp_root: Seq<char>,
) -> bool {
    &&& exists|sorted: Seq<ClipData>, steps: Seq<XfadeStep>|
        stable_sorted(clips, sorted) && steps_match(sorted, transitions, steps) && runs_of(plan.steps@)
            == #[trigger] transition_runs(
            sorted,
            steps,
            post_filters_spec(settings.resolution, text_overlays),
            temp_root,
            settings.output_path@,
        )
    &&& writes_of(plan.steps@).len() == 0
    &&& progresses_of(plan.steps@) == seq![0u32] + trim_progress(0, 4000, clips.len()) + seq![
        4000u32,
        5000u32,
        9500u32,
        10000u32,
    ]
}

/// A multi-track plan of `clips`: the base track sorted, trimmed and
/// rendered (through its transitions if any apply), the overlays sorted and
/// trimmed, then one pass placing them over the base; the one file written
/// is the base's concat list when no transition applies to it.
pub open spec fn multitrack_plan(
    plan: ExportPlan,
    clips: Seq<ClipData>,
    transitions: Seq<TransitionData>,
    text_overlays: Seq<TextOverlayData>,
    settings: ExportSettings,
    temp_root: Seq<char>,
) -> bool {
    exists|base: Seq<ClipData>, overlays: Seq<ClipData>, steps: Seq<XfadeStep>|
        stable_sorted(clips_on_tracks_spec(clips, true), base) && stable_sorted(
            clips_on_tracks_spec(clips, false),
            overlays,
        ) && (base_transitions_spec(transitions, base).len() == 0 || steps_match(
            base,
            base_transitions_spec(transitions, base),
            steps,
        )) && runs_of(plan.steps@) == #[trigger] multitrack_runs(
            base,
            overlays,
            base_transitions_spec(transitions, base),
            steps,
            post_filters_spec(settings.resolution, text_overlays),
            temp_root,
            settings.output_path@,
        ) && writes_of(plan.steps@) == base_writes_spec(
            Seq::empty(),
            base_transitions_spec(transitions, base),
            temp_root + "/"@ + "clipforge_base_concat_list.txt"@,
            intermediates_spec(plan.work_dir@, "clip"@, base.len()),
        ) && progresses_of(plan.steps@) == seq![0u32] + trim_progress(0, 3000, base.len()) + seq![
            3000u32,
            4000u32,
        ] + trim_progress(4000, 6000, overlays.len()) + seq![6000u32, 8000u32, 10000u32]
}

/// Some clip lies on the base track.
pub open spec fn has_base_clip(clips: Seq<ClipData>) -> bool {
    exists|i: int| 0 <= i < clips.len() && #[trigger] clips[i].track == 0
}

proof fn lemma_trim_progress_bounds(lo: int, hi: int, n: nat)
    requires
        0 <= lo <= hi <= 10000,
    ensures
        forall|i: int| 0 <= i < n ==> lo <= #[trigger] trim_progress(lo, hi, n)[i] <= hi,
{
    assert forall|i: int| 0 <= i < n implies lo <= #[trigger] trim_progress(lo, hi, n)[i] <= hi by {
        assert(0 <= (hi - lo) * i) by (nonlinear_arith)
            requires
                hi - lo >= 0,
                i >= 0,
        ;
        assert((hi - lo) * i <= (hi - lo) * n) by (nonlinear_arith)
            requires
                hi - lo >= 0,
                i <= n,
        ;
        assert(((hi - lo) * i) / (n as int) <= ((hi - lo) * n) / (n as int)) by (nonlinear_arith)
            requires
                (hi - lo) * i <= (hi - lo) * n,
                n > 0,
        ;
        assert(((hi - lo) * n) / (n as int) == hi - lo) by (nonlinear_arith)
            requires
                n > 0,
        ;
        assert(0 <= ((hi - lo) * i) / (n as int)) by (nonlinear_arith)
            requires
                0 <= (hi - lo) * i,
                n > 0,
        ;
    }
}

/// In a planned render only the last report says 100%: a render that stops
/// at a failing step has reported less, and one that ran every step ends
/// at exactly 100%.
pub proof fn lemma_full_progress_only_at_end(
    plan: ExportPlan,
    clips: Seq<ClipData>,
    transitions: Seq<TransitionData>,
    text_overlays: Seq<TextOverlayData>,
    settings: ExportSettings,
    temp_root: Seq<char>,
)
    requires
        fast_concat_plan(plan, clips, text_overlays, settings, temp_root) || transition_plan(
            plan,
            clips,
            transitions,
            text_overlays,
            settings,
            temp_root,
        ) || multitrack_plan(plan, clips, transitions, text_overlays, settings, temp_root),
    ensures
        progresses_of(plan.steps@).len() > 0,
        progresses_of(plan.steps@).last() == 10000,
        forall|i: int|
            0 <= i < progresses_of(plan.steps@).len() - 1 ==> #[trigger] progresses_of(plan.steps@)[i]
                < 10000,
{
    let p = progresses_of(plan.steps@);
    if fast_concat_plan(plan, clips, text_overlays, settings, temp_root) || transition_plan(
        plan,
        clips,
        transitions,
        text_overlays,
        settings,
        temp_root,
    ) {
        let t = trim_progress(0, 4000, clips.len());
        lemma_trim_progress_bounds(0, 4000, clips.len());
        assert(p == seq![0u32] + t + seq![4000u32, 5000u32, 9500u32, 10000u32]);
        assert forall|i: int| 0 <= i < p.len() - 1 implies #[trigger] p[i] < 10000 by {
            if 1 <= i < 1 + t.len() {
                assert(p[i] == t[i - 1]);
            }
        }
    } else {
        let (base, overlays, steps) = choose|base: Seq<ClipData>, overlays: Seq<ClipData>, steps: Seq<XfadeStep>|
            stable_sorted(clips_on_tracks_spec(clips, true), base) && stable_sorted(
                clips_on_tracks_spec(clips, false),
                overlays,
            ) && (base_transitions_spec(transitions, base).len() == 0 || steps_match(
                base,
                base_transitions_spec(transitions, base),
                steps,
            )) && runs_of(plan.steps@) == #[trigger] multitrack_runs(
                base,
                overlays,
                base_transitions_spec(transitions, base),
                steps,
                post_filters_spec(settings.resolution, text_overlays),
                temp_root,
                settings.output_path@,
            ) && writes_of(plan.steps@) == base_writes_spec(
                Seq::empty(),
                base_transitions_spec(transitions, base),
                temp_root + "/"@ + "clipforge_base_concat_list.txt"@,
                intermediates_spec(plan.work_dir@, "clip"@, base.len()),
            ) && progresses_of(plan.steps@) == seq![0u32] + trim_progress(0, 3000, base.len()) + seq![
                3000u32,
                4000u32,
            ] + trim_progress(4000, 6000, overlays.len()) + seq![6000u32, 8000u32, 10000u32];
        let t1 = trim_progress(0, 3000, base.len());
        let t2 = trim_progress(4000, 6000, overlays.len());
        lemma_trim_progress_bounds(0, 3000, base.len());
        lemma_trim_progress_bounds(4000, 6000, overlays.len());
        assert forall|i: int| 0 <= i < p.len() - 1 implies #[trigger] p[i] < 10000 by {
            if 1 <= i < 1 + t1.len() {
                assert(p[i] == t1[i - 1]);
            } else if 3 + t1.len() <= i < 3 + t1.len() + t2.len() {
                assert(p[i] == t2[i - 3 - t1.len()]);
            }
        }
    }
}

/// Requirements shared by the strategy steps: a fresh plan that has
/// reported 0% and made its work directory.
pub open spec fn plan_started(plan: ExportPlan, output: Seq<char>, temp_root: Seq<char>) -> bool {
    &&& plan_inv(plan)
    &&& plan.percentage == 0
    &&& plan.output_path@ == output
    &&& plan.work_dir@ == temp_root + "/"@ + "clipforge_export"@
    &&& runs_of(plan.steps@).len() == 0
    &&& writes_of(plan.steps@).len() == 0
    &&& progresses_of(plan.steps@) == seq![0u32]
}

/// What every strategy step leaves: a consistent plan ending at 100%,
/// with its earlier steps kept.
pub open spec fn plan_finished(before: ExportPlan, after: ExportPlan) -> bool {
    &&& plan_inv(after)
    &&& after.percentage == 10000
    &&& after.steps@.len() > before.steps@.len()
    &&& progress_of(after.steps@.last()) == Some(10000u32)
    &&& forall|k: int| 0 <= k < before.steps@.len() ==> #[trigger] after.steps@[k] == before.steps@[k]
    &&& after.work_dir == before.work_dir
    &&& after.output_path == before.output_path
    &&& after.strategy == before.strategy
}

/// The fast-concat steps of a started plan.
#[verifier::rlimit(50)]
fn export_fast_concat(
    plan: &mut ExportPlan,
    clips: &Vec<ClipData>,
    text_overlays: &Vec<TextOverlayData>,
    settings: &ExportSettings,
    temp_root: &str,
)
    requires
        plan_started(*old(plan), settings.output_path@, temp_root@),
    ensures
        plan_finished(*old(plan), *final(plan)),
        fast_concat_plan(*final(plan), clips@, text_overlays@, *settings, temp_root@),
{
    let sorted = sort_by_start(clips);
    let ghost work_view = plan.work_dir@;
    plan_fast_concat(plan, &sorted, text_overlays, settings, temp_root);
    assert(runs_of(plan.steps@) =~= fast_concat_runs(
        sorted@,
        post_filters_spec(settings.resolution, text_overlays@),
        temp_root@,
        settings.output_path@,
    ));
    assert(writes_of(plan.steps@) =~= seq![
        (
            temp_root@ + "/"@ + "clipforge_concat_list.txt"@,
            concat_list_spec(intermediates_spec(work_view, "clip"@, clips@.len())),
        ),
    ]);
    assert(progresses_of(plan.steps@) =~= seq![0u32] + trim_progress(0, 4000, clips@.len()) + seq![
        4000u32,
        5000u32,
        9500u32,
        10000u32,
    ]);
}

/// The with-transitions steps of a started plan.
#[verifier::rlimit(50)]
fn export_with_transitions(
    plan: &mut ExportPlan,
    clips: &Vec<ClipData>,
    transitions: &Vec<TransitionData>,
    text_overlays: &Vec<TextOverlayData>,
    settings: &ExportSettings,
    temp_root: &str,
) -> (r: Result<(), ExportError>)
    requires
        plan_started(*old(plan), settings.output_path@, temp_root@),
        clips@.len() > 0,
        forall|k: int| 0 <= k < transitions@.len() ==> #[trigger] xfade_name(transitions@[k].transition_type@) is Some,
    ensures
        r is Ok,
        plan_finished(*old(plan), *final(plan)),
        transition_plan(*final(plan), clips@, transitions@, text_overlays@, *settings, temp_root@),
{
    let sorted = sort_by_start(clips);
    let ghost work_view = plan.work_dir@;
    let ghost runs0 = runs_of(plan.steps@);
    proof {
        lemma_steps_resolve(sorted@, transitions@);
    }
    match plan_with_transitions(plan, &sorted, transitions, text_overlays, settings) {
        Ok(()) => {},
        Err(e) => {
            return Err(e);
        },
    }
    proof {
        let steps = choose|steps: Seq<XfadeStep>|
            steps_match(sorted@, transitions@, steps) && runs_of(plan.steps@) == runs0 + trims_spec(
                sorted@,
                work_view,
                "clip"@,
            ) + seq![
                transitions_pass_spec(
                    sorted@,
                    steps,
                    post_filters_spec(settings.resolution, text_overlays@),
                    work_view,
                    settings.output_path@,
                ),
            ];
        assert(runs_of(plan.steps@) =~= transition_runs(
            sorted@,
            steps,
            post_filters_spec(settings.resolution, text_overlays@),
            temp_root@,
            settings.output_path@,
        ));
        assert(progresses_of(plan.steps@) =~= seq![0u32] + trim_progress(0, 4000, clips@.len()) + seq![
            4000u32,
            5000u32,
            9500u32,
            10000u32,
        ]);
    }
    Ok(())
}

/// The multi-track steps of a started plan; fails without base clips.
#[verifier::rlimit(100)]
#[verifier::spinoff_prover]
fn export_multitrack(
    plan: &mut ExportPlan,
    clips: &Vec<ClipData>,
    transitions: &Vec<TransitionData>,
    text_overlays: &Vec<TextOverlayData>,
    settings: &ExportSettings,
    temp_root: &str,
) -> (r: Result<(), ExportError>)
    requires
        plan_started(*old(plan), settings.output_path@, temp_root@),
        forall|k: int| 0 <= k < transitions@.len() ==> #[trigger] xfade_name(transitions@[k].transition_type@) is Some,
    ensures
        r is Ok <==> has_base_clip(clips@),
        r matches Err(e) ==> e is NoBaseTrack,
        r is Ok ==> plan_finished(*old(plan), *final(plan)),
        r is Ok ==> multitrack_plan(*final(plan), clips@, transitions@, text_overlays@, *settings, temp_root@),
{
    let base_unsorted = clips_on_tracks(clips, true);
    if base_unsorted.len() == 0 {
        return Err(ExportError::NoBaseTrack);
    }
    let overlay_unsorted = clips_on_tracks(clips, false);
    let base = sort_by_start(&base_unsorted);
    let overlays = sort_by_start(&overlay_unsorted);
    let ghost work_view = plan.work_dir@;
    let ghost runs0 = runs_of(plan.steps@);
    let ghost writes0 = writes_of(plan.steps@);
    proof {
        let order = choose|order: Seq<int>|
            crate::timeline::start_order(base_unsorted@, order) && base@.len() == base_unsorted@.len() && forall|k: int|
                0 <= k < base@.len() ==> #[trigger] base@[k] == base_unsorted@[order[k]];
        assert(base@.len() > 0);
    }
    match plan_multitrack(plan, &base, &overlays, transitions, text_overlays, settings, temp_root) {
        Ok(()) => {},
        Err(e) => {
            return Err(e);
        },
    }
    proof {
        let steps = choose|steps: Seq<XfadeStep>|
            (base_transitions_spec(transitions@, base@).len() == 0 || steps_match(
                base@,
                base_transitions_spec(transitions@, base@),
                steps,
            )) && runs_of(plan.steps@) == runs0 + trims_spec(base@, work_view, "clip"@) + seq![
                #[trigger] base_pass_spec(
                    base@,
                    base_transitions_spec(transitions@, base@),
                    steps,
                    temp_root@ + "/"@ + "clipforge_base_concat_list.txt"@,
                    work_view,
                    work_view + "/"@ + "base_video.mp4"@,
                ),
            ] + trims_spec(overlays@, work_view, "overlay"@) + seq![
                overlay_pass_spec(
                    overlays@,
                    post_filters_spec(settings.resolution, text_overlays@),
                    work_view,
                    work_view + "/"@ + "base_video.mp4"@,
                    settings.output_path@,
                ),
            ];
        assert(runs_of(plan.steps@) =~= multitrack_runs(
            base@,
            overlays@,
            base_transitions_spec(transitions@, base@),
            steps,
            post_filters_spec(settings.resolution, text_overlays@),
            temp_root@,
            settings.output_path@,
        ));
        assert(writes0 =~= Seq::<(Seq<char>, Seq<char>)>::empty());
        assert(progresses_of(plan.steps@) =~= seq![0u32] + trim_progress(0, 3000, base@.len()) + seq![
            3000u32,
            4000u32,
        ] + trim_progress(4000, 6000, overlays@.len()) + seq![6000u32, 8000u32, 10000u32]);
    }
    Ok(())
}

/// Plans the render of a timeline. `sources_present[i]` tells whether clip
/// `i`'s source exists; intermediates go to `<temp_root>/clipforge_export`,
/// concat lists to `temp_root`.
///
/// Fails, in this order, with the first validation error, then, for a
/// multi-track timeline without base clips, with `NoBaseTrack`. Otherwise
/// the plan follows the timeline's strategy, reports 0% first and 100%
/// last with nothing decreasing in between, writes to the settings' output,
/// and names for removal every path it creates but the output.
#[verifier::rlimit(50)]
pub fn plan_export(
    clips: &Vec<ClipData>,
    transitions: &Vec<TransitionData>,
    text_overlays: &Vec<TextOverlayData>,
    settings: &ExportSettings,
    sources_present: &Vec<bool>,
    temp_root: &str,
) -> (r: Result<ExportPlan, ExportError>)
    requires
        sources_present@.len() == clips@.len(),
    ensures
        !validation_ok(clips@, transitions@, sources_present@) ==> (r matches Err(e)
            && validation_error(clips@, transitions@, sources_present@, e)),
        validation_ok(clips@, transitions@, sources_present@) && classify_spec(clips@, transitions@.len())
            is MultiTrack && !has_base_clip(clips@) ==> (r matches Err(e) && e is NoBaseTrack),
        validation_ok(clips@, transitions@, sources_present@) && !(classify_spec(
            clips@,
            transitions@.len(),
        ) is MultiTrack && !has_base_clip(clips@)) ==> r is Ok,
        r matches Ok(plan) ==> plan_complete(plan) && plan.output_path@ == settings.output_path@
            && plan.strategy == classify_spec(clips@, transitions@.len()) && plan.work_dir@ == temp_root@
            + "/"@ + "clipforge_export"@,
        r matches Ok(plan) ==> (plan.strategy is FastConcat ==> fast_concat_plan(
            plan,
            clips@,
            text_overlays@,
            *settings,
            temp_root@,
        )),
        r matches Ok(plan) ==> (plan.strategy is WithTransitions ==> transition_plan(
            plan,
            clips@,
            transitions@,
            text_overlays@,
            *settings,
            temp_root@,
        )),
        r matches Ok(plan) ==> (plan.strategy is MultiTrack ==> multitrack_plan(
            plan,
            clips@,
            transitions@,
            text_overlays@,
            *settings,
            temp_root@,
        )),
{
    match validate_timeline(clips, transitions, sources_present) {
        Ok(()) => {},
        Err(e) => {
            return Err(e);
        },
    }
    proof {
        assert forall|k: int| 0 <= k < transitions@.len() implies #[trigger] xfade_name(
            transitions@[k].transition_type@,
        ) is Some by {
            assert(transition_ok(clips@, transitions@, k));
        }
    }
    let strategy = classify(clips, transitions);
    let work_dir = join_path(temp_root, "clipforge_export");
    let ghost work_view = work_dir@;
    let mut plan = new_plan(strategy, work_dir.clone(), settings.output_path.clone());
    push_progress(&mut plan, 0, String::from_str("Starting export..."));
    push_quiet(&mut plan, PlanStep::CreateDir { path: work_dir });
    let ghost head = plan.steps@;
    proof {
        assert(head.len() == 2);
        assert(head.drop_last().drop_last() =~= Seq::<PlanStep>::empty());
        assert(runs_of(head.drop_last().drop_last()) == Seq::<Seq<Seq<char>>>::empty());
        assert(runs_of(head) == Seq::<Seq<Seq<char>>>::empty());
        assert(writes_of(head.drop_last().drop_last()) == Seq::<(Seq<char>, Seq<char>)>::empty());
        assert(writes_of(head) == Seq::<(Seq<char>, Seq<char>)>::empty());
        assert(progresses_of(head.drop_last().drop_last()) == Seq::<u32>::empty());
        assert(progresses_of(head) =~= seq![0u32]);
    }
    match strategy {
        Strategy::FastConcat => {
            export_fast_concat(&mut plan, clips, text_overlays, settings, temp_root);
        },
        Strategy::WithTransitions => {
            match export_with_transitions(&mut plan, clips, transitions, text_overlays, settings, temp_root) {
                Ok(()) => {},
                Err(e) => {
                    return Err(e);
                },
            }
        },
        Strategy::MultiTrack => {
            match export_multitrack(&mut plan, clips, transitions, text_overlays, settings, temp_root) {
                Ok(()) => {},
                Err(e) => {
                    return Err(e);
                },
            }
        },
    }
    assert(plan.steps@[0] == head[0]);
    Ok(plan)
}

} // verus!
