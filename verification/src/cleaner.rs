use vstd::prelude::*;

use crate::config::Config;
use crate::project::analyzers::DetectorKind;
use crate::project::{CleanTargetView, Project, ProjectView, TargetType, TargetTypeView};

verus! {

/// Running totals of one cleaning batch, read-only once finalized.
#[derive(Debug, Clone, PartialEq, Eq, Structural)]
pub struct CleanResults {
    pub total_projects: usize,
    pub cleaned_projects: usize,
    pub failed_projects: usize,
    pub total_targets: usize,
    pub cleaned_targets: usize,
    pub failed_targets: usize,
    pub total_bytes_removed: u64,
}

impl CleanResults {
    /// The totals of a batch over `total_projects` projects in which nothing
    /// was attempted: the plan was empty, or the user declined.
    pub fn empty(total_projects: usize) -> (r: CleanResults)
        ensures
            r.total_projects == total_projects,
            r.cleaned_projects == 0,
            r.failed_projects == 0,
            r.total_targets == 0,
            r.cleaned_targets == 0,
            r.failed_targets == 0,
            r.total_bytes_removed == 0,
    {
        CleanResults {
            total_projects,
            cleaned_projects: 0,
            failed_projects: 0,
            total_targets: 0,
            cleaned_targets: 0,
            failed_targets: 0,
            total_bytes_removed: 0,
        }
    }
}

/// What the executor is to do with one target.
#[derive(Debug, Clone, PartialEq, Eq, Structural)]
pub enum TargetAction {
    /// The target's type switch is off: leave it alone.
    Skip,
    /// Dry-run mode: count it as cleaned, touch nothing.
    Simulate,
    /// Remove the directory.
    Remove,
}

/// What became of one target after execution.
#[derive(Debug, Clone, PartialEq, Eq, Structural)]
pub enum TargetOutcome {
    Skipped,
    Simulated,
    Removed,
    Failed,
}

/// One target with the action the plan assigns it.
#[derive(Debug, Clone)]
pub struct PlannedTarget {
    pub path: String,
    pub target_type: TargetType,
    pub size: Option<u64>,
    pub action: TargetAction,
}

/// Mathematical image of a [`PlannedTarget`].
#[verifier::ext_equal]
pub struct PlannedTargetView {
    pub path: Seq<char>,
    pub target_type: TargetTypeView,
    pub size: Option<u64>,
    pub action: TargetAction,
}

impl View for PlannedTarget {
    type V = PlannedTargetView;

    open spec fn view(&self) -> PlannedTargetView {
        PlannedTargetView {
            path: self.path@,
            target_type: self.target_type@,
            size: self.size,
            action: self.action,
        }
    }
}

/// The planned actions for one project, in fixed phase order.
#[derive(Debug, Clone)]
pub struct ProjectPlan {
    pub project_path: String,
    pub targets: Vec<PlannedTarget>,
}

/// Mathematical image of a [`ProjectPlan`].
#[verifier::ext_equal]
pub struct ProjectPlanView {
    pub project_path: Seq<char>,
    pub targets: Seq<PlannedTargetView>,
}

impl View for ProjectPlan {
    type V = ProjectPlanView;

    open spec fn view(&self) -> ProjectPlanView {
        ProjectPlanView {
            project_path: self.project_path@,
            targets: self.targets@.map_values(|t: PlannedTarget| t@),
        }
    }
}

/// The whole batch's plan.
#[derive(Debug, Clone)]
pub struct CleanPlan {
    pub needs_confirmation: bool,
    pub projects: Vec<ProjectPlan>,
}

/// Whether the configuration enables cleaning targets of this type; custom
/// targets are always eligible.
pub open spec fn should_clean_spec(config: Config, t: TargetTypeView) -> bool {
    match t {
        TargetTypeView::NodeModules => config.clean_node_modules,
        TargetTypeView::BuildDir => config.clean_build_dirs,
        TargetTypeView::CacheDir => config.clean_cache_dirs,
        TargetTypeView::Coverage => config.clean_coverage_dirs,
        TargetTypeView::Custom(_) => true,
    }
}

/// Whether the configuration enables cleaning targets of this type.
pub fn should_clean_target(config: &Config, t: &TargetType) -> (r: bool)
    ensures
        r == should_clean_spec(*config, t@),
{
    match t {
        TargetType::NodeModules => config.clean_node_modules,
        TargetType::BuildDir => config.clean_build_dirs,
        TargetType::CacheDir => config.clean_cache_dirs,
        TargetType::Coverage => config.clean_coverage_dirs,
        TargetType::Custom(_) => true,
    }
}

/// The action the plan assigns a target of type `t`: skipped where its
/// switch is off, simulated in dry-run mode, removed otherwise.
pub open spec fn action_spec(config: Config, t: TargetTypeView) -> TargetAction {
    if !should_clean_spec(config, t) {
        TargetAction::Skip
    } else if config.dry_run {
        TargetAction::Simulate
    } else {
        TargetAction::Remove
    }
}

/// The planned version of one detected target list.
pub open spec fn plan_targets_spec(config: Config, targets: Seq<CleanTargetView>) -> Seq<
    PlannedTargetView,
> {
    targets.map_values(
        |t: CleanTargetView|
            PlannedTargetView {
                path: t.path,
                target_type: t.target_type,
                size: t.size,
                action: action_spec(config, t.target_type),
            },
    )
}

/// The plan for a batch of projects.
pub open spec fn plan_model(config: Config, projects: Seq<ProjectView>) -> Seq<ProjectPlanView> {
    projects.map_values(
        |p: ProjectView|
            ProjectPlanView {
                project_path: p.path,
                targets: plan_targets_spec(config, p.detected_targets),
            },
    )
}

/// Carries out (or simulates) removal over a batch of projects: it turns the
/// batch into a plan, and folds per-target outcomes into result totals.  The
/// removals themselves are the caller's: the engine only decides and counts.
pub struct Cleaner {
    pub config: Config,
    pub additional_detectors: Vec<DetectorKind>,
}

impl Cleaner {
    /// A cleaner governed by `config`, with no plugin detectors yet.
    pub fn new(config: Config) -> (r: Cleaner)
        ensures
            r.config == config,
            r.additional_detectors@ == Seq::<DetectorKind>::empty(),
    {
        Cleaner { config, additional_detectors: Vec::new() }
    }

    /// Adds detectors contributed by plugins.
    pub fn add_detectors(&mut self, detectors: Vec<DetectorKind>)
        ensures
            final(self).config == old(self).config,
            final(self).additional_detectors@ == old(self).additional_detectors@ + detectors@,
    {
        let mut extra = detectors;
        self.additional_detectors.append(&mut extra);
    }

    /// Turns a batch of analyzed projects into the plan the executor follows:
    /// one entry per project, one action per detected target, and whether an
    /// interactive confirmation is owed before anything is removed.
    pub fn plan(&self, projects: &Vec<Project>) -> (r: CleanPlan)
        ensures
            r.needs_confirmation == (!self.config.force && !self.config.dry_run),
            r.projects@.map_values(|p: ProjectPlan| p@) == plan_model(
                self.config,
                projects@.map_values(|p: Project| p@),
            ),
    {
        let ghost views = projects@.map_values(|p: Project| p@);
        let mut plans: Vec<ProjectPlan> = Vec::new();
        let mut i: usize = 0;
        let n = projects.len();
        while i < n
            invariant
                0 <= i <= n,
                n == projects@.len(),
                views == projects@.map_values(|p: Project| p@),
                plans@.len() == i,
                plans@.map_values(|p: ProjectPlan| p@) =~~= plan_model(
                    self.config,
                    views.subrange(0, i as int),
                ),
            decreases n - i,
        {
            let project = &projects[i];
            let mut targets: Vec<PlannedTarget> = Vec::new();
            let mut j: usize = 0;
            let tn = project.detected_targets.len();
            while j < tn
                invariant
                    0 <= j <= tn,
                    tn == project.detected_targets@.len(),
                    project@ == views[i as int],
                    0 <= i < n,
                    n == views.len(),
                    targets@.len() == j,
                    targets@.map_values(|t: PlannedTarget| t@) =~~= plan_targets_spec(
                        self.config,
                        project@.detected_targets.subrange(0, j as int),
                    ),
                decreases tn - j,
            {
                let t = &project.detected_targets[j];
                let eligible = should_clean_target(&self.config, &t.target_type);
                let action = if !eligible {
                    TargetAction::Skip
                } else if self.config.dry_run {
                    TargetAction::Simulate
                } else {
                    TargetAction::Remove
                };
                let path_copy = t.path.as_str().to_owned();
                let type_copy = t.target_type.clone_target_type();
                let fresh = PlannedTarget {
                    path: path_copy,
                    target_type: type_copy,
                    size: t.size,
                    action,
                };
                let ghost fresh_view = fresh@;
                let ghost old_targets = targets@;
                targets.push(fresh);
                proof {
                    let tview = project@.detected_targets[j as int];
                    assert(tview == project.detected_targets@[j as int]@);
                    assert(*t == project.detected_targets@[j as int]);
                    assert(fresh_view.path == tview.path);
                    assert(fresh_view.target_type == tview.target_type);
                    assert(fresh_view.size == tview.size);
                    assert(fresh_view.action == action_spec(self.config, tview.target_type));
                    assert(targets@[j as int] == fresh);
                    assert(targets@[j as int]@ =~= PlannedTargetView {
                        path: tview.path,
                        target_type: tview.target_type,
                        size: tview.size,
                        action: action_spec(self.config, tview.target_type),
                    });
                    let lhs = targets@.map_values(|t: PlannedTarget| t@);
                    let rhs = plan_targets_spec(
                        self.config,
                        project@.detected_targets.subrange(0, j + 1),
                    );
                    assert(lhs.len() == j + 1);
                    assert(rhs.len() == j + 1);
                    assert forall|k: int| 0 <= k < j + 1 implies lhs[k] =~= rhs[k] by {
                        assert(project@.detected_targets.subrange(0, j + 1)[k] == project@
                            .detected_targets[k]);
                        assert(project@.detected_targets.subrange(0, j as int).len() == j);
                        if k < j {
                            assert(project@.detected_targets.subrange(0, j as int)[k] == project@
                                .detected_targets[k]);
                            assert(targets@[k] == old_targets[k]);
                            assert(old_targets.map_values(|t: PlannedTarget| t@)[k] == plan_targets_spec(
                                self.config,
                                project@.detected_targets.subrange(0, j as int),
                            )[k]);
                        }
                    }
                    assert(lhs =~~= rhs);
                }
                j = j + 1;
            }
            proof {
                assert(project@.detected_targets.subrange(
                    0,
                    project.detected_targets@.len() as int,
                ) =~= project@.detected_targets);
            }
            let path_copy = project.path.as_str().to_owned();
            let ghost targets_view = targets@;
            let ghost old_plans = plans@;
            plans.push(ProjectPlan { project_path: path_copy, targets });
            proof {
                let lhs = plans@.map_values(|p: ProjectPlan| p@);
                let rhs = plan_model(self.config, views.subrange(0, i + 1));
                assert(views.subrange(0, i + 1).len() == i + 1);
                assert(lhs.len() == i + 1);
                assert(rhs.len() == i + 1);
                assert(plans@[i as int]@.project_path == views[i as int].path);
                assert(plans@[i as int]@.targets == targets_view.map_values(
                    |t: PlannedTarget| t@,
                ));
                assert forall|k: int| 0 <= k < i + 1 implies lhs[k] =~= rhs[k] by {
                    assert(views.subrange(0, i + 1)[k] == views[k]);
                    if k < i {
                        assert(plans@[k] == old_plans[k]);
                        assert(views.subrange(0, i as int)[k] == views[k]);
                        assert(old_plans.map_values(|p: ProjectPlan| p@)[k] == plan_model(
                            self.config,
                            views.subrange(0, i as int),
                        )[k]);
                    } else {
                        assert(lhs[k] =~~= rhs[k]);
                    }
                }
                assert(lhs =~~= rhs);
            }
            i = i + 1;
        }
        proof {
            assert(views.subrange(0, n as int) =~= views);
        }
        CleanPlan {
            needs_confirmation: !self.config.force && !self.config.dry_run,
            projects: plans,
        }
    }
}

/// Whether the outcome counts as cleaned: simulated or actually removed.
pub open spec fn outcome_cleaned(o: TargetOutcome) -> bool {
    o == TargetOutcome::Simulated || o == TargetOutcome::Removed
}

/// Whether an outcome is one the action can produce: a skipped target stays
/// skipped, a simulated one simulated, and a removal succeeds or fails.
pub open spec fn outcome_allowed(a: TargetAction, o: TargetOutcome) -> bool {
    match a {
        TargetAction::Skip => o == TargetOutcome::Skipped,
        TargetAction::Simulate => o == TargetOutcome::Simulated,
        TargetAction::Remove => o == TargetOutcome::Removed || o == TargetOutcome::Failed,
    }
}

/// Whether `outcomes` has the shape of the plan, one allowed outcome per
/// planned target.
pub open spec fn outcomes_match(
    plans: Seq<ProjectPlanView>,
    outcomes: Seq<Seq<TargetOutcome>>,
) -> bool {
    &&& outcomes.len() == plans.len()
    &&& forall|i: int|
        0 <= i < plans.len() ==> (#[trigger] outcomes[i]).len() == plans[i].targets.len()
    &&& forall|i: int, j: int|
        0 <= i < plans.len() && 0 <= j < plans[i].targets.len() ==> outcome_allowed(
            plans[i].targets[j].action,
            #[trigger] outcomes[i][j],
        )
}

/// Number of targets of the batch.
pub open spec fn count_targets(plans: Seq<ProjectPlanView>) -> int
    decreases plans.len(),
{
    if plans.len() == 0 {
        0
    } else {
        plans[0].targets.len() + count_targets(plans.drop_first())
    }
}

/// Number of outcomes of one project satisfying `p`.
pub open spec fn count_row(row: Seq<TargetOutcome>, p: spec_fn(TargetOutcome) -> bool) -> int
    decreases row.len(),
{
    if row.len() == 0 {
        0
    } else {
        (if p(row[0]) {
            1int
        } else {
            0int
        }) + count_row(row.drop_first(), p)
    }
}

/// Number of outcomes of the batch satisfying `p`.
pub open spec fn count_all(
    outcomes: Seq<Seq<TargetOutcome>>,
    p: spec_fn(TargetOutcome) -> bool,
) -> int
    decreases outcomes.len(),
{
    if outcomes.len() == 0 {
        0
    } else {
        count_row(outcomes[0], p) + count_all(outcomes.drop_first(), p)
    }
}

/// The size a target contributes to the byte totals: its measured size, or
/// zero where none was measured.
pub open spec fn size_or_zero(size: Option<u64>) -> int {
    match size {
        Some(s) => s as int,
        None => 0,
    }
}

/// Bytes counted as removed in one project: the sizes of its targets whose
/// outcome counts as cleaned.
pub open spec fn bytes_row(targets: Seq<PlannedTargetView>, row: Seq<TargetOutcome>) -> int
    decreases row.len(),
{
    if row.len() == 0 || targets.len() == 0 {
        0
    } else {
        (if outcome_cleaned(row[0]) {
            size_or_zero(targets[0].size)
        } else {
            0int
        }) + bytes_row(targets.drop_first(), row.drop_first())
    }
}

/// Bytes counted as removed over the batch.
pub open spec fn bytes_all(plans: Seq<ProjectPlanView>, outcomes: Seq<Seq<TargetOutcome>>) -> int
    decreases outcomes.len(),
{
    if outcomes.len() == 0 || plans.len() == 0 {
        0
    } else {
        bytes_row(plans[0].targets, outcomes[0]) + bytes_all(
            plans.drop_first(),
            outcomes.drop_first(),
        )
    }
}

/// `x`, capped at the largest value a `usize` can hold.
pub open spec fn cap_usize(x: int) -> int {
    if x > usize::MAX as int {
        usize::MAX as int
    } else {
        x
    }
}

/// Bytes the plan proposes to free: the sizes of the targets whose action is
/// not a skip.
pub open spec fn eligible_bytes_row(targets: Seq<PlannedTargetView>) -> int
    decreases targets.len(),
{
    if targets.len() == 0 {
        0
    } else {
        (if targets[0].action != TargetAction::Skip {
            size_or_zero(targets[0].size)
        } else {
            0int
        }) + eligible_bytes_row(targets.drop_first())
    }
}

/// Bytes the plan proposes to free over the batch.
pub open spec fn eligible_bytes(plans: Seq<ProjectPlanView>) -> int
    decreases plans.len(),
{
    if plans.len() == 0 {
        0
    } else {
        eligible_bytes_row(plans[0].targets) + eligible_bytes(plans.drop_first())
    }
}

/// The batch's plans, as mathematical values.
pub open spec fn plan_views(plan: CleanPlan) -> Seq<ProjectPlanView> {
    plan.projects@.map_values(|p: ProjectPlan| p@)
}

/// Total size the preview reports: the measured sizes of every target the
/// plan would act on, saturating at the largest `u64`.
pub fn preview_total_size(plan: &CleanPlan) -> (r: u64)
    ensures
        r as int == crate::fs_model::cap64(eligible_bytes(plan_views(*plan))),
{
    let ghost plans = plan_views(*plan);
    let mut total: u64 = 0;
    let ghost mut done: int = 0;
    let mut i: usize = 0;
    let n = plan.projects.len();
    proof {
        lemma_eligible_bytes_nonneg(plans);
        assert(plans.subrange(0, n as int) =~= plans);
    }
    while i < n
        invariant
            0 <= i <= n,
            n == plan.projects@.len(),
            plans == plan_views(*plan),
            done >= 0,
            done + eligible_bytes(plans.subrange(i as int, n as int)) == eligible_bytes(plans),
            eligible_bytes(plans.subrange(i as int, n as int)) >= 0,
            total as int == crate::fs_model::cap64(done),
        decreases n - i,
    {
        let ghost rest = plans.subrange(i as int, n as int);
        proof {
            assert(rest[0] == plans[i as int]);
            assert(rest.drop_first() =~= plans.subrange(i + 1, n as int));
            lemma_eligible_bytes_row_nonneg(plans[i as int].targets);
            lemma_eligible_bytes_nonneg(plans.subrange(i + 1, n as int));
        }
        let row = &plan.projects[i].targets;
        let ghost rowv = plans[i as int].targets;
        let mut j: usize = 0;
        let m = row.len();
        proof {
            assert(rowv == plan.projects@[i as int]@.targets);
            assert(rowv.subrange(0, m as int) =~= rowv);
        }
        while j < m
            invariant
                0 <= j <= m,
                m == row@.len(),
                rowv == row@.map_values(|t: PlannedTarget| t@),
                done >= 0,
                done + eligible_bytes_row(rowv.subrange(j as int, m as int)) + eligible_bytes(
                    plans.subrange(i + 1, n as int),
                ) == eligible_bytes(plans),
                eligible_bytes_row(rowv.subrange(j as int, m as int)) >= 0,
                eligible_bytes(plans.subrange(i + 1, n as int)) >= 0,
                total as int == crate::fs_model::cap64(done),
            decreases m - j,
        {
            let ghost rrest = rowv.subrange(j as int, m as int);
            proof {
                assert(rrest[0] == rowv[j as int]);
                assert(rrest.drop_first() =~= rowv.subrange(j + 1, m as int));
                lemma_eligible_bytes_row_nonneg(rowv.subrange(j + 1, m as int));
            }
            let t = &row[j];
            let is_skip = match t.action {
                TargetAction::Skip => true,
                _ => false,
            };
            if !is_skip {
                let add_bytes = match t.size {
                    Some(s) => s,
                    None => 0,
                };
                total = total.saturating_add(add_bytes);
                proof {
                    done = done + size_or_zero(rowv[j as int].size);
                }
            }
            j = j + 1;
        }
        i = i + 1;
    }
    total
}

proof fn lemma_eligible_bytes_row_nonneg(targets: Seq<PlannedTargetView>)
    ensures
        eligible_bytes_row(targets) >= 0,
    decreases targets.len(),
{
    if targets.len() > 0 {
        lemma_eligible_bytes_row_nonneg(targets.drop_first());
    }
}

proof fn lemma_eligible_bytes_nonneg(plans: Seq<ProjectPlanView>)
    ensures
        eligible_bytes(plans) >= 0,
    decreases plans.len(),
{
    if plans.len() > 0 {
        lemma_eligible_bytes_row_nonneg(plans[0].targets);
        lemma_eligible_bytes_nonneg(plans.drop_first());
    }
}

proof fn lemma_count_row_nonneg(row: Seq<TargetOutcome>, p: spec_fn(TargetOutcome) -> bool)
    ensures
        0 <= count_row(row, p) <= row.len(),
    decreases row.len(),
{
    if row.len() > 0 {
        lemma_count_row_nonneg(row.drop_first(), p);
    }
}

proof fn lemma_count_all_nonneg(outs: Seq<Seq<TargetOutcome>>, p: spec_fn(TargetOutcome) -> bool)
    ensures
        count_all(outs, p) >= 0,
    decreases outs.len(),
{
    if outs.len() > 0 {
        lemma_count_row_nonneg(outs[0], p);
        lemma_count_all_nonneg(outs.drop_first(), p);
    }
}

proof fn lemma_count_targets_nonneg(plans: Seq<ProjectPlanView>)
    ensures
        count_targets(plans) >= 0,
    decreases plans.len(),
{
    if plans.len() > 0 {
        lemma_count_targets_nonneg(plans.drop_first());
    }
}

proof fn lemma_bytes_row_nonneg(targets: Seq<PlannedTargetView>, row: Seq<TargetOutcome>)
    ensures
        bytes_row(targets, row) >= 0,
    decreases row.len(),
{
    if row.len() > 0 && targets.len() > 0 {
        lemma_bytes_row_nonneg(targets.drop_first(), row.drop_first());
    }
}

proof fn lemma_bytes_all_nonneg(plans: Seq<ProjectPlanView>, outs: Seq<Seq<TargetOutcome>>)
    ensures
        bytes_all(plans, outs) >= 0,
    decreases outs.len(),
{
    if outs.len() > 0 && plans.len() > 0 {
        lemma_bytes_row_nonneg(plans[0].targets, outs[0]);
        lemma_bytes_all_nonneg(plans.drop_first(), outs.drop_first());
    }
}

impl Cleaner {
    /// Folds per-target outcomes into the batch totals: targets are counted
    /// whatever their outcome, cleaned and failed outcomes are tallied
    /// separately, byte totals take the sizes of the targets that counted as
    /// cleaned, and every project whose targets were all attempted counts as
    /// a cleaned project, failed targets notwithstanding.
    pub fn collect_results(&self, plan: &CleanPlan, outcomes: &Vec<Vec<TargetOutcome>>) -> (r:
        CleanResults)
        requires
            outcomes_match(
                plan_views(*plan),
                outcomes@.map_values(|row: Vec<TargetOutcome>| row@),
            ),
        ensures
            r.total_projects == plan.projects@.len(),
            r.cleaned_projects == plan.projects@.len(),
            r.failed_projects == 0,
            r.total_targets as int == cap_usize(count_targets(plan_views(*plan))),
            r.cleaned_targets as int == cap_usize(
                count_all(
                    outcomes@.map_values(|row: Vec<TargetOutcome>| row@),
                    |o: TargetOutcome| outcome_cleaned(o),
                ),
            ),
            r.failed_targets as int == cap_usize(
                count_all(
                    outcomes@.map_values(|row: Vec<TargetOutcome>| row@),
                    |o: TargetOutcome| o == TargetOutcome::Failed,
                ),
            ),
            r.total_bytes_removed as int == crate::fs_model::cap64(
                bytes_all(plan_views(*plan), outcomes@.map_values(|row: Vec<TargetOutcome>| row@)),
            ),
    {
        let ghost plans = plan_views(*plan);
        let ghost outs = outcomes@.map_values(|row: Vec<TargetOutcome>| row@);
        let ghost cleaned_pred = |o: TargetOutcome| outcome_cleaned(o);
        let ghost failed_pred = |o: TargetOutcome| o == TargetOutcome::Failed;

        let mut total_targets: usize = 0;
        let mut cleaned_targets: usize = 0;
        let mut failed_targets: usize = 0;
        let mut total_bytes: u64 = 0;
        let ghost mut tt: int = 0;
        let ghost mut ct: int = 0;
        let ghost mut ft: int = 0;
        let ghost mut bt: int = 0;

        let mut i: usize = 0;
        let n = plan.projects.len();
        proof {
            assert(plans.subrange(0, n as int) =~= plans);
            assert(outs.subrange(0, n as int) =~= outs);
            lemma_suffix_sums_nonneg(plans, outs);
        }
        while i < n
            invariant
                0 <= i <= n,
                n == plan.projects@.len(),
                plans == plan_views(*plan),
                outs == outcomes@.map_values(|row: Vec<TargetOutcome>| row@),
                outcomes_match(plans, outs),
                cleaned_pred == (|o: TargetOutcome| outcome_cleaned(o)),
                failed_pred == (|o: TargetOutcome| o == TargetOutcome::Failed),
                tt >= 0 && ct >= 0 && ft >= 0 && bt >= 0,
                tt + count_targets(plans.subrange(i as int, n as int)) == count_targets(plans),
                ct + count_all(outs.subrange(i as int, n as int), cleaned_pred) == count_all(
                    outs,
                    cleaned_pred,
                ),
                ft + count_all(outs.subrange(i as int, n as int), failed_pred) == count_all(
                    outs,
                    failed_pred,
                ),
                bt + bytes_all(
                    plans.subrange(i as int, n as int),
                    outs.subrange(i as int, n as int),
                ) == bytes_all(plans, outs),
                total_targets as int == cap_usize(tt),
                cleaned_targets as int == cap_usize(ct),
                failed_targets as int == cap_usize(ft),
                total_bytes as int == crate::fs_model::cap64(bt),
            decreases n - i,
        {
            let ghost prest = plans.subrange(i as int, n as int);
            let ghost orest = outs.subrange(i as int, n as int);
            proof {
                assert(prest[0] == plans[i as int]);
                assert(orest[0] == outs[i as int]);
                assert(prest.drop_first() =~= plans.subrange(i + 1, n as int));
                assert(orest.drop_first() =~= outs.subrange(i + 1, n as int));
                lemma_count_targets_nonneg(plans.subrange(i + 1, n as int));
                lemma_count_all_nonneg(outs.subrange(i + 1, n as int), cleaned_pred);
                lemma_count_all_nonneg(outs.subrange(i + 1, n as int), failed_pred);
                lemma_bytes_all_nonneg(
                    plans.subrange(i + 1, n as int),
                    outs.subrange(i + 1, n as int),
                );
            }
            let row = &outcomes[i];
            let targets = &plan.projects[i].targets;
            let ghost rowv = outs[i as int];
            let ghost tarv = plans[i as int].targets;
            proof {
                assert(rowv == outcomes@[i as int]@);
                assert(tarv == plan.projects@[i as int]@.targets);
                assert(rowv.len() == tarv.len());
            }

            total_targets = total_targets.saturating_add(targets.len());
            proof {
                tt = tt + tarv.len();
            }

            let mut j: usize = 0;
            let m = row.len();
            proof {
                assert(rowv.subrange(0, m as int) =~= rowv);
                assert(tarv.subrange(0, m as int) =~= tarv);
                lemma_count_row_nonneg(rowv, cleaned_pred);
                lemma_count_row_nonneg(rowv, failed_pred);
                lemma_bytes_row_nonneg(tarv, rowv);
            }
            while j < m
                invariant
                    0 <= j <= m,
                    m == row@.len(),
                    m == rowv.len(),
                    m == tarv.len(),
                    rowv == row@,
                    tarv == targets@.map_values(|t: PlannedTarget| t@),
                    cleaned_pred == (|o: TargetOutcome| outcome_cleaned(o)),
                    failed_pred == (|o: TargetOutcome| o == TargetOutcome::Failed),
                    ct >= 0 && ft >= 0 && bt >= 0,
                    ct + count_row(rowv.subrange(j as int, m as int), cleaned_pred) + count_all(
                        outs.subrange(i + 1, n as int),
                        cleaned_pred,
                    ) == count_all(outs, cleaned_pred),
                    ft + count_row(rowv.subrange(j as int, m as int), failed_pred) + count_all(
                        outs.subrange(i + 1, n as int),
                        failed_pred,
                    ) == count_all(outs, failed_pred),
                    bt + bytes_row(
                        tarv.subrange(j as int, m as int),
                        rowv.subrange(j as int, m as int),
                    ) + bytes_all(
                        plans.subrange(i + 1, n as int),
                        outs.subrange(i + 1, n as int),
                    ) == bytes_all(plans, outs),
                    count_row(rowv.subrange(j as int, m as int), cleaned_pred) >= 0,
                    count_row(rowv.subrange(j as int, m as int), failed_pred) >= 0,
                    bytes_row(
                        tarv.subrange(j as int, m as int),
                        rowv.subrange(j as int, m as int),
                    ) >= 0,
                    count_all(outs.subrange(i + 1, n as int), cleaned_pred) >= 0,
                    count_all(outs.subrange(i + 1, n as int), failed_pred) >= 0,
                    bytes_all(plans.subrange(i + 1, n as int), outs.subrange(i + 1, n as int))
                        >= 0,
                    cleaned_targets as int == cap_usize(ct),
                    failed_targets as int == cap_usize(ft),
                    total_bytes as int == crate::fs_model::cap64(bt),
                decreases m - j,
            {
                let ghost rr = rowv.subrange(j as int, m as int);
                let ghost tr = tarv.subrange(j as int, m as int);
                proof {
                    assert(rr[0] == rowv[j as int]);
                    assert(tr[0] == tarv[j as int]);
                    assert(rr.drop_first() =~= rowv.subrange(j + 1, m as int));
                    assert(tr.drop_first() =~= tarv.subrange(j + 1, m as int));
                    lemma_count_row_nonneg(rowv.subrange(j + 1, m as int), cleaned_pred);
                    lemma_count_row_nonneg(rowv.subrange(j + 1, m as int), failed_pred);
                    lemma_bytes_row_nonneg(
                        tarv.subrange(j + 1, m as int),
                        rowv.subrange(j + 1, m as int),
                    );
                }
                let outcome = &row[j];
                let counts_cleaned = match outcome {
                    TargetOutcome::Simulated => true,
                    TargetOutcome::Removed => true,
                    _ => false,
                };
                if counts_cleaned {
                    cleaned_targets = cleaned_targets.saturating_add(1);
                    let add_bytes = match targets[j].size {
                        Some(s) => s,
                        None => 0,
                    };
                    total_bytes = total_bytes.saturating_add(add_bytes);
                    proof {
                        ct = ct + 1;
                        bt = bt + size_or_zero(tarv[j as int].size);
                    }
                }
                let counts_failed = match outcome {
                    TargetOutcome::Failed => true,
                    _ => false,
                };
                if counts_failed {
                    failed_targets = failed_targets.saturating_add(1);
                    proof {
                        ft = ft + 1;
                    }
                }
                j = j + 1;
            }
            i = i + 1;
        }
        CleanResults {
            total_projects: n,
            cleaned_projects: n,
            failed_projects: 0,
            total_targets,
            cleaned_targets,
            failed_targets,
            total_bytes_removed: total_bytes,
        }
    }
}

proof fn lemma_dry_run_bytes_row(
    config: Config,
    targets: Seq<PlannedTargetView>,
    row: Seq<TargetOutcome>,
)
    requires
        config.dry_run,
        row.len() == targets.len(),
        forall|j: int|
            0 <= j < targets.len() ==> outcome_allowed(
                (#[trigger] targets[j]).action,
                row[j],
            ),
        forall|j: int|
            0 <= j < targets.len() ==> (#[trigger] targets[j]).action != TargetAction::Remove,
    ensures
        bytes_row(targets, row) == eligible_bytes_row(targets),
        count_row(row, |o: TargetOutcome| o == TargetOutcome::Failed) == 0,
    decreases targets.len(),
{
    if targets.len() > 0 {
        assert(forall|j: int|
            0 <= j < targets.drop_first().len() ==> (#[trigger] targets.drop_first()[j])
                == targets[j + 1]);
        assert(forall|j: int|
            0 <= j < row.drop_first().len() ==> (#[trigger] row.drop_first()[j]) == row[j
                + 1]);
        lemma_dry_run_bytes_row(config, targets.drop_first(), row.drop_first());
    }
}

/// Dry-run law: with dry-run set, the plan holds no removal action at all —
/// so an executor that touches the filesystem only on removal actions leaves
/// every path in place — and yet the folded totals report as removed exactly
/// the measured size of every eligible target, with no failures.
pub proof fn lemma_dry_run(
    config: Config,
    projects: Seq<ProjectView>,
    outcomes: Seq<Seq<TargetOutcome>>,
)
    requires
        config.dry_run,
        outcomes_match(plan_model(config, projects), outcomes),
    ensures
        forall|i: int, j: int|
            0 <= i < plan_model(config, projects).len() && 0 <= j < plan_model(
                config,
                projects,
            )[i].targets.len() ==> (#[trigger] plan_model(config, projects)[i].targets[
                j
            ]).action != TargetAction::Remove,
        bytes_all(plan_model(config, projects), outcomes) == eligible_bytes(
            plan_model(config, projects),
        ),
        count_all(outcomes, |o: TargetOutcome| o == TargetOutcome::Failed) == 0,
    decreases projects.len(),
{
    let plans = plan_model(config, projects);
    assert forall|i: int, j: int|
        0 <= i < plans.len() && 0 <= j < plans[i].targets.len() implies (#[trigger] plans[
        i
    ].targets[j]).action != TargetAction::Remove by {
        assert(plans[i].targets == plan_targets_spec(config, projects[i].detected_targets));
        assert(plans[i].targets[j].action == action_spec(
            config,
            projects[i].detected_targets[j].target_type,
        ));
    }
    lemma_dry_run_all(config, plans, outcomes);
}

proof fn lemma_dry_run_all(
    config: Config,
    plans: Seq<ProjectPlanView>,
    outcomes: Seq<Seq<TargetOutcome>>,
)
    requires
        config.dry_run,
        outcomes.len() == plans.len(),
        forall|i: int|
            0 <= i < plans.len() ==> (#[trigger] outcomes[i]).len() == plans[i].targets.len(),
        forall|i: int, j: int|
            0 <= i < plans.len() && 0 <= j < plans[i].targets.len() ==> outcome_allowed(
                plans[i].targets[j].action,
                #[trigger] outcomes[i][j],
            ),
        forall|i: int, j: int|
            0 <= i < plans.len() && 0 <= j < plans[i].targets.len() ==> (#[trigger] plans[
                i
            ].targets[j]).action != TargetAction::Remove,
    ensures
        bytes_all(plans, outcomes) == eligible_bytes(plans),
        count_all(outcomes, |o: TargetOutcome| o == TargetOutcome::Failed) == 0,
    decreases plans.len(),
{
    if plans.len() > 0 {
        lemma_dry_run_bytes_row(config, plans[0].targets, outcomes[0]);
        assert(forall|i: int|
            0 <= i < plans.drop_first().len() ==> (#[trigger] plans.drop_first()[i]) == plans[
                i + 1
            ]);
        assert(forall|i: int|
            0 <= i < outcomes.drop_first().len() ==> (#[trigger] outcomes.drop_first()[i])
                == outcomes[i + 1]);
        lemma_dry_run_all(config, plans.drop_first(), outcomes.drop_first());
    }
}

/// The outcome execution yields when nothing goes wrong.
pub open spec fn induced_outcome(a: TargetAction) -> TargetOutcome {
    match a {
        TargetAction::Skip => TargetOutcome::Skipped,
        TargetAction::Simulate => TargetOutcome::Simulated,
        TargetAction::Remove => TargetOutcome::Removed,
    }
}

/// Number of targets of one project the plan would act on.
pub open spec fn count_eligible_row(ts: Seq<PlannedTargetView>) -> int
    decreases ts.len(),
{
    if ts.len() == 0 {
        0
    } else {
        (if ts[0].action != TargetAction::Skip {
            1int
        } else {
            0int
        }) + count_eligible_row(ts.drop_first())
    }
}

/// Number of targets of the batch the plan would act on.
pub open spec fn count_eligible(plans: Seq<ProjectPlanView>) -> int
    decreases plans.len(),
{
    if plans.len() == 0 {
        0
    } else {
        count_eligible_row(plans[0].targets) + count_eligible(plans.drop_first())
    }
}

proof fn lemma_induced_row(targets: Seq<PlannedTargetView>, row: Seq<TargetOutcome>)
    requires
        row.len() == targets.len(),
        forall|j: int|
            0 <= j < targets.len() ==> row[j] == induced_outcome(
                (#[trigger] targets[j]).action,
            ),
    ensures
        count_row(row, |o: TargetOutcome| outcome_cleaned(o)) == count_eligible_row(targets),
        count_row(row, |o: TargetOutcome| o == TargetOutcome::Failed) == 0,
    decreases targets.len(),
{
    if targets.len() > 0 {
        assert(forall|j: int|
            0 <= j < targets.drop_first().len() ==> (#[trigger] targets.drop_first()[j])
                == targets[j + 1]);
        assert(forall|j: int|
            0 <= j < row.drop_first().len() ==> (#[trigger] row.drop_first()[j]) == row[j
                + 1]);
        lemma_induced_row(targets.drop_first(), row.drop_first());
    }
}

proof fn lemma_one_failure_row(targets: Seq<PlannedTargetView>, row: Seq<TargetOutcome>, pj: int)
    requires
        row.len() == targets.len(),
        0 <= pj < targets.len(),
        targets[pj].action == TargetAction::Remove,
        row[pj] == TargetOutcome::Failed,
        forall|j: int|
            0 <= j < targets.len() && j != pj ==> row[j] == induced_outcome(
                (#[trigger] targets[j]).action,
            ),
    ensures
        count_row(row, |o: TargetOutcome| outcome_cleaned(o)) == count_eligible_row(targets) - 1,
        count_row(row, |o: TargetOutcome| o == TargetOutcome::Failed) == 1,
    decreases targets.len(),
{
    assert(forall|j: int|
        0 <= j < targets.drop_first().len() ==> (#[trigger] targets.drop_first()[j]) == targets[
            j + 1
        ]);
    assert(forall|j: int|
        0 <= j < row.drop_first().len() ==> (#[trigger] row.drop_first()[j]) == row[j + 1]);
    if pj == 0 {
        lemma_induced_row(targets.drop_first(), row.drop_first());
    } else {
        lemma_one_failure_row(targets.drop_first(), row.drop_first(), pj - 1);
    }
}

/// Partial-failure law: when exactly one target's removal fails and every
/// other target comes out as its action dictates, the totals report exactly
/// one failed target, every other eligible target as cleaned, and — because
/// the folded totals count every project whose targets were attempted — the
/// affected project still counts among the cleaned projects.
pub proof fn lemma_partial_failure(
    plans: Seq<ProjectPlanView>,
    outcomes: Seq<Seq<TargetOutcome>>,
    pi: int,
    pj: int,
)
    requires
        outcomes.len() == plans.len(),
        forall|i: int|
            0 <= i < plans.len() ==> (#[trigger] outcomes[i]).len() == plans[i].targets.len(),
        0 <= pi < plans.len(),
        0 <= pj < plans[pi].targets.len(),
        plans[pi].targets[pj].action == TargetAction::Remove,
        outcomes[pi][pj] == TargetOutcome::Failed,
        forall|i: int, j: int|
            0 <= i < plans.len() && 0 <= j < plans[i].targets.len() && !(i == pi && j == pj)
                ==> outcomes[i][j] == induced_outcome((#[trigger] plans[i].targets[j]).action),
    ensures
        count_all(outcomes, |o: TargetOutcome| o == TargetOutcome::Failed) == 1,
        count_all(outcomes, |o: TargetOutcome| outcome_cleaned(o)) == count_eligible(plans) - 1,
    decreases plans.len(),
{
    assert(forall|i: int|
        0 <= i < plans.drop_first().len() ==> (#[trigger] plans.drop_first()[i]) == plans[i
            + 1]);
    assert(forall|i: int|
        0 <= i < outcomes.drop_first().len() ==> (#[trigger] outcomes.drop_first()[i])
            == outcomes[i + 1]);
    if pi == 0 {
        lemma_one_failure_row(plans[0].targets, outcomes[0], pj);
        lemma_all_induced(plans.drop_first(), outcomes.drop_first());
    } else {
        lemma_induced_row(plans[0].targets, outcomes[0]);
        lemma_partial_failure(plans.drop_first(), outcomes.drop_first(), pi - 1, pj);
    }
}

proof fn lemma_all_induced(plans: Seq<ProjectPlanView>, outcomes: Seq<Seq<TargetOutcome>>)
    requires
        outcomes.len() == plans.len(),
        forall|i: int|
            0 <= i < plans.len() ==> (#[trigger] outcomes[i]).len() == plans[i].targets.len(),
        forall|i: int, j: int|
            0 <= i < plans.len() && 0 <= j < plans[i].targets.len() ==> outcomes[i][j]
                == induced_outcome((#[trigger] plans[i].targets[j]).action),
    ensures
        count_all(outcomes, |o: TargetOutcome| o == TargetOutcome::Failed) == 0,
        count_all(outcomes, |o: TargetOutcome| outcome_cleaned(o)) == count_eligible(plans),
    decreases plans.len(),
{
    if plans.len() > 0 {
        lemma_induced_row(plans[0].targets, outcomes[0]);
        assert(forall|i: int|
            0 <= i < plans.drop_first().len() ==> (#[trigger] plans.drop_first()[i]) == plans[
                i + 1
            ]);
        assert(forall|i: int|
            0 <= i < outcomes.drop_first().len() ==> (#[trigger] outcomes.drop_first()[i])
                == outcomes[i + 1]);
        lemma_all_induced(plans.drop_first(), outcomes.drop_first());
    }
}

proof fn lemma_suffix_sums_nonneg(plans: Seq<ProjectPlanView>, outs: Seq<Seq<TargetOutcome>>)
    ensures
        count_targets(plans) >= 0,
        count_all(outs, |o: TargetOutcome| outcome_cleaned(o)) >= 0,
        count_all(outs, |o: TargetOutcome| o == TargetOutcome::Failed) >= 0,
        bytes_all(plans, outs) >= 0,
{
    lemma_count_targets_nonneg(plans);
    lemma_count_all_nonneg(outs, |o: TargetOutcome| outcome_cleaned(o));
    lemma_count_all_nonneg(outs, |o: TargetOutcome| o == TargetOutcome::Failed);
    lemma_bytes_all_nonneg(plans, outs);
}

} // verus!
