//! From the groups of tokens to the steps to take, in their fixed order.
//!
//! The disks are registered first. Then come the operations, kind by kind:
//! relabel, delete, move, reuse, create. Then the volume groups that the new
//! and the reused partitions ask for are set up, and only then are logical
//! volumes created in them.
//!
//! The first token that is refused ends the plan. The steps before it are
//! kept: whoever carries the plan out reports a failure of one of them first.

use crate::error::{ConfigError, ConfigErrorView};
use crate::operation::{
    law_operation_has_its_kind, operation_of, parse_operation, Operation, OperationKind,
    OperationView,
};
use vstd::prelude::*;

verus! {

/// One step of a plan.
#[derive(Debug, Clone, PartialEq, Eq)]
pub enum Step {
    /// Register the disk with this name.
    AddDisk(String),
    /// Carry out an operation.
    Apply(Operation),
    /// Set up the volume groups that partitions have asked for so far.
    InitializeVolumeGroups,
}

/// The mathematical value of a [`Step`].
pub enum StepView {
    AddDisk(Seq<char>),
    Apply(OperationView),
    InitializeVolumeGroups,
}

impl DeepView for Step {
    type V = StepView;

    open spec fn deep_view(&self) -> StepView {
        match *self {
            Step::AddDisk(name) => StepView::AddDisk(name@),
            Step::Apply(operation) => StepView::Apply(operation.deep_view()),
            Step::InitializeVolumeGroups => StepView::InitializeVolumeGroups,
        }
    }
}

/// A token that was refused: the kind of operation it was read as, the token,
/// and what is wrong with it.
#[derive(Debug, Clone, PartialEq, Eq)]
pub struct Rejection {
    pub kind: OperationKind,
    pub token: String,
    pub error: ConfigError,
}

/// The mathematical value of a [`Rejection`].
pub struct RejectionView {
    pub kind: OperationKind,
    pub token: Seq<char>,
    pub error: ConfigErrorView,
}

impl DeepView for Rejection {
    type V = RejectionView;

    open spec fn deep_view(&self) -> RejectionView {
        RejectionView { kind: self.kind, token: self.token@, error: self.error.deep_view() }
    }
}

/// The steps to take, and the token that ended the plan, if one did.
#[derive(Debug, Clone, PartialEq, Eq)]
pub struct Plan {
    /// The steps, in the order in which they are to be taken.
    pub steps: Vec<Step>,
    /// The first token that was refused. The steps are those that come before
    /// it.
    pub rejection: Option<Rejection>,
}

/// The mathematical value of a [`Plan`].
pub struct PlanView {
    pub steps: Seq<StepView>,
    pub rejection: Option<RejectionView>,
}

impl DeepView for Plan {
    type V = PlanView;

    open spec fn deep_view(&self) -> PlanView {
        PlanView { steps: self.steps.deep_view(), rejection: self.rejection.deep_view() }
    }
}

/// The groups of tokens that describe a configuration.
#[derive(Debug, Clone, PartialEq, Eq, Default)]
pub struct Arguments {
    /// The names of the disks to work on.
    pub disks: Vec<String>,
    /// The relabel operations.
    pub tables: Vec<String>,
    /// The delete operations.
    pub removed: Vec<String>,
    /// The move operations.
    pub moved: Vec<String>,
    /// The reuse operations.
    pub reused: Vec<String>,
    /// The create operations.
    pub new: Vec<String>,
    /// The operations that create logical volumes.
    pub logical: Vec<String>,
}

/// The mathematical value of [`Arguments`].
pub struct ArgumentsView {
    pub disks: Seq<Seq<char>>,
    pub tables: Seq<Seq<char>>,
    pub removed: Seq<Seq<char>>,
    pub moved: Seq<Seq<char>>,
    pub reused: Seq<Seq<char>>,
    pub new: Seq<Seq<char>>,
    pub logical: Seq<Seq<char>>,
}

impl DeepView for Arguments {
    type V = ArgumentsView;

    open spec fn deep_view(&self) -> ArgumentsView {
        ArgumentsView {
            disks: self.disks.deep_view(),
            tables: self.tables.deep_view(),
            removed: self.removed.deep_view(),
            moved: self.moved.deep_view(),
            reused: self.reused.deep_view(),
            new: self.new.deep_view(),
            logical: self.logical.deep_view(),
        }
    }
}

/// The steps that register disks, one for each name.
pub open spec fn disk_steps(names: Seq<Seq<char>>) -> Seq<StepView> {
    Seq::new(names.len(), |i: int| StepView::AddDisk(names[i]))
}

/// The plan for the tokens of one kind: a step for each token before the first
/// that is refused, and that token's rejection.
pub open spec fn stage_of(kind: OperationKind, tokens: Seq<Seq<char>>) -> PlanView
    decreases tokens.len(),
{
    if tokens.len() == 0 {
        PlanView { steps: Seq::empty(), rejection: None }
    } else {
        let before = stage_of(kind, tokens.drop_last());
        if before.rejection is Some {
            before
        } else {
            match operation_of(kind, tokens.last()) {
                Ok(operation) => PlanView {
                    steps: before.steps.push(StepView::Apply(operation)),
                    rejection: None,
                },
                Err(error) => PlanView {
                    steps: before.steps,
                    rejection: Some(RejectionView { kind, token: tokens.last(), error }),
                },
            }
        }
    }
}

/// One plan after another. What comes after a rejection is not reached.
pub open spec fn then(first: PlanView, second: PlanView) -> PlanView {
    if first.rejection is Some {
        first
    } else {
        PlanView { steps: first.steps + second.steps, rejection: second.rejection }
    }
}

/// A plan of steps that no token can end.
pub open spec fn steps_only(steps: Seq<StepView>) -> PlanView {
    PlanView { steps, rejection: None }
}

/// The plan for a configuration: the stages, one after another.
pub open spec fn plan_of(arguments: ArgumentsView) -> PlanView {
    let plan = steps_only(disk_steps(arguments.disks));
    let plan = then(plan, stage_of(OperationKind::Relabel, arguments.tables));
    let plan = then(plan, stage_of(OperationKind::Delete, arguments.removed));
    let plan = then(plan, stage_of(OperationKind::Move, arguments.moved));
    let plan = then(plan, stage_of(OperationKind::Reuse, arguments.reused));
    let plan = then(plan, stage_of(OperationKind::Create, arguments.new));
    let plan = then(plan, steps_only(seq![StepView::InitializeVolumeGroups]));
    then(plan, stage_of(OperationKind::CreateLogical, arguments.logical))
}

/// A rejection among the first tokens ends the stage there.
proof fn lemma_stage_ends(kind: OperationKind, tokens: Seq<Seq<char>>, k: int)
    requires
        0 <= k <= tokens.len(),
        stage_of(kind, tokens.take(k)).rejection is Some,
    ensures
        stage_of(kind, tokens) == stage_of(kind, tokens.take(k)),
    decreases tokens.len() - k,
{
    if k == tokens.len() {
        assert(tokens.take(k) =~= tokens);
    } else {
        assert(tokens.take(k + 1).drop_last() =~= tokens.take(k));
        lemma_stage_ends(kind, tokens, k + 1);
    }
}

impl Plan {
    /// The plan with no steps.
    pub fn new() -> (plan: Plan)
        ensures
            plan.deep_view() == steps_only(Seq::empty()),
    {
        let plan = Plan { steps: Vec::new(), rejection: None };
        assert(plan.steps.deep_view() =~= Seq::<StepView>::empty());
        plan
    }
}

/// Adds a step for each disk name, unless a token has ended the plan.
pub fn add_disks(plan: &mut Plan, names: &Vec<String>)
    ensures
        final(plan).deep_view() == then(
            old(plan).deep_view(),
            steps_only(disk_steps(names.deep_view())),
        ),
{
    if plan.rejection.is_some() {
        return ;
    }
    let ghost before = plan.steps.deep_view();
    let ghost all = disk_steps(names.deep_view());
    let mut at: usize = 0;
    assert(before + all.take(0) =~= before);
    while at < names.len()
        invariant
            at <= names.len(),
            all == disk_steps(names.deep_view()),
            plan.rejection is None,
            plan.steps.deep_view() == before + all.take(at as int),
        decreases names.len() - at,
    {
        let ghost so_far = plan.steps.deep_view();
        let name = names[at].clone();
        plan.steps.push(Step::AddDisk(name));
        proof {
            assert(names.deep_view()[at as int] == names[at as int]@);
            assert(plan.steps.deep_view() =~= so_far.push(all[at as int]));
            assert(before + all.take(at + 1) =~= (before + all.take(at as int)).push(
                all[at as int],
            ));
        }
        at = at + 1;
    }
    assert(all.take(at as int) =~= all);
}

/// Adds the step that sets up the volume groups, unless a token has ended the
/// plan.
pub fn initialize_volume_groups(plan: &mut Plan)
    ensures
        final(plan).deep_view() == then(
            old(plan).deep_view(),
            steps_only(seq![StepView::InitializeVolumeGroups]),
        ),
{
    if plan.rejection.is_some() {
        return ;
    }
    let ghost before = plan.steps.deep_view();
    plan.steps.push(Step::InitializeVolumeGroups);
    assert(plan.steps.deep_view() =~= before + seq![StepView::InitializeVolumeGroups]);
}

/// Adds the steps for the tokens of one kind, up to the first token that is
/// refused, which ends the plan. Adds nothing where a token has ended the plan
/// before.
pub fn configure(plan: &mut Plan, kind: OperationKind, tokens: &Vec<String>)
    ensures
        final(plan).deep_view() == then(
            old(plan).deep_view(),
            stage_of(kind, tokens.deep_view()),
        ),
{
    if plan.rejection.is_some() {
        return ;
    }
    let ghost before = plan.steps.deep_view();
    let ghost all = tokens.deep_view();
    let mut at: usize = 0;
    assert(all.take(0) =~= Seq::<Seq<char>>::empty());
    assert(before + Seq::<StepView>::empty() =~= before);
    while at < tokens.len()
        invariant
            at <= tokens.len(),
            all == tokens.deep_view(),
            before == old(plan).steps.deep_view(),
            old(plan).rejection is None,
            plan.rejection is None,
            stage_of(kind, all.take(at as int)).rejection is None,
            plan.steps.deep_view() == before + stage_of(kind, all.take(at as int)).steps,
        decreases tokens.len() - at,
    {
        let ghost so_far = plan.steps.deep_view();
        let ghost stage = stage_of(kind, all.take(at as int));
        proof {
            assert(all[at as int] == tokens[at as int]@);
            assert(all.take(at + 1).drop_last() =~= all.take(at as int));
            assert(all.take(at + 1).last() == tokens[at as int]@);
        }
        match parse_operation(kind, tokens[at].as_str()) {
            Ok(operation) => {
                let ghost step = StepView::Apply(operation.deep_view());
                plan.steps.push(Step::Apply(operation));
                proof {
                    assert(plan.steps.deep_view() =~= so_far.push(step));
                    assert(before + stage.steps.push(step) =~= (before + stage.steps).push(step));
                }
            },
            Err(error) => {
                proof {
                    assert(stage_of(kind, all.take(at + 1)).steps == stage.steps);
                    lemma_stage_ends(kind, all, at + 1);
                }
                plan.rejection = Some(Rejection { kind, token: tokens[at].clone(), error });
                return ;
            },
        }
        at = at + 1;
    }
    assert(all.take(at as int) =~= all);
}

/// Adds the steps for the relabel operations.
pub fn configure_tables(plan: &mut Plan, tables: &Vec<String>)
    ensures
        final(plan).deep_view() == then(
            old(plan).deep_view(),
            stage_of(OperationKind::Relabel, tables.deep_view()),
        ),
{
    configure(plan, OperationKind::Relabel, tables)
}

/// Adds the steps for the delete operations.
pub fn configure_removed(plan: &mut Plan, removed: &Vec<String>)
    ensures
        final(plan).deep_view() == then(
            old(plan).deep_view(),
            stage_of(OperationKind::Delete, removed.deep_view()),
        ),
{
    configure(plan, OperationKind::Delete, removed)
}

/// Adds the steps for the move operations.
pub fn configure_moved(plan: &mut Plan, moved: &Vec<String>)
    ensures
        final(plan).deep_view() == then(
            old(plan).deep_view(),
            stage_of(OperationKind::Move, moved.deep_view()),
        ),
{
    configure(plan, OperationKind::Move, moved)
}

/// Adds the steps for the reuse operations.
pub fn configure_reused(plan: &mut Plan, reused: &Vec<String>)
    ensures
        final(plan).deep_view() == then(
            old(plan).deep_view(),
            stage_of(OperationKind::Reuse, reused.deep_view()),
        ),
{
    configure(plan, OperationKind::Reuse, reused)
}

/// Adds the steps for the create operations.
pub fn configure_new(plan: &mut Plan, new: &Vec<String>)
    ensures
        final(plan).deep_view() == then(
            old(plan).deep_view(),
            stage_of(OperationKind::Create, new.deep_view()),
        ),
{
    configure(plan, OperationKind::Create, new)
}

/// Adds the steps for the operations that create logical volumes.
pub fn configure_lvm(plan: &mut Plan, logical: &Vec<String>)
    ensures
        final(plan).deep_view() == then(
            old(plan).deep_view(),
            stage_of(OperationKind::CreateLogical, logical.deep_view()),
        ),
{
    configure(plan, OperationKind::CreateLogical, logical)
}

/// Plans a configuration: the disks, then the operations kind by kind, with
/// the volume groups set up before the logical volumes.
pub fn configure_disks(arguments: &Arguments) -> (plan: Plan)
    ensures
        plan.deep_view() == plan_of(arguments.deep_view()),
{
    let mut plan = Plan::new();
    add_disks(&mut plan, &arguments.disks);
    assert(plan.deep_view().steps =~= disk_steps(arguments.deep_view().disks));
    configure_tables(&mut plan, &arguments.tables);
    configure_removed(&mut plan, &arguments.removed);
    configure_moved(&mut plan, &arguments.moved);
    configure_reused(&mut plan, &arguments.reused);
    configure_new(&mut plan, &arguments.new);
    initialize_volume_groups(&mut plan);
    configure_lvm(&mut plan, &arguments.logical);
    plan
}

/// The place of the operations of a kind in the fixed order of a plan.
pub open spec fn rank_of(kind: OperationKind) -> nat {
    match kind {
        OperationKind::Relabel => 1,
        OperationKind::Delete => 2,
        OperationKind::Move => 3,
        OperationKind::Reuse => 4,
        OperationKind::Create => 5,
        OperationKind::CreateLogical => 7,
    }
}

/// The place of a step in the fixed order of a plan: the disks come first, and
/// the volume groups are set up between the operations on partitions and
/// those on logical volumes.
pub open spec fn rank(step: StepView) -> nat {
    match step {
        StepView::AddDisk(_) => 0,
        StepView::Apply(operation) => rank_of(operation.kind()),
        StepView::InitializeVolumeGroups => 6,
    }
}

/// A stage is the run of its tokens up to the first that is refused: every
/// step is the operation of the token in its place, the rejection is that of
/// the token behind the last step, and without a rejection every token has its
/// step.
pub proof fn law_stage_stops_at_first_rejection(kind: OperationKind, tokens: Seq<Seq<char>>)
    ensures
        stage_of(kind, tokens).steps.len() <= tokens.len(),
        forall|i: int|
            0 <= i < stage_of(kind, tokens).steps.len() ==> operation_of(kind, tokens[i]) is Ok
                && #[trigger] stage_of(kind, tokens).steps[i] == StepView::Apply(
                operation_of(kind, tokens[i])->Ok_0,
            ),
        stage_of(kind, tokens).rejection is None ==> stage_of(kind, tokens).steps.len()
            == tokens.len(),
        stage_of(kind, tokens).rejection is Some ==> {
            let at = stage_of(kind, tokens).steps.len() as int;
            &&& at < tokens.len()
            &&& operation_of(kind, tokens[at]) is Err
            &&& stage_of(kind, tokens).rejection == Some(
                RejectionView { kind, token: tokens[at], error: operation_of(kind, tokens[at])->Err_0 },
            )
        },
    decreases tokens.len(),
{
    if tokens.len() > 0 {
        let head = tokens.drop_last();
        law_stage_stops_at_first_rejection(kind, head);
        let before = stage_of(kind, head);
        let stage = stage_of(kind, tokens);
        assert forall|i: int| 0 <= i < stage.steps.len() implies operation_of(kind, tokens[i]) is Ok
            && #[trigger] stage.steps[i] == StepView::Apply(operation_of(kind, tokens[i])->Ok_0) by {
            if i < before.steps.len() {
                assert(head[i] == tokens[i]);
                assert(stage.steps[i] == before.steps[i]);
            }
        }
        if before.rejection is Some {
            assert(head[before.steps.len() as int] == tokens[before.steps.len() as int]);
        }
    }
}

/// Every step of a stage has the rank of the stage's kind.
proof fn lemma_stage_rank(kind: OperationKind, tokens: Seq<Seq<char>>)
    ensures
        forall|i: int|
            0 <= i < stage_of(kind, tokens).steps.len() ==> rank(
                #[trigger] stage_of(kind, tokens).steps[i],
            ) == rank_of(kind),
{
    law_stage_stops_at_first_rejection(kind, tokens);
    assert forall|i: int| 0 <= i < stage_of(kind, tokens).steps.len() implies rank(
        #[trigger] stage_of(kind, tokens).steps[i],
    ) == rank_of(kind) by {
        assert(stage_of(kind, tokens).steps[i] == StepView::Apply(
            operation_of(kind, tokens[i])->Ok_0,
        ));
        law_operation_has_its_kind(kind, tokens[i]);
    }
}

/// The steps are in order, and none has a rank above `top`.
pub open spec fn in_order(steps: Seq<StepView>, top: nat) -> bool {
    &&& forall|i: int, j: int|
        0 <= i <= j < steps.len() ==> rank(#[trigger] steps[i]) <= rank(#[trigger] steps[j])
    &&& forall|i: int| 0 <= i < steps.len() ==> rank(#[trigger] steps[i]) <= top
}

/// Steps of one rank behind steps of no higher rank keep the order.
proof fn lemma_then_in_order(first: PlanView, second: PlanView, top: nat, next: nat)
    requires
        in_order(first.steps, top),
        top <= next,
        forall|i: int| 0 <= i < second.steps.len() ==> rank(#[trigger] second.steps[i]) == next,
    ensures
        in_order(then(first, second).steps, next),
{
    let all = then(first, second).steps;
    if first.rejection is None {
        assert forall|i: int, j: int| 0 <= i <= j < all.len() implies rank(#[trigger] all[i])
            <= rank(#[trigger] all[j]) by {
            if j < first.steps.len() {
                assert(all[i] == first.steps[i]);
                assert(all[j] == first.steps[j]);
            } else if i < first.steps.len() {
                assert(all[i] == first.steps[i]);
                assert(all[j] == second.steps[j - first.steps.len()]);
            } else {
                assert(all[i] == second.steps[i - first.steps.len()]);
                assert(all[j] == second.steps[j - first.steps.len()]);
            }
        }
        assert forall|i: int| 0 <= i < all.len() implies rank(#[trigger] all[i]) <= next by {
            if i < first.steps.len() {
                assert(all[i] == first.steps[i]);
            } else {
                assert(all[i] == second.steps[i - first.steps.len()]);
            }
        }
    }
}

/// The plan before the volume groups are set up: the disks and the operations
/// on partitions.
pub open spec fn partitions_plan_of(arguments: ArgumentsView) -> PlanView {
    let plan = steps_only(disk_steps(arguments.disks));
    let plan = then(plan, stage_of(OperationKind::Relabel, arguments.tables));
    let plan = then(plan, stage_of(OperationKind::Delete, arguments.removed));
    let plan = then(plan, stage_of(OperationKind::Move, arguments.moved));
    let plan = then(plan, stage_of(OperationKind::Reuse, arguments.reused));
    then(plan, stage_of(OperationKind::Create, arguments.new))
}

/// The disks and the operations on partitions stand in order.
proof fn lemma_partitions_plan_in_order(arguments: ArgumentsView)
    ensures
        in_order(partitions_plan_of(arguments).steps, 5),
{
    let disks = steps_only(disk_steps(arguments.disks));
    assert(in_order(disks.steps, 0));
    let tables = then(disks, stage_of(OperationKind::Relabel, arguments.tables));
    lemma_stage_rank(OperationKind::Relabel, arguments.tables);
    lemma_then_in_order(disks, stage_of(OperationKind::Relabel, arguments.tables), 0, 1);
    let removed = then(tables, stage_of(OperationKind::Delete, arguments.removed));
    lemma_stage_rank(OperationKind::Delete, arguments.removed);
    lemma_then_in_order(tables, stage_of(OperationKind::Delete, arguments.removed), 1, 2);
    let moved = then(removed, stage_of(OperationKind::Move, arguments.moved));
    lemma_stage_rank(OperationKind::Move, arguments.moved);
    lemma_then_in_order(removed, stage_of(OperationKind::Move, arguments.moved), 2, 3);
    let reused = then(moved, stage_of(OperationKind::Reuse, arguments.reused));
    lemma_stage_rank(OperationKind::Reuse, arguments.reused);
    lemma_then_in_order(moved, stage_of(OperationKind::Reuse, arguments.reused), 3, 4);
    lemma_stage_rank(OperationKind::Create, arguments.new);
    lemma_then_in_order(reused, stage_of(OperationKind::Create, arguments.new), 4, 5);
}

/// The steps of a plan stand in the fixed order: disks first, then relabel,
/// delete, move, reuse and create operations, then the volume groups, then the
/// logical volumes. No step comes before one of a kind that is due earlier.
pub proof fn law_steps_in_order(arguments: ArgumentsView, i: int, j: int)
    requires
        0 <= i <= j < plan_of(arguments).steps.len(),
    ensures
        rank(plan_of(arguments).steps[i]) <= rank(plan_of(arguments).steps[j]),
{
    let partitions = partitions_plan_of(arguments);
    lemma_partitions_plan_in_order(arguments);
    let groups = steps_only(seq![StepView::InitializeVolumeGroups]);
    let grouped = then(partitions, groups);
    lemma_then_in_order(partitions, groups, 5, 6);
    let logical = stage_of(OperationKind::CreateLogical, arguments.logical);
    lemma_stage_rank(OperationKind::CreateLogical, arguments.logical);
    lemma_then_in_order(grouped, logical, 6, 7);
    assert(plan_of(arguments) == then(grouped, logical));
}

/// No logical volume without its group: where a plan creates a logical
/// volume, an earlier step sets up the volume groups, and every step that
/// creates or reuses a partition comes before that one.
pub proof fn law_volume_groups_before_volumes(arguments: ArgumentsView, j: int)
    requires
        0 <= j < plan_of(arguments).steps.len(),
        plan_of(arguments).steps[j] is Apply,
        plan_of(arguments).steps[j]->Apply_0 is CreateLogical,
    ensures
        exists|g: int|
            0 <= g < j && #[trigger] plan_of(arguments).steps[g]
                == StepView::InitializeVolumeGroups && forall|i: int|
                0 <= i < plan_of(arguments).steps.len() && rank(
                    #[trigger] plan_of(arguments).steps[i],
                ) <= 5 ==> i < g,
{
    let partitions = partitions_plan_of(arguments);
    lemma_partitions_plan_in_order(arguments);
    let groups = steps_only(seq![StepView::InitializeVolumeGroups]);
    let grouped = then(partitions, groups);
    lemma_then_in_order(partitions, groups, 5, 6);
    let logical = stage_of(OperationKind::CreateLogical, arguments.logical);
    lemma_stage_rank(OperationKind::CreateLogical, arguments.logical);
    let plan = plan_of(arguments);
    assert(plan == then(grouped, logical));
    let steps = plan.steps;
    assert(rank(steps[j]) == 7);
    if grouped.rejection is Some {
        assert(rank(grouped.steps[j]) <= 6);
    } else {
        assert(partitions.rejection is None);
        let g = partitions.steps.len() as int;
        assert(grouped.steps[g] == StepView::InitializeVolumeGroups);
        assert(steps[g] == grouped.steps[g]);
        if j < grouped.steps.len() {
            assert(steps[j] == grouped.steps[j]);
            assert(rank(grouped.steps[j]) <= 6);
        }
        assert forall|i: int| 0 <= i < steps.len() && rank(#[trigger] steps[i]) <= 5 implies i
            < g by {
            if i == g {
            } else if i > g {
                assert(steps[i] == logical.steps[i - grouped.steps.len()]);
            }
        }
    }
}

} // verus!
