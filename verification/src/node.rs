//! The render-graph node of the pipeline: the trigger that decides when the
//! initial spectrum is regenerated, and the plan of dispatches of one frame.
//!
//! Commands are recorded one frame ahead of their execution, so a parameter
//! change cannot be acted on in the frame that observes it.  The node records
//! the change as a commitment, which falls due on the following frame.  A
//! frame on which a regeneration is due regenerates first, or, while the
//! kernels of the regeneration cannot be dispatched, does nothing at all; the
//! regeneration stays due until a frame has planned it.

use vstd::prelude::*;
use crate::pipeline::OceanComputePipeline;
use crate::bindings::{output_of, Resource, ResourcePresence};
use crate::stage::{dispatch_for, dispatch_of, Dispatch, Stage};

verus! {

/// Whether the initial spectrum is out of date.
#[derive(Clone, Copy, Debug, PartialEq, Eq, Structural)]
pub enum OceanInitSpectrumStatus {
    /// A parameter changed and the initial spectrum has to be regenerated.
    Update,
    /// Nothing changed since the node last took note.
    Wait,
}

impl Default for OceanInitSpectrumStatus {
    /// At startup the spectrum has never been generated.
    fn default() -> (status: Self)
        ensures
            status == OceanInitSpectrumStatus::Update,
    {
        OceanInitSpectrumStatus::Update
    }
}

/// The status after the parameters were looked at: a change makes a
/// regeneration pending, and without one the status stays.
pub open spec fn status_after_signal(
    status: OceanInitSpectrumStatus,
    changed: bool,
) -> OceanInitSpectrumStatus {
    if changed {
        OceanInitSpectrumStatus::Update
    } else {
        status
    }
}

/// Takes note of a change of the global settings or of any spectrum slot.
pub fn update_init_spectrum_status(
    settings_changed: bool,
    spectrum_settings_changed: bool,
    init_spectrum_status: &mut OceanInitSpectrumStatus,
)
    ensures
        *final(init_spectrum_status) == status_after_signal(
            *old(init_spectrum_status),
            settings_changed || spectrum_settings_changed,
        ),
{
    if settings_changed || spectrum_settings_changed {
        *init_spectrum_status = OceanInitSpectrumStatus::Update;
    }
}

/// For each kernel, whether it can be dispatched this frame: it is compiled
/// and everything it is bound to exists.
#[derive(Clone, Copy, Debug, PartialEq, Eq, Structural)]
pub struct StageReadiness {
    pub initialize_spectrum: bool,
    pub pack_spectrum_conjugates: bool,
    pub update_spectrum: bool,
    pub horizontal_fft: bool,
    pub vertical_fft: bool,
    pub assemble_maps: bool,
}

impl StageReadiness {
    /// Whether `stage` can be dispatched.
    pub open spec fn of(self, stage: Stage) -> bool {
        match stage {
            Stage::InitializeSpectrum => self.initialize_spectrum,
            Stage::PackSpectrumConjugates => self.pack_spectrum_conjugates,
            Stage::UpdateSpectrum => self.update_spectrum,
            Stage::HorizontalFft => self.horizontal_fft,
            Stage::VerticalFft => self.vertical_fft,
            Stage::AssembleMaps => self.assemble_maps,
        }
    }

    /// Both kernels of a regeneration can be dispatched.
    pub open spec fn regeneration(self) -> bool {
        self.initialize_spectrum && self.pack_spectrum_conjugates
    }

    /// How many kernels of the per-frame chain can run: each one consumes what
    /// the one before it wrote, so the chain stops at the first that is not
    /// ready.
    pub open spec fn ready_chain(self) -> nat {
        if !self.update_spectrum {
            0
        } else if !self.horizontal_fft {
            1
        } else if !self.vertical_fft {
            2
        } else if !self.assemble_maps {
            3
        } else {
            4
        }
    }

    /// Readiness in which every kernel can be dispatched.
    pub fn all() -> (ready: Self)
        ensures
            forall|stage: Stage| ready.of(stage),
    {
        StageReadiness {
            initialize_spectrum: true,
            pack_spectrum_conjugates: true,
            update_spectrum: true,
            horizontal_fft: true,
            vertical_fft: true,
            assemble_maps: true,
        }
    }

    /// Readiness in which no kernel can be dispatched yet.
    pub fn none() -> (ready: Self)
        ensures
            forall|stage: Stage| !ready.of(stage),
    {
        StageReadiness {
            initialize_spectrum: false,
            pack_spectrum_conjugates: false,
            update_spectrum: false,
            horizontal_fft: false,
            vertical_fft: false,
            assemble_maps: false,
        }
    }

    /// The readiness of a frame: a kernel can be dispatched when it is
    /// compiled and every resource of the bind group exists, because all
    /// kernels are bound to the one group.
    pub fn of_frame(compiled: &StageReadiness, present: &ResourcePresence) -> (ready: Self)
        ensures
            forall|stage: Stage| ready.of(stage) == (compiled.of(stage) && present.complete()),
    {
        let bound: bool = present.settings && present.spectrum_parameters
            && present.displacements && present.gradients && present.initial_spectrum
            && present.time_spectrum;
        StageReadiness {
            initialize_spectrum: bound && compiled.initialize_spectrum,
            pack_spectrum_conjugates: bound && compiled.pack_spectrum_conjugates,
            update_spectrum: bound && compiled.update_spectrum,
            horizontal_fft: bound && compiled.horizontal_fft,
            vertical_fft: bound && compiled.vertical_fft,
            assemble_maps: bound && compiled.assemble_maps,
        }
    }

    /// Whether `stage` can be dispatched.
    pub fn is_ready(&self, stage: Stage) -> (yes: bool)
        ensures
            yes == self.of(stage),
    {
        match stage {
            Stage::InitializeSpectrum => self.initialize_spectrum,
            Stage::PackSpectrumConjugates => self.pack_spectrum_conjugates,
            Stage::UpdateSpectrum => self.update_spectrum,
            Stage::HorizontalFft => self.horizontal_fft,
            Stage::VerticalFft => self.vertical_fft,
            Stage::AssembleMaps => self.assemble_maps,
        }
    }
}

/// What the node remembers from one frame to the next.
pub struct NodeState {
    /// A change was observed on this frame: a regeneration is committed for
    /// the next execution.
    pub committed: bool,
    /// A regeneration is due on this frame.
    pub due: bool,
}

/// The node after it has looked at the status on a new frame, and the status
/// it leaves.  `regenerated` says whether the plan of the frame before held
/// the regeneration.  A regeneration that was due and was not planned stays
/// due, a commitment made on the frame before falls due, and a pending status
/// becomes a new commitment and goes back to waiting.
pub open spec fn node_step(
    node: NodeState,
    status: OceanInitSpectrumStatus,
    regenerated: bool,
) -> (NodeState, OceanInitSpectrumStatus) {
    (
        NodeState {
            committed: status == OceanInitSpectrumStatus::Update,
            due: node.committed || (node.due && !regenerated),
        },
        OceanInitSpectrumStatus::Wait,
    )
}

/// The dispatches that regenerate the initial spectrum: the generator and
/// directly behind it the packer.
pub open spec fn regeneration_plan(size: nat) -> Seq<Dispatch> {
    seq![
        dispatch_of(Stage::InitializeSpectrum, size),
        dispatch_of(Stage::PackSpectrumConjugates, size),
    ]
}

/// The kernels that run on every frame, in order.
pub open spec fn steady_stages() -> Seq<Stage> {
    seq![Stage::UpdateSpectrum, Stage::HorizontalFft, Stage::VerticalFft, Stage::AssembleMaps]
}

/// The per-frame dispatches: the chain of steady kernels up to the first one
/// that is not ready.
pub open spec fn steady_plan(ready: StageReadiness, size: nat) -> Seq<Dispatch> {
    Seq::new(ready.ready_chain(), |i: int| dispatch_of(steady_stages()[i], size))
}

/// A regeneration is due and one of its kernels cannot be dispatched.
pub open spec fn blocked(due: bool, ready: StageReadiness) -> bool {
    due && !ready.regeneration()
}

/// All dispatches of one frame, in the order in which they are recorded.
/// With no regeneration due it is the steady chain.  With one due it is the
/// regeneration and behind it the steady chain; but while the regeneration is
/// blocked nothing is dispatched, since every later kernel works on what the
/// regeneration would write.
pub open spec fn frame_plan(due: bool, ready: StageReadiness, size: nat) -> Seq<Dispatch> {
    if !due {
        steady_plan(ready, size)
    } else if ready.regeneration() {
        regeneration_plan(size) + steady_plan(ready, size)
    } else {
        Seq::empty()
    }
}

/// The plan holds the regeneration: it begins with the generator and the
/// packer.
pub open spec fn plan_regenerates(plan: Seq<Dispatch>) -> bool {
    plan.len() >= 2 && plan[0].stage == Stage::InitializeSpectrum && plan[1].stage
        == Stage::PackSpectrumConjugates
}

/// Whether the plan holds the regeneration.  This is what the node is told
/// when it begins the next frame.
pub fn regenerates(plan: &Vec<Dispatch>) -> (yes: bool)
    ensures
        yes == plan_regenerates(plan@),
{
    plan.len() >= 2 && plan[0].stage == Stage::InitializeSpectrum && plan[1].stage
        == Stage::PackSpectrumConjugates
}

/// The compute node of the render graph.
#[derive(Clone, Copy, Debug)]
pub struct OceanComputeNode {
    commit_init_spectrum: bool,
    update_init_spectrum: bool,
}

impl View for OceanComputeNode {
    type V = NodeState;

    closed spec fn view(&self) -> NodeState {
        NodeState { committed: self.commit_init_spectrum, due: self.update_init_spectrum }
    }
}

impl Default for OceanComputeNode {
    /// A node that has committed to nothing.
    fn default() -> (node: Self)
        ensures
            node@ == (NodeState { committed: false, due: false }),
    {
        OceanComputeNode { commit_init_spectrum: false, update_init_spectrum: false }
    }
}

impl OceanComputeNode {
    /// Name under which the node is entered in the render graph.
    pub const NAME: &'static str = "ocean_compute_node";

    /// Whether a regeneration is committed for the next execution.
    pub fn is_committed(&self) -> (yes: bool)
        ensures
            yes == self@.committed,
    {
        self.commit_init_spectrum
    }

    /// Whether a regeneration is due on the frame being run.
    pub fn is_due(&self) -> (yes: bool)
        ensures
            yes == self@.due,
    {
        self.update_init_spectrum
    }

    /// Begins a frame.  `regenerated` tells whether the plan of the frame
    /// before held the regeneration: only that spends a regeneration that
    /// was due.  The commitment of the frame before falls due, and a pending
    /// status becomes the commitment of this frame.
    pub fn update(&mut self, status: &mut OceanInitSpectrumStatus, regenerated: bool)
        ensures
            (final(self)@, *final(status)) == node_step(old(self)@, *old(status), regenerated),
    {
        let pending: bool = match *status {
            OceanInitSpectrumStatus::Update => true,
            OceanInitSpectrumStatus::Wait => false,
        };
        self.update_init_spectrum = self.commit_init_spectrum || (self.update_init_spectrum
            && !regenerated);
        self.commit_init_spectrum = pending;
        *status = OceanInitSpectrumStatus::Wait;
    }

    /// Runs the trigger through one whole frame: takes note of the changes,
    /// begins the frame and plans its dispatches.  `regenerated` tells
    /// whether the plan of the frame before held the regeneration.
    pub fn advance_frame(
        &mut self,
        status: &mut OceanInitSpectrumStatus,
        settings_changed: bool,
        spectrum_settings_changed: bool,
        regenerated: bool,
        ready: &StageReadiness,
        pipeline: &OceanComputePipeline,
    ) -> (plan: Vec<Dispatch>)
        ensures
            (Scheduler {
                status: *final(status),
                node: final(self)@,
                regenerated: plan_regenerates(plan@),
            }) == frame(
                Scheduler { status: *old(status), node: old(self)@, regenerated },
                settings_changed || spectrum_settings_changed,
                *ready,
            ),
            plan@ == frame_plan(final(self)@.due, *ready, pipeline@.size),
    {
        update_init_spectrum_status(settings_changed, spectrum_settings_changed, status);
        self.update(status, regenerated);
        let plan = self.run(ready, pipeline);
        proof {
            lemma_regeneration_leads_the_plan(self@.due, *ready, pipeline@.size);
        }
        plan
    }

    /// Plans the dispatches of the frame.  While a regeneration is due and
    /// one of its kernels is not ready, nothing is planned.  Otherwise a
    /// regeneration that is due comes first and whole, and the kernels of
    /// every frame follow in order up to the first that is not ready, which
    /// is left, with all behind it, for the next frame.
    pub fn run(&self, ready: &StageReadiness, pipeline: &OceanComputePipeline) -> (plan: Vec<
        Dispatch,
    >)
        ensures
            plan@ == frame_plan(self@.due, *ready, pipeline@.size),
    {
        let mut plan: Vec<Dispatch> = Vec::new();
        if self.update_init_spectrum {
            if !ready.initialize_spectrum || !ready.pack_spectrum_conjugates {
                return plan;
            }
            plan.push(dispatch_for(Stage::InitializeSpectrum, pipeline));
            plan.push(dispatch_for(Stage::PackSpectrumConjugates, pipeline));
        }
        if !ready.update_spectrum {
            return plan;
        }
        plan.push(dispatch_for(Stage::UpdateSpectrum, pipeline));
        if !ready.horizontal_fft {
            return plan;
        }
        plan.push(dispatch_for(Stage::HorizontalFft, pipeline));
        if !ready.vertical_fft {
            return plan;
        }
        plan.push(dispatch_for(Stage::VerticalFft, pipeline));
        if !ready.assemble_maps {
            return plan;
        }
        plan.push(dispatch_for(Stage::AssembleMaps, pipeline));
        plan
    }
}

/// The trigger as a whole: the status that the application writes, the node
/// that reads it, and whether the plan of the last frame held the
/// regeneration.
pub struct Scheduler {
    pub status: OceanInitSpectrumStatus,
    pub node: NodeState,
    pub regenerated: bool,
}

impl Scheduler {
    /// Nothing is pending, nothing is committed and nothing is due.
    pub open spec fn idle(self) -> bool {
        self.status == OceanInitSpectrumStatus::Wait && !self.node.committed && !self.node.due
    }
}

/// One frame of the trigger: the parameters are looked at, the node begins
/// its frame, and the frame is planned and performed.
pub open spec fn frame(s: Scheduler, changed: bool, ready: StageReadiness) -> Scheduler {
    let (node, status) = node_step(s.node, status_after_signal(s.status, changed), s.regenerated);
    Scheduler { status, node, regenerated: node.due && ready.regeneration() }
}

/// The trigger after the first `count` frames of a run in which frame `f`
/// observes a change exactly if `changes[f]` and finds the kernels as
/// `ready[f]` says.
pub open spec fn after_frames(
    start: Scheduler,
    changes: Seq<bool>,
    ready: Seq<StageReadiness>,
    count: nat,
) -> Scheduler
    decreases count,
{
    if count == 0 {
        start
    } else {
        frame(
            after_frames(start, changes, ready, (count - 1) as nat),
            changes[count - 1],
            ready[count - 1],
        )
    }
}

/// Frame `f` of the run regenerates the initial spectrum.
pub open spec fn regenerates_on(
    start: Scheduler,
    changes: Seq<bool>,
    ready: Seq<StageReadiness>,
    f: nat,
) -> bool {
    after_frames(start, changes, ready, f + 1).regenerated
}

/// The plan of a frame holds the regeneration exactly if a regeneration is
/// due and both its kernels are ready.  Then the generator and the packer are
/// its first two dispatches and the only ones of their kind; in no other plan
/// does either of them occur.
pub proof fn lemma_regeneration_leads_the_plan(due: bool, ready: StageReadiness, size: nat)
    ensures
        ({
            let plan = frame_plan(due, ready, size);
            &&& plan_regenerates(plan) <==> due && ready.regeneration()
            &&& forall|i: int|
                0 <= i < plan.len() && (#[trigger] plan[i]).stage.regenerates() ==> plan_regenerates(
                    plan,
                ) && i < 2
        }),
{
    let plan = frame_plan(due, ready, size);
    let tail = steady_plan(ready, size);
    assert forall|i: int|
        0 <= i < plan.len() && (#[trigger] plan[i]).stage.regenerates() implies due
        && ready.regeneration() && i < 2 by {
        if !due {
            assert(plan[i] == tail[i]);
        } else if i >= 2 {
            assert(plan[i] == tail[i - 2]);
        }
    }
    if !due && plan.len() >= 2 {
        assert(plan[0] == tail[0]);
    }
}

/// A frame whose regeneration is due and blocked dispatches nothing: no
/// kernel runs ahead of the regeneration it depends on.
pub proof fn lemma_blocked_regeneration_empties_the_plan(
    due: bool,
    ready: StageReadiness,
    size: nat,
)
    requires
        blocked(due, ready),
    ensures
        frame_plan(due, ready, size).len() == 0,
        !plan_regenerates(frame_plan(due, ready, size)),
{
}

/// A regeneration that is due is spent only by a plan that holds the
/// generator and the packer: until then it stays due, whatever else happens.
/// And a commitment always falls due on the next frame.
pub proof fn lemma_commitment_is_spent_only_by_regeneration(
    node: NodeState,
    status: OceanInitSpectrumStatus,
    regenerated: bool,
)
    ensures
        node.due && !regenerated ==> node_step(node, status, regenerated).0.due,
        node.committed ==> node_step(node, status, regenerated).0.due,
        !node.committed && (regenerated || !node.due) ==> !node_step(node, status, regenerated).0.due,
{
}

/// No frame leaves the initial spectrum unpacked: a dispatch that writes the
/// initial spectrum is the packer, or the generator with the packer directly
/// behind it.  So the field is Hermitian whenever a later kernel reads it.
pub proof fn lemma_plan_leaves_the_spectrum_packed(
    due: bool,
    ready: StageReadiness,
    size: nat,
    i: int,
)
    requires
        0 <= i < frame_plan(due, ready, size).len(),
        output_of(frame_plan(due, ready, size)[i].stage) == Resource::InitialSpectrum,
    ensures
        ({
            let plan = frame_plan(due, ready, size);
            ||| plan[i].stage == Stage::PackSpectrumConjugates
            ||| plan[i].stage == Stage::InitializeSpectrum && i + 1 < plan.len() && plan[i
                + 1].stage == Stage::PackSpectrumConjugates
        }),
{
    lemma_regeneration_leads_the_plan(due, ready, size);
}

/// The dispatches of a frame stand in pipeline order, each kernel at most
/// once, each described as the stage table describes it; unless the frame is
/// blocked, a steady kernel is in the plan exactly if it and every steady
/// kernel before it are ready.
pub proof fn lemma_plan_follows_pipeline_order(due: bool, ready: StageReadiness, size: nat)
    ensures
        ({
            let plan = frame_plan(due, ready, size);
            &&& forall|i: int, j: int|
                0 <= i < j < plan.len() ==> (#[trigger] plan[i]).stage.rank() < (
                #[trigger] plan[j]).stage.rank()
            &&& forall|i: int|
                0 <= i < plan.len() ==> #[trigger] plan[i] == dispatch_of(plan[i].stage, size)
            &&& forall|k: int|
                0 <= k < 4 ==> (plan.contains(dispatch_of(#[trigger] steady_stages()[k], size))
                    <==> !blocked(due, ready) && k < ready.ready_chain())
        }),
{
    let plan = frame_plan(due, ready, size);
    let tail = steady_plan(ready, size);
    let lead: int = if due && ready.regeneration() { 2 } else { 0 };
    assert forall|i: int| 0 <= i < plan.len() implies (#[trigger] plan[i]) == dispatch_of(
        plan[i].stage,
        size,
    ) && (i < lead ==> plan[i].stage.rank() == i) && (i >= lead ==> plan[i].stage.rank() == i
        - lead + 2) by {
        if i >= lead {
            assert(plan[i] == tail[i - lead]);
        }
    }
    assert forall|k: int| 0 <= k < 4 implies (plan.contains(
        dispatch_of(#[trigger] steady_stages()[k], size),
    ) <==> !blocked(due, ready) && k < ready.ready_chain()) by {
        let d = dispatch_of(steady_stages()[k], size);
        if !blocked(due, ready) && k < ready.ready_chain() {
            assert(plan[lead + k] == tail[k]);
            assert(plan[lead + k] == d);
        } else {
            assert forall|i: int| 0 <= i < plan.len() implies plan[i] != d by {
                assert(d.stage.rank() == k + 2);
            }
        }
    }
}

/// From an idle trigger, while the regeneration kernels are ready, a frame
/// regenerates the initial spectrum exactly if the frame before it observed a
/// change: once for each change, one frame late.
pub proof fn lemma_regeneration_follows_each_change(
    start: Scheduler,
    changes: Seq<bool>,
    ready: Seq<StageReadiness>,
    f: nat,
)
    requires
        start.idle(),
        changes.len() == ready.len(),
        f < changes.len(),
        forall|i: int| 0 <= i < ready.len() ==> (#[trigger] ready[i]).regeneration(),
    ensures
        regenerates_on(start, changes, ready, f) <==> f >= 1 && changes[f - 1],
        after_frames(start, changes, ready, f + 1).node.due <==> f >= 1 && changes[f - 1],
        after_frames(start, changes, ready, f + 1).node.committed <==> changes[f as int],
        after_frames(start, changes, ready, f + 1).status == OceanInitSpectrumStatus::Wait,
    decreases f,
{
    if f > 0 {
        lemma_regeneration_follows_each_change(start, changes, ready, (f - 1) as nat);
    }
    assert(after_frames(start, changes, ready, f + 1) == frame(
        after_frames(start, changes, ready, f),
        changes[f as int],
        ready[f as int],
    ));
}

/// A single change, observed on frame `observed` by an idle trigger whose
/// regeneration kernels are ready, regenerates the initial spectrum exactly
/// once: on the frame after it, and on no other frame.
pub proof fn lemma_single_change_regenerates_once(
    start: Scheduler,
    changes: Seq<bool>,
    ready: Seq<StageReadiness>,
    observed: nat,
    f: nat,
)
    requires
        start.idle(),
        changes.len() == ready.len(),
        f < changes.len(),
        forall|i: int| 0 <= i < changes.len() ==> (changes[i] <==> i == observed),
        forall|i: int| 0 <= i < ready.len() ==> (#[trigger] ready[i]).regeneration(),
    ensures
        regenerates_on(start, changes, ready, f) <==> f == observed + 1,
{
    lemma_regeneration_follows_each_change(start, changes, ready, f);
}

/// The first frame from `from` on whose regeneration kernels are ready, or
/// the length of the run when there is none.
pub open spec fn first_ready(ready: Seq<StageReadiness>, from: nat) -> nat
    decreases ready.len() - from,
{
    if from >= ready.len() {
        ready.len()
    } else if ready[from as int].regeneration() {
        from
    } else {
        first_ready(ready, from + 1)
    }
}

/// A regeneration whose kernels are not ready is put off, not dropped: after
/// a single change observed on frame `observed` by an idle trigger, the
/// regeneration is due on every frame from the one after the change to the
/// first that finds both kernels ready, is planned on that frame and on no
/// other, and every frame on which it is due before that is blocked.
pub proof fn lemma_unready_regeneration_is_retried(
    start: Scheduler,
    changes: Seq<bool>,
    ready: Seq<StageReadiness>,
    observed: nat,
    f: nat,
)
    requires
        start.idle(),
        changes.len() == ready.len(),
        f < changes.len(),
        forall|i: int| 0 <= i < changes.len() ==> (changes[i] <==> i == observed),
    ensures
        regenerates_on(start, changes, ready, f) <==> f == first_ready(ready, observed + 1),
        after_frames(start, changes, ready, f + 1).node.due <==> observed < f <= first_ready(
            ready,
            observed + 1,
        ),
        after_frames(start, changes, ready, f + 1).node.committed <==> f == observed,
        after_frames(start, changes, ready, f + 1).status == OceanInitSpectrumStatus::Wait,
        observed < f < first_ready(ready, observed + 1) ==> blocked(
            after_frames(start, changes, ready, f + 1).node.due,
            ready[f as int],
        ),
    decreases f,
{
    if f > 0 {
        lemma_unready_regeneration_is_retried(start, changes, ready, observed, (f - 1) as nat);
    }
    assert(after_frames(start, changes, ready, f + 1) == frame(
        after_frames(start, changes, ready, f),
        changes[f as int],
        ready[f as int],
    ));
    lemma_first_ready(ready, observed + 1, f);
    if f > 0 {
        lemma_first_ready(ready, observed + 1, (f - 1) as nat);
    }
}

/// `first_ready` is the least ready frame at or after `from`.
proof fn lemma_first_ready(ready: Seq<StageReadiness>, from: nat, f: nat)
    requires
        f < ready.len(),
    ensures
        first_ready(ready, from) >= from || first_ready(ready, from) == ready.len(),
        first_ready(ready, from) <= ready.len(),
        from <= f < first_ready(ready, from) ==> !ready[f as int].regeneration(),
        f == first_ready(ready, from) ==> ready[f as int].regeneration(),
        from <= f && ready[f as int].regeneration() ==> first_ready(ready, from) <= f,
    decreases ready.len() - from,
{
    if from < ready.len() && !ready[from as int].regeneration() {
        lemma_first_ready(ready, from + 1, f);
    }
}

} // verus!
