//! Showing a profile, one change after the other. A run hands out what to do
//! next and is told how it went; whoever drives it talks to the X server.

use vstd::prelude::*;

use crate::displays::{DisplaysConfiguration, DisplaysView};
#[allow(unused_imports)]
use crate::plan;
use crate::plan::{plan_layout, plan_power, Plan, PlanError, PlanErrorView, PlanView, Step, StepView};
use crate::screen::{Mode, Output, OutputView};

verus! {

/// What has happened since the last action was handed out.
#[derive(Debug)]
pub enum Event {
    /// The action succeeded, or the run begins.
    Ready,
    /// The action failed.
    Failed,
    /// The outputs as they are now.
    Outputs(Vec<Output>),
}

/// The contents of an [`Event`].
pub enum EventView {
    Ready,
    Failed,
    Outputs(Seq<OutputView>),
}

impl View for Event {
    type V = EventView;

    open spec fn view(&self) -> EventView {
        match *self {
            Event::Ready => EventView::Ready,
            Event::Failed => EventView::Failed,
            Event::Outputs(outputs) => EventView::Outputs(outputs.deep_view()),
        }
    }
}

/// What to do next.
#[derive(Debug)]
pub enum Action {
    /// Make a change. It is given over the outputs that were reported last.
    Make(Step),
    /// Ask for the outputs and report them.
    FetchOutputs,
    /// Stop: the profile is shown.
    Finish,
    /// Stop: the profile cannot be shown.
    Fail(PlanError),
    /// Stop: an action failed, or the run was over already.
    Abort,
}

/// The contents of an [`Action`].
pub enum ActionView {
    Make(StepView),
    FetchOutputs,
    Finish,
    Fail(PlanErrorView),
    Abort,
}

impl View for Action {
    type V = ActionView;

    open spec fn view(&self) -> ActionView {
        match *self {
            Action::Make(step) => ActionView::Make(step@),
            Action::FetchOutputs => ActionView::FetchOutputs,
            Action::Finish => ActionView::Finish,
            Action::Fail(error) => ActionView::Fail(error@),
            Action::Abort => ActionView::Abort,
        }
    }
}

/// How far a run has come.
#[derive(Clone, Copy, Debug, PartialEq, Eq, Structural)]
pub enum Stage {
    /// Outputs are turned off and on.
    Power,
    /// The outputs have changed and are to be reported anew.
    Fetching,
    /// Modes are set and outputs are placed.
    Layout,
    /// The last action has been handed out.
    Over,
}

/// A profile being shown.
#[derive(Debug)]
pub struct ApplyRun {
    stage: Stage,
    config: DisplaysConfiguration,
    modes: Vec<Mode>,
    outputs: Vec<Output>,
    plan: Plan,
    next: usize,
}

/// The state of an [`ApplyRun`]: the plan of the stage it is in, and how many
/// steps of it have been handed out.
pub struct RunView {
    pub stage: Stage,
    pub config: DisplaysView,
    pub modes: Seq<Mode>,
    pub outputs: Seq<OutputView>,
    pub plan: PlanView,
    pub next: nat,
}

impl View for ApplyRun {
    type V = RunView;

    closed spec fn view(&self) -> RunView {
        RunView {
            stage: self.stage,
            config: self.config@,
            modes: self.modes@,
            outputs: self.outputs.deep_view(),
            plan: self.plan@,
            next: self.next as nat,
        }
    }
}

/// The state in which a run begins.
pub open spec fn begun(
    config: DisplaysView,
    modes: Seq<Mode>,
    outputs: Seq<OutputView>,
) -> RunView {
    RunView {
        stage: Stage::Power,
        config,
        modes,
        outputs,
        plan: plan::power_plan(config.displays, outputs),
        next: 0,
    }
}

impl RunView {
    /// The state in which the layout begins, over these outputs.
    pub open spec fn laying_out(self, outputs: Seq<OutputView>) -> RunView {
        RunView {
            stage: Stage::Layout,
            outputs,
            plan: plan::layout_plan(self.config.displays, self.modes, outputs),
            next: 0,
            ..self
        }
    }

    /// The state, with nothing more to hand out.
    pub open spec fn over(self) -> RunView {
        RunView { stage: Stage::Over, ..self }
    }

    /// Whether steps of the plan are left.
    pub open spec fn has_steps(self) -> bool {
        self.next < self.plan.steps.len()
    }

    /// Hands out the next step of the plan.
    pub open spec fn making(self) -> (RunView, ActionView) {
        (
            RunView { next: self.next + 1, ..self },
            ActionView::Make(self.plan.steps[self.next as int]),
        )
    }

    /// Hands out why the plan goes no further.
    pub open spec fn giving_up(self) -> (RunView, ActionView) {
        (
            RunView { plan: PlanView { error: None, ..self.plan }, ..self }.over(),
            ActionView::Fail(self.plan.error->0),
        )
    }

    /// What is handed out while the layout is made: its steps, and then how it
    /// ends.
    pub open spec fn in_layout(self) -> (RunView, ActionView) {
        if self.has_steps() {
            self.making()
        } else if self.plan.error is Some {
            self.giving_up()
        } else {
            (self.over(), ActionView::Finish)
        }
    }

    /// What is handed out while outputs are turned off and on: those steps, and
    /// then a request for the outputs where there were any steps, or else the
    /// layout over the outputs as they are.
    pub open spec fn in_power(self) -> (RunView, ActionView) {
        if self.has_steps() {
            self.making()
        } else if self.plan.error is Some {
            self.giving_up()
        } else if self.plan.steps.len() > 0 {
            (RunView { stage: Stage::Fetching, ..self }, ActionView::FetchOutputs)
        } else {
            self.laying_out(self.outputs).in_layout()
        }
    }

    /// The next state, and what is handed out, when `event` is reported.
    pub open spec fn after(self, event: EventView) -> (RunView, ActionView) {
        match (event, self.stage) {
            (EventView::Failed, _) => (self.over(), ActionView::Abort),
            (_, Stage::Over) => (self, ActionView::Abort),
            (EventView::Outputs(outputs), Stage::Fetching) => self.laying_out(outputs).in_layout(),
            (_, Stage::Fetching) => (self, ActionView::FetchOutputs),
            (_, Stage::Power) => self.in_power(),
            (_, Stage::Layout) => self.in_layout(),
        }
    }
}

impl ApplyRun {
    /// Begins to show a profile, given the modes that the screen knows and its
    /// outputs.
    pub fn start(config: DisplaysConfiguration, modes: Vec<Mode>, outputs: Vec<Output>) -> (r: Self)
        ensures
            r@ == begun(config@, modes@, outputs.deep_view()),
    {
        let plan = plan_power(&config, &outputs);
        ApplyRun { stage: Stage::Power, config, modes, outputs, plan, next: 0 }
    }

    /// Plans the layout over the outputs as they are known.
    fn lay_out(&mut self)
        ensures
            final(self)@ == old(self)@.laying_out(old(self)@.outputs),
    {
        self.plan = plan_layout(&self.config, &self.modes, &self.outputs);
        self.stage = Stage::Layout;
        self.next = 0;
    }

    /// Hands out the next step of the plan, or why the plan goes no further.
    fn make_step(&mut self) -> (r: Option<Action>)
        ensures
            match r {
                Some(action) => {
                    &&& old(self)@.has_steps() || old(self)@.plan.error is Some
                    &&& (final(self)@, action@) == if old(self)@.has_steps() {
                        old(self)@.making()
                    } else {
                        old(self)@.giving_up()
                    }
                },
                None => {
                    &&& !old(self)@.has_steps() && old(self)@.plan.error is None
                    &&& final(self)@ == old(self)@
                },
            },
    {
        if self.next < self.plan.steps.len() {
            let step = self.plan.steps[self.next];
            assert(self.plan@.steps[self.next as int] == step@);
            self.next += 1;
            return Some(Action::Make(step));
        }
        match self.plan.error.take() {
            Some(error) => {
                self.stage = Stage::Over;
                Some(Action::Fail(error))
            },
            None => None,
        }
    }

    /// What is handed out while the layout is made.
    fn step_layout(&mut self) -> (r: Action)
        ensures
            (final(self)@, r@) == old(self)@.in_layout(),
    {
        match self.make_step() {
            Some(action) => action,
            None => {
                self.stage = Stage::Over;
                Action::Finish
            },
        }
    }

    /// What is handed out while outputs are turned off and on.
    fn step_power(&mut self) -> (r: Action)
        ensures
            (final(self)@, r@) == old(self)@.in_power(),
    {
        match self.make_step() {
            Some(action) => action,
            None => if self.plan.steps.len() > 0 {
                self.stage = Stage::Fetching;
                Action::FetchOutputs
            } else {
                self.lay_out();
                self.step_layout()
            },
        }
    }

    /// Takes in what has happened and hands out what to do next.
    pub fn advance(&mut self, event: Event) -> (r: Action)
        ensures
            (final(self)@, r@) == old(self)@.after(event@),
    {
        match (event, self.stage) {
            (Event::Failed, _) => {
                self.stage = Stage::Over;
                Action::Abort
            },
            (_, Stage::Over) => Action::Abort,
            (Event::Outputs(outputs), Stage::Fetching) => {
                self.outputs = outputs;
                self.lay_out();
                self.step_layout()
            },
            (_, Stage::Fetching) => Action::FetchOutputs,
            (_, Stage::Power) => self.step_power(),
            (_, Stage::Layout) => self.step_layout(),
        }
    }
}

/// What is reported back to a run whose actions all succeed, where `fresh` are
/// the outputs once they have changed.
pub open spec fn good_news(s: RunView, fresh: Seq<OutputView>) -> EventView {
    if s.stage == Stage::Fetching {
        EventView::Outputs(fresh)
    } else {
        EventView::Ready
    }
}

/// The first `n` actions of a run whose actions all succeed.
pub open spec fn handed_out(s: RunView, fresh: Seq<OutputView>, n: nat) -> Seq<ActionView>
    decreases n,
{
    if n == 0 {
        seq![]
    } else {
        let (t, action) = s.after(good_news(s, fresh));
        seq![action] + handed_out(t, fresh, (n - 1) as nat)
    }
}

/// Steps as actions.
pub open spec fn made(steps: Seq<StepView>) -> Seq<ActionView> {
    Seq::new(steps.len(), |i: int| ActionView::Make(steps[i]))
}

/// A plan as actions, with how it ends.
pub open spec fn carried_out(plan: PlanView) -> Seq<ActionView> {
    made(plan.steps) + seq![
        match plan.error {
            Some(error) => ActionView::Fail(error),
            None => ActionView::Finish,
        },
    ]
}

/// All actions of a run whose actions all succeed: first the outputs are turned
/// off and on; where any of that was needed the outputs are fetched anew; and
/// then they are laid out.
pub open spec fn whole_run(
    config: DisplaysView,
    modes: Seq<Mode>,
    outputs: Seq<OutputView>,
    fresh: Seq<OutputView>,
) -> Seq<ActionView> {
    let power = plan::power_plan(config.displays, outputs);
    if power.error is Some {
        carried_out(power)
    } else if power.steps.len() > 0 {
        made(power.steps) + seq![ActionView::FetchOutputs] + carried_out(
            plan::layout_plan(config.displays, modes, fresh),
        )
    } else {
        carried_out(plan::layout_plan(config.displays, modes, outputs))
    }
}

/// The steps of a plan are handed out one after the other.
proof fn lemma_steps_handed_out(s: RunView, fresh: Seq<OutputView>, more: nat)
    requires
        s.stage == Stage::Power || s.stage == Stage::Layout,
        s.next <= s.plan.steps.len(),
    ensures
        handed_out(s, fresh, (s.plan.steps.len() - s.next + more) as nat) == made(
            s.plan.steps.skip(s.next as int),
        ) + handed_out(RunView { next: s.plan.steps.len(), ..s }, fresh, more),
    decreases s.plan.steps.len() - s.next,
{
    let done = RunView { next: s.plan.steps.len(), ..s };
    let left = s.plan.steps.skip(s.next as int);
    if s.next == s.plan.steps.len() {
        assert(made(left) =~= seq![]);
        assert(done == s);
        assert(seq![] + handed_out(done, fresh, more) =~= handed_out(done, fresh, more));
    } else {
        let t = RunView { next: s.next + 1, ..s };
        lemma_steps_handed_out(t, fresh, more);
        let first = ActionView::Make(s.plan.steps[s.next as int]);
        assert(s.after(good_news(s, fresh)) == (t, first));
        let rest = s.plan.steps.skip(t.next as int);
        assert(made(left) =~= seq![first] + made(rest));
        assert(seq![first] + (made(rest) + handed_out(done, fresh, more)) =~= made(left)
            + handed_out(done, fresh, more));
    }
}

/// A plan whose end is the end of the run is carried out.
proof fn lemma_plan_carried_out(s: RunView, fresh: Seq<OutputView>)
    requires
        s.stage == Stage::Layout || (s.stage == Stage::Power && s.plan.error is Some),
        s.next == 0,
    ensures
        handed_out(s, fresh, carried_out(s.plan).len()) == carried_out(s.plan),
{
    lemma_steps_handed_out(s, fresh, 1);
    let done = RunView { next: s.plan.steps.len(), ..s };
    let (t, last) = done.after(good_news(done, fresh));
    assert(handed_out(t, fresh, 0) =~= seq![]);
    assert(handed_out(done, fresh, 1) =~= seq![last]);
    assert(s.plan.steps.skip(0) =~= s.plan.steps);
    assert(carried_out(s.plan) =~= made(s.plan.steps) + seq![last]);
}

/// A run whose actions all succeed hands out exactly the planned steps: what
/// turns outputs off and on; then, where there was any of it, a request for the
/// outputs; then the layout over the outputs as they are by then; and last how
/// it ends.
pub proof fn a_good_run_follows_the_plans(
    config: DisplaysView,
    modes: Seq<Mode>,
    outputs: Seq<OutputView>,
    fresh: Seq<OutputView>,
)
    ensures
        ({
            let expected = whole_run(config, modes, outputs, fresh);
            handed_out(begun(config, modes, outputs), fresh, expected.len()) == expected
        }),
{
    let s = begun(config, modes, outputs);
    let power = s.plan;
    if power.error is Some {
        lemma_plan_carried_out(s, fresh);
    } else if power.steps.len() > 0 {
        let done = RunView { next: power.steps.len(), ..s };
        let (waiting, fetch) = done.after(good_news(done, fresh));
        assert(fetch == ActionView::FetchOutputs);
        let l = waiting.laying_out(fresh);
        let tail = carried_out(l.plan);
        lemma_plan_carried_out(l, fresh);
        lemma_steps_handed_out(s, fresh, 1 + tail.len());
        assert(waiting.after(good_news(waiting, fresh)) == l.after(good_news(l, fresh)));
        assert(handed_out(waiting, fresh, tail.len()) == tail);
        assert(handed_out(done, fresh, 1 + tail.len()) =~= seq![fetch] + tail);
        assert(power.steps.skip(0) =~= power.steps);
        assert(whole_run(config, modes, outputs, fresh) =~= made(power.steps) + (seq![fetch]
            + tail));
    } else {
        let l = s.laying_out(outputs);
        lemma_plan_carried_out(l, fresh);
        assert(s.after(good_news(s, fresh)) == l.after(good_news(l, fresh)));
    }
}

/// A reported failure ends a run at once, whatever it was doing.
pub proof fn a_failure_ends_the_run(s: RunView)
    ensures
        s.after(EventView::Failed).0.stage == Stage::Over,
        s.after(EventView::Failed).1 == ActionView::Abort,
{
}

/// A run that is over stays over, and asks for nothing more.
pub proof fn a_run_that_is_over_stays_over(s: RunView, event: EventView)
    requires
        s.stage == Stage::Over,
    ensures
        s.after(event).0.stage == Stage::Over,
        s.after(event).1 == ActionView::Abort,
{
}

/// A run is over exactly when it has handed out one of the actions that stop it.
pub proof fn a_run_ends_with_its_last_action(s: RunView, event: EventView)
    ensures
        s.after(event).0.stage == Stage::Over <==> (s.after(event).1 is Finish || s.after(
            event,
        ).1 is Fail || s.after(event).1 is Abort),
{
}

/// Whether the steps that a run can hand out speak of outputs that it knows.
pub open spec fn is_sound(s: RunView) -> bool {
    forall|k: int|
        0 <= k < s.plan.steps.len() ==> plan::is_within(
            #[trigger] s.plan.steps[k],
            s.outputs.len(),
        )
}

/// From its beginning on, and whatever is reported to it, a run asks only for
/// changes to outputs among those that were reported last.
pub proof fn a_run_speaks_of_outputs_that_are_there(
    config: DisplaysView,
    modes: Seq<Mode>,
    outputs: Seq<OutputView>,
    s: RunView,
    event: EventView,
)
    requires
        is_sound(s),
    ensures
        is_sound(begun(config, modes, outputs)),
        is_sound(s.after(event).0),
        s.after(event).1 matches ActionView::Make(step) ==> plan::is_within(
            step,
            s.after(event).0.outputs.len(),
        ),
        s.after(event).0.outputs == if s.stage == Stage::Fetching && event is Outputs {
            event->Outputs_0
        } else {
            s.outputs
        },
{
    plan::steps_speak_of_outputs_that_are_there(config.displays, modes, outputs);
    plan::steps_speak_of_outputs_that_are_there(s.config.displays, s.modes, s.outputs);
    if let EventView::Outputs(fresh) = event {
        plan::steps_speak_of_outputs_that_are_there(s.config.displays, s.modes, fresh);
    }
}

/// A run to which only successes are reported, and `fresh` as the outputs when it
/// has asked for them, does this and nothing else. It makes every step that turns
/// outputs off and on, in their sequence. Where a monitor is on no output it fails
/// then. Where there were such steps it asks for the outputs, once, and lays out
/// the monitors over those; where there were none, over the outputs as they were. It
/// makes every step of the layout, and only then finishes, or fails where the layout
/// does. Whatever is reported after that, it does nothing more.
pub proof fn a_run_turns_fetches_and_lays_out(
    config: DisplaysView,
    modes: Seq<Mode>,
    outputs: Seq<OutputView>,
    fresh: Seq<OutputView>,
    states: Seq<RunView>,
    events: Seq<EventView>,
    actions: Seq<ActionView>,
)
    requires
        states.len() == actions.len() + 1,
        events.len() == actions.len(),
        states[0] == begun(config, modes, outputs),
        forall|k: int|
            0 <= k < actions.len() ==> states[k].after(#[trigger] events[k]) == (
                states[k + 1],
                actions[k],
            ),
        forall|k: int|
            0 <= k < actions.len() ==> #[trigger] events[k] == if k > 0 && actions[k - 1]
                == ActionView::FetchOutputs {
                EventView::Outputs(fresh)
            } else {
                EventView::Ready
            },
    ensures
        ({
            let power = plan::power_plan(config.displays, outputs);
            let switched = power.steps.len() as int;
            let begin = if switched > 0 {
                switched + 1
            } else {
                0
            };
            let layout = plan::layout_plan(
                config.displays,
                modes,
                if switched > 0 {
                    fresh
                } else {
                    outputs
                },
            );
            let end = begin + layout.steps.len();
            forall|k: int|
                0 <= k < actions.len() ==> #[trigger] actions[k] == if k < switched {
                    ActionView::Make(power.steps[k])
                } else if power.error is Some {
                    if k == switched {
                        ActionView::Fail(power.error->0)
                    } else {
                        ActionView::Abort
                    }
                } else if k < begin {
                    ActionView::FetchOutputs
                } else if k < end {
                    ActionView::Make(layout.steps[k - begin])
                } else if k > end {
                    ActionView::Abort
                } else if layout.error is Some {
                    ActionView::Fail(layout.error->0)
                } else {
                    ActionView::Finish
                }
        }),
{
    lemma_run_so_far(config, modes, outputs, fresh, states, events, actions, actions.len() as int);
}

/// The same of the first `n` actions, and the state that they lead to.
proof fn lemma_run_so_far(
    config: DisplaysView,
    modes: Seq<Mode>,
    outputs: Seq<OutputView>,
    fresh: Seq<OutputView>,
    states: Seq<RunView>,
    events: Seq<EventView>,
    actions: Seq<ActionView>,
    n: int,
)
    requires
        0 <= n <= actions.len(),
        states.len() == actions.len() + 1,
        events.len() == actions.len(),
        states[0] == begun(config, modes, outputs),
        forall|k: int|
            0 <= k < actions.len() ==> states[k].after(#[trigger] events[k]) == (
                states[k + 1],
                actions[k],
            ),
        forall|k: int|
            0 <= k < actions.len() ==> #[trigger] events[k] == if k > 0 && actions[k - 1]
                == ActionView::FetchOutputs {
                EventView::Outputs(fresh)
            } else {
                EventView::Ready
            },
    ensures
        ({
            let power = plan::power_plan(config.displays, outputs);
            let switched = power.steps.len() as int;
            let begin = if switched > 0 {
                switched + 1
            } else {
                0
            };
            let now = if switched > 0 {
                fresh
            } else {
                outputs
            };
            let layout = plan::layout_plan(config.displays, modes, now);
            let end = begin + layout.steps.len();
            &&& if n <= switched {
                states[n] == RunView { next: n as nat, ..begun(config, modes, outputs) }
            } else if power.error is Some {
                states[n].stage == Stage::Over
            } else if n <= begin {
                states[n] == RunView {
                    stage: Stage::Fetching,
                    next: switched as nat,
                    ..begun(config, modes, outputs)
                }
            } else if n <= end {
                states[n] == RunView {
                    stage: Stage::Layout,
                    config,
                    modes,
                    outputs: now,
                    plan: layout,
                    next: (n - begin) as nat,
                }
            } else {
                states[n].stage == Stage::Over
            }
            &&& forall|k: int|
                0 <= k < n ==> #[trigger] actions[k] == if k < switched {
                    ActionView::Make(power.steps[k])
                } else if power.error is Some {
                    if k == switched {
                        ActionView::Fail(power.error->0)
                    } else {
                        ActionView::Abort
                    }
                } else if k < begin {
                    ActionView::FetchOutputs
                } else if k < end {
                    ActionView::Make(layout.steps[k - begin])
                } else if k > end {
                    ActionView::Abort
                } else if layout.error is Some {
                    ActionView::Fail(layout.error->0)
                } else {
                    ActionView::Finish
                }
        }),
    decreases n,
{
    if n > 0 {
        lemma_run_so_far(config, modes, outputs, fresh, states, events, actions, n - 1);
        assert(states[n - 1].after(events[n - 1]) == (states[n], actions[n - 1]));
        if n > 1 {
            assert(actions[n - 2] == ActionView::FetchOutputs || actions[n - 2]
                != ActionView::FetchOutputs);
        }
    }
}

/// The first failure that is reported ends a run: it hands out nothing more,
/// neither then nor later, whatever is reported.
pub proof fn nothing_follows_a_failure(s: RunView, later: EventView)
    ensures
        s.after(EventView::Failed).1 == ActionView::Abort,
        s.after(EventView::Failed).0.after(later).1 == ActionView::Abort,
        s.after(EventView::Failed).0.after(later).0.stage == Stage::Over,
{
}

/// A run that waits for the outputs goes on asking until they are reported, and
/// keeps its state.
pub proof fn a_run_waits_for_the_outputs(s: RunView)
    requires
        s.stage == Stage::Fetching,
    ensures
        s.after(EventView::Ready) == (s, ActionView::FetchOutputs),
{
}

/// Outputs are taken over only where a run has asked for them. At any other time
/// they count as a success, and the outputs that it knows stay.
pub proof fn outputs_count_only_when_asked_for(s: RunView, outputs: Seq<OutputView>)
    requires
        s.stage != Stage::Fetching,
    ensures
        s.after(EventView::Outputs(outputs)) == s.after(EventView::Ready),
        s.after(EventView::Outputs(outputs)).0.outputs == s.outputs,
{
}

/// Whatever is reported to it, a run stays with its profile and with the modes that
/// the screen knows.
pub proof fn a_run_keeps_its_profile(s: RunView, event: EventView)
    ensures
        s.after(event).0.config == s.config,
        s.after(event).0.modes == s.modes,
{
}

} // verus!
