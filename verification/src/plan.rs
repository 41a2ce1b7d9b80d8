//! What has to be asked of the X server to show a profile: which outputs to
//! turn off and on, which modes to set, and what to place next to what.

use vstd::prelude::*;
use vstd::string::StringExecFns;

use crate::displays::DisplaysConfiguration;
use crate::monitor::{MonitorDefinition, MonitorView};
#[allow(unused_imports)]
use crate::screen;
use crate::screen::{find_mode, mode_by_id, Mode, Output, OutputView};
#[allow(unused_imports)]
use crate::search;
#[allow(unused_imports)]
use crate::text;
use crate::text::{copy_text, push_decimal};

verus! {

/// A change to make. Outputs are given by their index in the list that the
/// change was planned from.
#[derive(Clone, Copy, Debug, PartialEq, Eq, Structural)]
pub enum Step {
    /// Turn an output off.
    Disable(usize),
    /// Turn an output on.
    Enable(usize),
    /// Set the mode of an output.
    SetMode(usize, Mode),
    /// Place the first output to the right of the second.
    PlaceRightOf(usize, usize),
}

/// The contents of a [`Step`].
pub enum StepView {
    Disable(int),
    Enable(int),
    SetMode(int, Mode),
    PlaceRightOf(int, int),
}

impl View for Step {
    type V = StepView;

    open spec fn view(&self) -> StepView {
        match *self {
            Step::Disable(i) => StepView::Disable(i as int),
            Step::Enable(i) => StepView::Enable(i as int),
            Step::SetMode(i, mode) => StepView::SetMode(i as int, mode),
            Step::PlaceRightOf(i, j) => StepView::PlaceRightOf(i as int, j as int),
        }
    }
}

impl DeepView for Step {
    type V = StepView;

    open spec fn deep_view(&self) -> StepView {
        self@
    }
}

/// Why a profile cannot be shown.
#[derive(Clone, Debug)]
pub enum PlanError {
    /// An available monitor is on no output.
    NoOutputName { sn: Option<String>, product: Option<String> },
    /// No connected output has this name.
    OutputNotFound(String),
    /// The screen does not know the mode that an output shows.
    UnknownMode(u64),
    /// The output supports no mode that is this large.
    NoSuchMode { width: usize, height: usize, output: String },
}

/// The contents of a [`PlanError`].
pub enum PlanErrorView {
    NoOutputName { sn: Option<Seq<char>>, product: Option<Seq<char>> },
    OutputNotFound(Seq<char>),
    UnknownMode(u64),
    NoSuchMode { width: nat, height: nat, output: Seq<char> },
}

impl View for PlanError {
    type V = PlanErrorView;

    open spec fn view(&self) -> PlanErrorView {
        match *self {
            PlanError::NoOutputName { sn, product } => PlanErrorView::NoOutputName {
                sn: sn.deep_view(),
                product: product.deep_view(),
            },
            PlanError::OutputNotFound(name) => PlanErrorView::OutputNotFound(name@),
            PlanError::UnknownMode(xid) => PlanErrorView::UnknownMode(xid),
            PlanError::NoSuchMode { width, height, output } => PlanErrorView::NoSuchMode {
                width: width as nat,
                height: height as nat,
                output: output@,
            },
        }
    }
}

impl DeepView for PlanError {
    type V = PlanErrorView;

    open spec fn deep_view(&self) -> PlanErrorView {
        self@
    }
}

impl PlanErrorView {
    /// The message that tells the user; `monitor` is how the monitor without
    /// an output is to be called.
    pub open spec fn message(self, monitor: Seq<char>) -> Seq<char> {
        match self {
            PlanErrorView::NoOutputName { .. } => "No output name for monitor "@ + monitor,
            PlanErrorView::OutputNotFound(name) => "Output '"@ + name + "' not found"@,
            PlanErrorView::UnknownMode(xid) => "No mode found with xid "@ + text::decimal(
                xid as nat,
            ),
            PlanErrorView::NoSuchMode { width, height, output } => "No mode "@ + text::decimal(
                width,
            ) + "x"@ + text::decimal(height) + " available for "@ + output,
        }
    }
}

impl PlanError {
    /// The message that tells the user; `monitor` is how the monitor without
    /// an output is to be called.
    pub fn message(&self, monitor: &str) -> (r: String)
        ensures
            r@ == self@.message(monitor@),
    {
        let mut out = String::new();
        match self {
            PlanError::NoOutputName { .. } => {
                out.append("No output name for monitor ");
                out.append(monitor);
            },
            PlanError::OutputNotFound(name) => {
                out.append("Output '");
                out.append(name.as_str());
                out.append("' not found");
            },
            PlanError::UnknownMode(xid) => {
                out.append("No mode found with xid ");
                push_decimal(&mut out, *xid);
            },
            PlanError::NoSuchMode { width, height, output } => {
                out.append("No mode ");
                push_decimal(&mut out, *width as u64);
                out.append("x");
                push_decimal(&mut out, *height as u64);
                out.append(" available for ");
                out.append(output.as_str());
            },
        }
        out
    }
}

/// Changes to make one after the other, and why nothing can follow them where
/// that is so.
#[derive(Debug)]
pub struct Plan {
    pub steps: Vec<Step>,
    pub error: Option<PlanError>,
}

/// The contents of a [`Plan`].
pub struct PlanView {
    pub steps: Seq<StepView>,
    pub error: Option<PlanErrorView>,
}

impl View for Plan {
    type V = PlanView;

    open spec fn view(&self) -> PlanView {
        PlanView { steps: self.steps.deep_view(), error: self.error.deep_view() }
    }
}

impl PlanView {
    /// The plan with one more step.
    pub open spec fn followed_by(self, step: StepView) -> PlanView {
        PlanView { steps: self.steps.push(step), ..self }
    }

    /// The plan, going no further.
    pub open spec fn failing(self, error: PlanErrorView) -> PlanView {
        PlanView { error: Some(error), ..self }
    }
}

/// Whether an available monitor is on the output of this name.
pub open spec fn is_active(ms: Seq<MonitorView>, name: Seq<char>) -> bool {
    exists|k: int| 0 <= k < ms.len() && (#[trigger] ms[k]).available && ms[k].name == Some(name)
}

/// Whether an output is connected and has this name.
pub open spec fn connected_as(name: Seq<char>) -> spec_fn(OutputView) -> bool {
    |o: OutputView| o.connected && o.name == name
}

/// The index of the first connected output of this name.
pub open spec fn output_index(outputs: Seq<OutputView>, name: Seq<char>) -> Option<int> {
    search::first_index(outputs, connected_as(name))
}

/// Whether an output is to be turned off: it is connected and shows something,
/// and no available monitor is on it.
pub open spec fn is_unwanted(ms: Seq<MonitorView>, o: OutputView) -> bool {
    o.connected && o.current_mode is Some && !is_active(ms, o.name)
}

/// The steps that turn off the unwanted ones of the first `n` outputs.
pub open spec fn disables(ms: Seq<MonitorView>, outputs: Seq<OutputView>, n: nat) -> Seq<StepView>
    decreases n,
{
    if n == 0 {
        seq![]
    } else {
        let rest = disables(ms, outputs, (n - 1) as nat);
        if is_unwanted(ms, outputs[n - 1]) {
            rest.push(StepView::Disable(n - 1))
        } else {
            rest
        }
    }
}

/// The error of an available monitor that is on no output.
pub open spec fn no_output_name(m: MonitorView) -> PlanErrorView {
    PlanErrorView::NoOutputName { sn: m.sn, product: m.product }
}

/// `p`, and then what turns the output of `m` on where it is off.
pub open spec fn with_power(p: PlanView, m: MonitorView, outputs: Seq<OutputView>) -> PlanView {
    if p.error is Some || !m.available {
        p
    } else {
        match m.name {
            None => p.failing(no_output_name(m)),
            Some(name) => match output_index(outputs, name) {
                Some(i) if outputs[i].current_mode is None => p.followed_by(StepView::Enable(i)),
                _ => p,
            },
        }
    }
}

/// What turns off every unwanted output, and then turns on the outputs of the
/// available ones of the first `n` monitors.
pub open spec fn power(ms: Seq<MonitorView>, outputs: Seq<OutputView>, n: nat) -> PlanView
    decreases n,
{
    if n == 0 {
        PlanView { steps: disables(ms, outputs, outputs.len()), error: None }
    } else {
        with_power(power(ms, outputs, (n - 1) as nat), ms[n - 1], outputs)
    }
}

/// What turns off every unwanted output and turns on every wanted one.
pub open spec fn power_plan(ms: Seq<MonitorView>, outputs: Seq<OutputView>) -> PlanView {
    power(ms, outputs, ms.len())
}

/// The mode to set on the output `o` for it to show `m`: none where it is off
/// or is as large as `m` already.
pub open spec fn mode_change(modes: Seq<Mode>, o: OutputView, m: MonitorView) -> Result<
    Option<Mode>,
    PlanErrorView,
> {
    match o.current_mode {
        None => Ok(None),
        Some(xid) => match search::first_where(modes, screen::has_xid(xid)) {
            None => Err(PlanErrorView::UnknownMode(xid)),
            Some(current) => if current.width == m.width_px && current.height == m.height_px {
                Ok(None)
            } else {
                match search::first_where(
                    screen::known_modes(modes, o.modes),
                    screen::of_size(m.width_px as int, m.height_px as int),
                ) {
                    Some(mode) => Ok(Some(mode)),
                    None => Err(
                        PlanErrorView::NoSuchMode {
                            width: m.width_px as nat,
                            height: m.height_px as nat,
                            output: o.name,
                        },
                    ),
                }
            },
        },
    }
}

/// A layout in the making: its steps, and the output furthest to the right.
pub struct LayoutView {
    pub plan: PlanView,
    pub rightmost: Option<int>,
}

impl LayoutView {
    /// The layout, going no further.
    pub open spec fn failing(self, error: PlanErrorView) -> LayoutView {
        LayoutView { plan: self.plan.failing(error), ..self }
    }

    /// The layout with the output at `i` added at its right end, in a new mode
    /// where there is one.
    pub open spec fn extended(self, i: int, mode: Option<Mode>) -> LayoutView {
        let sized = match mode {
            Some(mode) => self.plan.followed_by(StepView::SetMode(i, mode)),
            None => self.plan,
        };
        let placed = match self.rightmost {
            Some(j) => sized.followed_by(StepView::PlaceRightOf(i, j)),
            None => sized,
        };
        LayoutView { plan: placed, rightmost: Some(i) }
    }
}

/// The layout `l` with the output of `m` added at its right end.
pub open spec fn with_layout(
    l: LayoutView,
    m: MonitorView,
    modes: Seq<Mode>,
    outputs: Seq<OutputView>,
) -> LayoutView {
    if l.plan.error is Some || !m.available {
        l
    } else {
        match m.name {
            None => l.failing(no_output_name(m)),
            Some(name) => match output_index(outputs, name) {
                None => l.failing(PlanErrorView::OutputNotFound(name)),
                Some(i) => match mode_change(modes, outputs[i], m) {
                    Err(e) => l.failing(e),
                    Ok(mode) => l.extended(i, mode),
                },
            },
        }
    }
}

/// The layout of the available ones of the first `n` monitors.
pub open spec fn layout(
    ms: Seq<MonitorView>,
    modes: Seq<Mode>,
    outputs: Seq<OutputView>,
    n: nat,
) -> LayoutView
    decreases n,
{
    if n == 0 {
        LayoutView { plan: PlanView { steps: seq![], error: None }, rightmost: None }
    } else {
        with_layout(layout(ms, modes, outputs, (n - 1) as nat), ms[n - 1], modes, outputs)
    }
}

/// What gives every available monitor its mode, and places each to the right
/// of the one before it.
pub open spec fn layout_plan(
    ms: Seq<MonitorView>,
    modes: Seq<Mode>,
    outputs: Seq<OutputView>,
) -> PlanView {
    layout(ms, modes, outputs, ms.len()).plan
}

/// Whether an available monitor is on the output of this name.
fn active(config: &DisplaysConfiguration, name: &String) -> (r: bool)
    ensures
        r == is_active(config@.displays, name@),
{
    let ghost ms = config@.displays;
    let mut k: usize = 0;
    while k < config.displays.len()
        invariant
            k <= config.displays.len(),
            ms == config@.displays,
            forall|j: int|
                0 <= j < k ==> !((#[trigger] ms[j]).available && ms[j].name == Some(name@)),
        decreases config.displays.len() - k,
    {
        assert(ms[k as int] == config.displays[k as int]@);
        if config.displays[k].available {
            if let Some(n) = &config.displays[k].name {
                if *n == *name {
                    return true;
                }
            }
        }
        k += 1;
    }
    false
}

/// The index of the first connected output of this name.
fn find_output(outputs: &Vec<Output>, name: &String) -> (r: Option<usize>)
    ensures
        match r {
            Some(i) => i < outputs.len() && output_index(outputs.deep_view(), name@) == Some(
                i as int,
            ),
            None => output_index(outputs.deep_view(), name@) is None,
        },
{
    let ghost all = outputs.deep_view();
    let ghost p = connected_as(name@);
    let mut i: usize = 0;
    while i < outputs.len()
        invariant
            i <= outputs.len(),
            all == outputs.deep_view(),
            p == connected_as(name@),
            forall|j: int| 0 <= j < i ==> !p(#[trigger] all[j]),
        decreases outputs.len() - i,
    {
        assert(all[i as int] == outputs[i as int]@);
        if outputs[i].connected && outputs[i].name == *name {
            proof {
                search::lemma_first_index_found(all, p, i as int);
            }
            return Some(i);
        }
        i += 1;
    }
    proof {
        search::lemma_first_index_absent(all, p);
    }
    None
}

/// The error of an available monitor that is on no output.
fn missing_name(m: &MonitorDefinition) -> (r: PlanError)
    ensures
        r@ == no_output_name(m@),
{
    PlanError::NoOutputName { sn: copy_text(&m.sn), product: copy_text(&m.product) }
}

impl Plan {
    /// Adds a step behind the others.
    fn push(&mut self, step: Step)
        ensures
            final(self)@ == old(self)@.followed_by(step@),
    {
        self.steps.push(step);
        assert(self.steps.deep_view() =~= old(self)@.steps.push(step@));
    }
}

/// Plans what turns off every unwanted output and turns on every wanted one.
pub fn plan_power(config: &DisplaysConfiguration, outputs: &Vec<Output>) -> (r: Plan)
    ensures
        r@ == power_plan(config@.displays, outputs.deep_view()),
{
    let ghost ms = config@.displays;
    let ghost all = outputs.deep_view();
    let mut plan = Plan { steps: Vec::new(), error: None };
    assert(plan.steps.deep_view() =~= seq![]);
    let mut i: usize = 0;
    while i < outputs.len()
        invariant
            i <= outputs.len(),
            ms == config@.displays,
            all == outputs.deep_view(),
            plan@ == (PlanView { steps: disables(ms, all, i as nat), error: None }),
        decreases outputs.len() - i,
    {
        let o = &outputs[i];
        assert(all[i as int] == o@);
        if o.connected && o.current_mode.is_some() && !active(config, &o.name) {
            plan.push(Step::Disable(i));
        }
        i += 1;
    }
    let mut k: usize = 0;
    while k < config.displays.len()
        invariant
            k <= config.displays.len(),
            ms == config@.displays,
            all == outputs.deep_view(),
            plan@ == power(ms, all, k as nat),
            plan.error is None,
        decreases config.displays.len() - k,
    {
        let m = &config.displays[k];
        assert(ms[k as int] == m@);
        if m.available {
            match &m.name {
                None => {
                    plan.error = Some(missing_name(m));
                    proof {
                        lemma_power_stays(ms, all, (k + 1) as nat, ms.len());
                    }
                    return plan;
                },
                Some(name) => {
                    if let Some(at) = find_output(outputs, name) {
                        assert(all[at as int] == outputs[at as int]@);
                        if outputs[at].current_mode.is_none() {
                            plan.push(Step::Enable(at));
                        }
                    }
                },
            }
        }
        k += 1;
    }
    plan
}

/// Nothing is planned behind an error.
proof fn lemma_power_stays(ms: Seq<MonitorView>, outputs: Seq<OutputView>, k: nat, n: nat)
    requires
        k <= n,
        power(ms, outputs, k).error is Some,
    ensures
        power(ms, outputs, n) == power(ms, outputs, k),
    decreases n - k,
{
    if k < n {
        lemma_power_stays(ms, outputs, k, (n - 1) as nat);
    }
}

/// Nothing is planned behind an error.
proof fn lemma_layout_stays(
    ms: Seq<MonitorView>,
    modes: Seq<Mode>,
    outputs: Seq<OutputView>,
    k: nat,
    n: nat,
)
    requires
        k <= n,
        layout(ms, modes, outputs, k).plan.error is Some,
    ensures
        layout(ms, modes, outputs, n) == layout(ms, modes, outputs, k),
    decreases n - k,
{
    if k < n {
        lemma_layout_stays(ms, modes, outputs, k, (n - 1) as nat);
    }
}

/// The mode to set on an output for it to show `m`: none where it is off or is
/// as large as `m` already.
pub fn choose_mode(modes: &Vec<Mode>, output: &Output, m: &MonitorDefinition) -> (r: Result<
    Option<Mode>,
    PlanError,
>)
    ensures
        match mode_change(modes@, output@, m@) {
            Ok(mode) => r == Ok::<Option<Mode>, PlanError>(mode),
            Err(e) => r matches Err(error) && error@ == e,
        },
{
    match output.current_mode {
        None => Ok(None),
        Some(xid) => match mode_by_id(modes, xid) {
            None => Err(PlanError::UnknownMode(xid)),
            Some(current) => if current.width as u64 == m.width_px as u64 && current.height as u64
                == m.height_px as u64 {
                Ok(None)
            } else {
                match find_mode(modes, output, m.width_px, m.height_px) {
                    Some(mode) => Ok(Some(mode)),
                    None => Err(
                        PlanError::NoSuchMode {
                            width: m.width_px,
                            height: m.height_px,
                            output: output.name.clone(),
                        },
                    ),
                }
            },
        },
    }
}

/// Plans what gives every available monitor its mode, and places each to the
/// right of the one before it.
pub fn plan_layout(
    config: &DisplaysConfiguration,
    modes: &Vec<Mode>,
    outputs: &Vec<Output>,
) -> (r: Plan)
    ensures
        r@ == layout_plan(config@.displays, modes@, outputs.deep_view()),
{
    let ghost ms = config@.displays;
    let ghost all = outputs.deep_view();
    let mut plan = Plan { steps: Vec::new(), error: None };
    assert(plan.steps.deep_view() =~= seq![]);
    let mut rightmost: Option<usize> = None;
    let mut k: usize = 0;
    while k < config.displays.len()
        invariant
            k <= config.displays.len(),
            ms == config@.displays,
            all == outputs.deep_view(),
            plan@ == layout(ms, modes@, all, k as nat).plan,
            plan.error is None,
            layout(ms, modes@, all, k as nat).rightmost == match rightmost {
                Some(j) => Some(j as int),
                None => None,
            },
        decreases config.displays.len() - k,
    {
        let m = &config.displays[k];
        assert(ms[k as int] == m@);
        if m.available {
            let error: Option<PlanError> = match &m.name {
                None => Some(missing_name(m)),
                Some(name) => match find_output(outputs, name) {
                    None => Some(PlanError::OutputNotFound(name.clone())),
                    Some(at) => {
                        assert(all[at as int] == outputs[at as int]@);
                        match choose_mode(modes, &outputs[at], m) {
                            Err(e) => Some(e),
                            Ok(mode) => {
                                if let Some(mode) = mode {
                                    plan.push(Step::SetMode(at, mode));
                                }
                                if let Some(left) = rightmost {
                                    plan.push(Step::PlaceRightOf(at, left));
                                }
                                rightmost = Some(at);
                                None
                            },
                        }
                    },
                },
            };
            if error.is_some() {
                plan.error = error;
                proof {
                    lemma_layout_stays(ms, modes@, all, (k + 1) as nat, ms.len());
                }
                return plan;
            }
        }
        k += 1;
    }
    plan
}

/// Whether the output at `i` has to be turned on for `m`: `m` is available and on
/// it, and it shows nothing.
pub open spec fn is_dark(m: MonitorView, outputs: Seq<OutputView>, i: int) -> bool {
    m.available && m.name is Some && output_index(outputs, m.name->0) == Some(i)
        && outputs[i].current_mode is None
}

/// Whether a step speaks of outputs among the first `n` alone.
pub open spec fn is_within(step: StepView, n: nat) -> bool {
    match step {
        StepView::Disable(i) => 0 <= i < n,
        StepView::Enable(i) => 0 <= i < n,
        StepView::SetMode(i, _) => 0 <= i < n,
        StepView::PlaceRightOf(i, j) => 0 <= i < n && 0 <= j < n,
    }
}

/// Every planned step speaks of outputs that are there.
pub proof fn steps_speak_of_outputs_that_are_there(
    ms: Seq<MonitorView>,
    modes: Seq<Mode>,
    outputs: Seq<OutputView>,
)
    ensures
        forall|k: int|
            0 <= k < power_plan(ms, outputs).steps.len() ==> is_within(
                #[trigger] power_plan(ms, outputs).steps[k],
                outputs.len(),
            ),
        forall|k: int|
            0 <= k < layout_plan(ms, modes, outputs).steps.len() ==> is_within(
                #[trigger] layout_plan(ms, modes, outputs).steps[k],
                outputs.len(),
            ),
{
    lemma_power_within(ms, outputs, ms.len());
    lemma_layout_within(ms, modes, outputs, ms.len());
}

/// The steps that turn outputs off come first, and those that turn outputs on
/// follow; no other steps are among them.
pub proof fn outputs_go_off_before_others_go_on(
    ms: Seq<MonitorView>,
    outputs: Seq<OutputView>,
    k: int,
)
    requires
        0 <= k < power_plan(ms, outputs).steps.len(),
    ensures
        power_plan(ms, outputs).steps[k] is Disable <==> k < disables(
            ms,
            outputs,
            outputs.len(),
        ).len(),
        power_plan(ms, outputs).steps[k] is Disable || power_plan(ms, outputs).steps[k] is Enable,
{
    lemma_power_facts(ms, outputs, ms.len());
    lemma_disables(ms, outputs, outputs.len());
    let off = disables(ms, outputs, outputs.len());
    let steps = power(ms, outputs, ms.len()).steps;
    if k < off.len() {
        assert(off[k] is Disable);
        assert(steps[k] == off[k]);
    } else {
        assert(steps[k] is Enable);
    }
}

/// An output is turned off exactly where it is unwanted.
pub proof fn exactly_the_unwanted_outputs_go_off(
    ms: Seq<MonitorView>,
    outputs: Seq<OutputView>,
    i: int,
)
    ensures
        power_plan(ms, outputs).steps.contains(StepView::Disable(i)) <==> 0 <= i < outputs.len()
            && is_unwanted(ms, outputs[i]),
{
    let steps = power_plan(ms, outputs).steps;
    let off = disables(ms, outputs, outputs.len());
    lemma_power_facts(ms, outputs, ms.len());
    lemma_disables(ms, outputs, outputs.len());
    if steps.contains(StepView::Disable(i)) {
        let k = choose|k: int| 0 <= k < steps.len() && steps[k] == StepView::Disable(i);
        assert(off[k] == steps[k]);
    }
    if 0 <= i < outputs.len() && is_unwanted(ms, outputs[i]) {
        assert(off.contains(StepView::Disable(i)));
        let k = choose|k: int| 0 <= k < off.len() && off[k] == StepView::Disable(i);
        assert(steps[k] == off[k]);
    }
}

/// An output is turned on only where an available monitor is on it and it is
/// dark; and every such output is, unless a monitor before it has no output.
pub proof fn exactly_the_dark_outputs_go_on(
    ms: Seq<MonitorView>,
    outputs: Seq<OutputView>,
    i: int,
)
    ensures
        power_plan(ms, outputs).steps.contains(StepView::Enable(i)) ==> exists|k: int|
            0 <= k < ms.len() && is_dark(#[trigger] ms[k], outputs, i),
        power_plan(ms, outputs).error is None && (exists|k: int|
            0 <= k < ms.len() && is_dark(#[trigger] ms[k], outputs, i)) ==> power_plan(
            ms,
            outputs,
        ).steps.contains(StepView::Enable(i)),
{
    lemma_disables(ms, outputs, outputs.len());
    lemma_enables(ms, outputs, i, ms.len());
}

/// Where every available monitor is on an output, no plan fails for want of one:
/// turning outputs off and on never fails, and a layout fails only for an output
/// that is missing or has no fitting mode.
pub proof fn available_monitors_on_outputs_can_be_planned(
    ms: Seq<MonitorView>,
    modes: Seq<Mode>,
    outputs: Seq<OutputView>,
)
    requires
        crate::displays::well_named(ms),
    ensures
        power_plan(ms, outputs).error is None,
        layout_plan(ms, modes, outputs).error matches Some(e) ==> !(e is NoOutputName),
{
    lemma_power_succeeds(ms, outputs, ms.len());
    lemma_layout_error(ms, modes, outputs, ms.len());
}

/// A mode is set only on the output of an available monitor. It is one that the
/// output supports, exactly as large as the monitor.
pub proof fn a_set_mode_fits_its_monitor(
    ms: Seq<MonitorView>,
    modes: Seq<Mode>,
    outputs: Seq<OutputView>,
    i: int,
    mode: Mode,
)
    requires
        layout_plan(ms, modes, outputs).steps.contains(StepView::SetMode(i, mode)),
    ensures
        exists|k: int|
            {
                &&& 0 <= k < ms.len()
                &&& (#[trigger] ms[k]).available
                &&& ms[k].name is Some
                &&& output_index(outputs, ms[k].name->0) == Some(i)
                &&& mode.width == ms[k].width_px
                &&& mode.height == ms[k].height_px
                &&& screen::known_modes(modes, outputs[i].modes).contains(mode)
            },
{
    lemma_set_modes(ms, modes, outputs, i, mode, ms.len());
}

/// The outputs of the available ones of the first `n` monitors, in their order.
pub open spec fn shown(ms: Seq<MonitorView>, outputs: Seq<OutputView>, n: nat) -> Seq<int>
    decreases n,
{
    if n == 0 {
        seq![]
    } else {
        let rest = shown(ms, outputs, (n - 1) as nat);
        if ms[n - 1].available {
            rest.push(output_index(outputs, ms[n - 1].name->0)->0)
        } else {
            rest
        }
    }
}

/// Whether a step places an output.
pub open spec fn is_placement() -> spec_fn(StepView) -> bool {
    |s: StepView| s is PlaceRightOf
}

/// A layout that succeeds places every available monitor but the first to the
/// right of the one before it, in their order, and places nothing else.
pub proof fn monitors_are_placed_side_by_side(
    ms: Seq<MonitorView>,
    modes: Seq<Mode>,
    outputs: Seq<OutputView>,
)
    requires
        layout_plan(ms, modes, outputs).error is None,
    ensures
        ({
            let row = shown(ms, outputs, ms.len());
            layout_plan(ms, modes, outputs).steps.filter(is_placement()) == Seq::new(
                if row.len() == 0 {
                    0
                } else {
                    (row.len() - 1) as nat
                },
                |k: int| StepView::PlaceRightOf(row[k + 1], row[k]),
            )
        }),
{
    lemma_placements(ms, modes, outputs, ms.len());
}

/// Whether the screen shows the profile already, but for the places of its
/// outputs: nothing unwanted is on, and every available monitor is on a connected
/// output whose mode is known and as large as the monitor.
pub open spec fn is_settled(
    ms: Seq<MonitorView>,
    modes: Seq<Mode>,
    outputs: Seq<OutputView>,
) -> bool {
    &&& forall|i: int| 0 <= i < outputs.len() ==> !is_unwanted(ms, #[trigger] outputs[i])
    &&& forall|k: int|
        0 <= k < ms.len() && (#[trigger] ms[k]).available ==> {
            &&& ms[k].name is Some
            &&& output_index(outputs, ms[k].name->0) is Some
            &&& outputs[output_index(outputs, ms[k].name->0)->0].current_mode is Some
            &&& mode_change(modes, outputs[output_index(outputs, ms[k].name->0)->0], ms[k]) == Ok::<
                Option<Mode>,
                PlanErrorView,
            >(None)
        }
}

/// Where the screen shows the profile already, nothing is turned off or on and
/// no mode is set: the outputs are only placed.
pub proof fn a_settled_screen_is_left_alone(
    ms: Seq<MonitorView>,
    modes: Seq<Mode>,
    outputs: Seq<OutputView>,
)
    requires
        is_settled(ms, modes, outputs),
    ensures
        power_plan(ms, outputs) == (PlanView { steps: seq![], error: None }),
        layout_plan(ms, modes, outputs).error is None,
        forall|k: int|
            0 <= k < layout_plan(ms, modes, outputs).steps.len() ==> (#[trigger] layout_plan(
                ms,
                modes,
                outputs,
            ).steps[k]) is PlaceRightOf,
{
    lemma_settled_power(ms, modes, outputs, ms.len());
    lemma_settled_layout(ms, modes, outputs, ms.len());
}

/// The steps that turn outputs off are those of the unwanted outputs.
proof fn lemma_disables(ms: Seq<MonitorView>, outputs: Seq<OutputView>, n: nat)
    requires
        n <= outputs.len(),
    ensures
        forall|k: int|
            0 <= k < disables(ms, outputs, n).len() ==> {
                &&& (#[trigger] disables(ms, outputs, n)[k]) matches StepView::Disable(i)
                &&& 0 <= i < n
                &&& is_unwanted(ms, outputs[i])
            },
        forall|i: int|
            0 <= i < n && is_unwanted(ms, #[trigger] outputs[i]) ==> disables(
                ms,
                outputs,
                n,
            ).contains(StepView::Disable(i)),
    decreases n,
{
    if n > 0 {
        lemma_disables(ms, outputs, (n - 1) as nat);
        let rest = disables(ms, outputs, (n - 1) as nat);
        let all = disables(ms, outputs, n);
        assert forall|i: int|
            0 <= i < n && is_unwanted(ms, #[trigger] outputs[i]) implies all.contains(
            StepView::Disable(i),
        ) by {
            if i == n - 1 {
                assert(all[all.len() - 1] == StepView::Disable(i));
            } else {
                assert(rest.contains(StepView::Disable(i)));
                let k = choose|k: int| 0 <= k < rest.len() && rest[k] == StepView::Disable(i);
                assert(all[k] == rest[k]);
            }
        }
    }
}

/// The plan begins with the steps that turn outputs off; those that turn outputs
/// on follow.
proof fn lemma_power_facts(ms: Seq<MonitorView>, outputs: Seq<OutputView>, n: nat)
    ensures
        disables(ms, outputs, outputs.len()).is_prefix_of(power(ms, outputs, n).steps),
        forall|k: int|
            disables(ms, outputs, outputs.len()).len() <= k < power(ms, outputs, n).steps.len() ==> (
            #[trigger] power(ms, outputs, n).steps[k]) is Enable,
    decreases n,
{
    if n > 0 {
        lemma_power_facts(ms, outputs, (n - 1) as nat);
    }
}

/// The steps that turn outputs on are those of the dark outputs.
proof fn lemma_enables(ms: Seq<MonitorView>, outputs: Seq<OutputView>, i: int, n: nat)
    requires
        n <= ms.len(),
    ensures
        power(ms, outputs, n).steps.contains(StepView::Enable(i)) ==> exists|k: int|
            0 <= k < n && is_dark(#[trigger] ms[k], outputs, i),
        power(ms, outputs, n).error is None && (exists|k: int|
            0 <= k < n && is_dark(#[trigger] ms[k], outputs, i)) ==> power(
            ms,
            outputs,
            n,
        ).steps.contains(StepView::Enable(i)),
    decreases n,
{
    let wanted = StepView::Enable(i);
    if n == 0 {
        lemma_disables(ms, outputs, outputs.len());
    } else {
        lemma_enables(ms, outputs, i, (n - 1) as nat);
        let before = power(ms, outputs, (n - 1) as nat).steps;
        let after = power(ms, outputs, n).steps;
        if after.contains(wanted) {
            let at = choose|at: int| 0 <= at < after.len() && after[at] == wanted;
            if at < before.len() {
                assert(before[at] == wanted);
                assert(before.contains(wanted));
            } else {
                assert(is_dark(ms[n - 1], outputs, i));
            }
        }
        if power(ms, outputs, n).error is None {
            if is_dark(ms[n - 1], outputs, i) {
                assert(after[after.len() - 1] == wanted);
            } else if exists|k: int| 0 <= k < n && is_dark(#[trigger] ms[k], outputs, i) {
                assert(before.contains(wanted));
                let at = choose|at: int| 0 <= at < before.len() && before[at] == wanted;
                assert(after[at] == wanted);
            }
        }
    }
}

/// Turning outputs off and on fails only for a monitor without an output.
proof fn lemma_power_succeeds(ms: Seq<MonitorView>, outputs: Seq<OutputView>, n: nat)
    requires
        crate::displays::well_named(ms),
        n <= ms.len(),
    ensures
        power(ms, outputs, n).error is None,
    decreases n,
{
    if n > 0 {
        lemma_power_succeeds(ms, outputs, (n - 1) as nat);
    }
}

/// A layout fails for a monitor without an output only where there is one.
proof fn lemma_layout_error(
    ms: Seq<MonitorView>,
    modes: Seq<Mode>,
    outputs: Seq<OutputView>,
    n: nat,
)
    requires
        crate::displays::well_named(ms),
        n <= ms.len(),
    ensures
        layout(ms, modes, outputs, n).plan.error matches Some(e) ==> !(e is NoOutputName),
    decreases n,
{
    if n > 0 {
        lemma_layout_error(ms, modes, outputs, (n - 1) as nat);
    }
}

/// A mode that is set fits the monitor that it is set for.
proof fn lemma_set_modes(
    ms: Seq<MonitorView>,
    modes: Seq<Mode>,
    outputs: Seq<OutputView>,
    i: int,
    mode: Mode,
    n: nat,
)
    requires
        n <= ms.len(),
        layout(ms, modes, outputs, n).plan.steps.contains(StepView::SetMode(i, mode)),
    ensures
        exists|k: int|
            {
                &&& 0 <= k < n
                &&& (#[trigger] ms[k]).available
                &&& ms[k].name is Some
                &&& output_index(outputs, ms[k].name->0) == Some(i)
                &&& mode.width == ms[k].width_px
                &&& mode.height == ms[k].height_px
                &&& screen::known_modes(modes, outputs[i].modes).contains(mode)
            },
    decreases n,
{
    let step = StepView::SetMode(i, mode);
    let after = layout(ms, modes, outputs, n).plan.steps;
    let at = choose|at: int| 0 <= at < after.len() && after[at] == step;
    let l = layout(ms, modes, outputs, (n - 1) as nat);
    let m = ms[n - 1];
    if at < l.plan.steps.len() {
        assert(l.plan.steps[at] == step);
        lemma_set_modes(ms, modes, outputs, i, mode, (n - 1) as nat);
    } else {
        let known = screen::known_modes(modes, outputs[i].modes);
        let fits = screen::of_size(m.width_px as int, m.height_px as int);
        search::first_index_is_first(known, fits);
        assert(mode_change(modes, outputs[i], m) == Ok::<Option<Mode>, PlanErrorView>(Some(mode)));
        assert(ms[n - 1].available);
    }
}

/// The placements are those of neighbours in the row of shown outputs.
proof fn lemma_placements(
    ms: Seq<MonitorView>,
    modes: Seq<Mode>,
    outputs: Seq<OutputView>,
    n: nat,
)
    requires
        n <= ms.len(),
        layout(ms, modes, outputs, n).plan.error is None,
    ensures
        ({
            let row = shown(ms, outputs, n);
            let l = layout(ms, modes, outputs, n);
            &&& l.rightmost == if row.len() == 0 {
                None
            } else {
                Some(row.last())
            }
            &&& l.plan.steps.filter(is_placement()) == Seq::new(
                if row.len() == 0 {
                    0
                } else {
                    (row.len() - 1) as nat
                },
                |k: int| StepView::PlaceRightOf(row[k + 1], row[k]),
            )
        }),
    decreases n,
{
    let p = is_placement();
    let row = shown(ms, outputs, n);
    let l = layout(ms, modes, outputs, n);
    let expected = Seq::new(
        if row.len() == 0 {
            0
        } else {
            (row.len() - 1) as nat
        },
        |k: int| StepView::PlaceRightOf(row[k + 1], row[k]),
    );
    if n == 0 {
        reveal(Seq::filter);
        assert(l.plan.steps.filter(p) =~= expected);
    } else {
        let before = layout(ms, modes, outputs, (n - 1) as nat);
        let m = ms[n - 1];
        lemma_placements(ms, modes, outputs, (n - 1) as nat);
        if m.available {
            let i = output_index(outputs, m.name->0)->0;
            let mode = mode_change(modes, outputs[i], m)->Ok_0;
            assert(l == before.extended(i, mode));
            let sized = match mode {
                Some(mode) => before.plan.steps.push(StepView::SetMode(i, mode)),
                None => before.plan.steps,
            };
            if let Some(mode) = mode {
                before.plan.steps.lemma_filter_push(StepView::SetMode(i, mode), p);
            }
            assert(sized.filter(p) == before.plan.steps.filter(p));
            if let Some(j) = before.rightmost {
                sized.lemma_filter_push(StepView::PlaceRightOf(i, j), p);
            }
        }
        assert(l.plan.steps.filter(p) =~= expected);
    }
}

/// Nothing is turned off or on where the profile is shown already.
proof fn lemma_settled_power(
    ms: Seq<MonitorView>,
    modes: Seq<Mode>,
    outputs: Seq<OutputView>,
    n: nat,
)
    requires
        is_settled(ms, modes, outputs),
        n <= ms.len(),
    ensures
        power(ms, outputs, n) == (PlanView { steps: seq![], error: None }),
    decreases n,
{
    if n == 0 {
        lemma_disables(ms, outputs, outputs.len());
        let off = disables(ms, outputs, outputs.len());
        if off.len() > 0 {
            assert(off[0] is Disable);
            let i = off[0]->Disable_0;
            assert(is_unwanted(ms, outputs[i]));
        }
        assert(off =~= seq![]);
    } else {
        lemma_settled_power(ms, modes, outputs, (n - 1) as nat);
    }
}

/// No mode is set where the profile is shown already.
proof fn lemma_settled_layout(
    ms: Seq<MonitorView>,
    modes: Seq<Mode>,
    outputs: Seq<OutputView>,
    n: nat,
)
    requires
        is_settled(ms, modes, outputs),
        n <= ms.len(),
    ensures
        layout(ms, modes, outputs, n).plan.error is None,
        forall|k: int|
            0 <= k < layout(ms, modes, outputs, n).plan.steps.len() ==> (#[trigger] layout(
                ms,
                modes,
                outputs,
                n,
            ).plan.steps[k]) is PlaceRightOf,
    decreases n,
{
    if n > 0 {
        lemma_settled_layout(ms, modes, outputs, (n - 1) as nat);
    }
}

/// The steps that turn outputs off and on speak of outputs that are there.
proof fn lemma_power_within(ms: Seq<MonitorView>, outputs: Seq<OutputView>, n: nat)
    ensures
        forall|k: int|
            0 <= k < power(ms, outputs, n).steps.len() ==> is_within(
                #[trigger] power(ms, outputs, n).steps[k],
                outputs.len(),
            ),
    decreases n,
{
    if n == 0 {
        lemma_disables(ms, outputs, outputs.len());
        assert forall|k: int| 0 <= k < power(ms, outputs, 0).steps.len() implies is_within(
            #[trigger] power(ms, outputs, 0).steps[k],
            outputs.len(),
        ) by {
            assert(disables(ms, outputs, outputs.len())[k] is Disable);
        }
    } else {
        lemma_power_within(ms, outputs, (n - 1) as nat);
        if let Some(name) = ms[n - 1].name {
            search::first_index_is_first(outputs, connected_as(name));
        }
    }
}

/// The steps of a layout speak of outputs that are there.
proof fn lemma_layout_within(
    ms: Seq<MonitorView>,
    modes: Seq<Mode>,
    outputs: Seq<OutputView>,
    n: nat,
)
    ensures
        forall|k: int|
            0 <= k < layout(ms, modes, outputs, n).plan.steps.len() ==> is_within(
                #[trigger] layout(ms, modes, outputs, n).plan.steps[k],
                outputs.len(),
            ),
        layout(ms, modes, outputs, n).rightmost matches Some(j) ==> 0 <= j < outputs.len(),
    decreases n,
{
    if n > 0 {
        lemma_layout_within(ms, modes, outputs, (n - 1) as nat);
        if let Some(name) = ms[n - 1].name {
            search::first_index_is_first(outputs, connected_as(name));
        }
    }
}

/// The first connected output of a name is the one that stands for it.
proof fn lemma_output_found(outputs: Seq<OutputView>, i: int)
    requires
        0 <= i < outputs.len(),
        outputs[i].connected,
        forall|j: int|
            0 <= j < i && (#[trigger] outputs[j]).connected ==> outputs[j].name != outputs[i].name,
    ensures
        output_index(outputs, outputs[i].name) == Some(i),
{
    search::lemma_first_index_found(outputs, connected_as(outputs[i].name), i);
}

/// No output stands for a name that no connected one has.
proof fn lemma_output_absent(outputs: Seq<OutputView>, name: Seq<char>)
    requires
        forall|j: int|
            0 <= j < outputs.len() && (#[trigger] outputs[j]).connected ==> outputs[j].name != name,
    ensures
        output_index(outputs, name) is None,
{
    search::lemma_first_index_absent(outputs, connected_as(name));
}

/// An output that stands for a name is connected, has it, and is the first such.
proof fn lemma_output_facts(outputs: Seq<OutputView>, name: Seq<char>)
    ensures
        match output_index(outputs, name) {
            Some(i) => {
                &&& 0 <= i < outputs.len()
                &&& outputs[i].connected
                &&& outputs[i].name == name
                &&& forall|j: int|
                    0 <= j < i && (#[trigger] outputs[j]).connected ==> outputs[j].name != name
            },
            None => forall|j: int|
                0 <= j < outputs.len() && (#[trigger] outputs[j]).connected ==> outputs[j].name
                    != name,
        },
{
    let p = connected_as(name);
    search::first_index_is_first(outputs, p);
    match output_index(outputs, name) {
        Some(i) => {
            assert(p(outputs[i]));
            assert forall|j: int|
                0 <= j < i && (#[trigger] outputs[j]).connected implies outputs[j].name != name by {
                assert(!p(outputs[j]));
            }
        },
        None => {
            assert forall|j: int|
                0 <= j < outputs.len() && (#[trigger] outputs[j]).connected implies outputs[j].name
                != name by {
                assert(!p(outputs[j]));
            }
        },
    }
}

/// An output is turned off exactly where it is connected, shows something, and is
/// not the output of an available monitor. One that only a placeholder or another
/// unavailable monitor names is turned off like any other.
pub proof fn an_output_without_an_available_monitor_goes_off(
    ms: Seq<MonitorView>,
    outputs: Seq<OutputView>,
    i: int,
)
    ensures
        power_plan(ms, outputs).steps.contains(StepView::Disable(i)) <==> {
            &&& 0 <= i < outputs.len()
            &&& outputs[i].connected
            &&& outputs[i].current_mode is Some
            &&& forall|k: int|
                0 <= k < ms.len() && (#[trigger] ms[k]).available ==> ms[k].name != Some(
                    outputs[i].name,
                )
        },
{
    exactly_the_unwanted_outputs_go_off(ms, outputs, i);
}

/// The outputs that are turned off are taken in their sequence, each once, and
/// before any output is turned on. Nothing else is done meanwhile.
pub proof fn outputs_go_off_in_sequence(
    ms: Seq<MonitorView>,
    outputs: Seq<OutputView>,
    a: int,
    b: int,
)
    requires
        0 <= a < b < power_plan(ms, outputs).steps.len(),
    ensures
        power_plan(ms, outputs).steps[a] is Disable || power_plan(ms, outputs).steps[a] is Enable,
        power_plan(ms, outputs).steps[b] is Disable || power_plan(ms, outputs).steps[b] is Enable,
        power_plan(ms, outputs).steps[b] matches StepView::Disable(j) ==> (power_plan(
            ms,
            outputs,
        ).steps[a] matches StepView::Disable(i) && i < j),
{
    outputs_go_off_before_others_go_on(ms, outputs, a);
    outputs_go_off_before_others_go_on(ms, outputs, b);
    lemma_power_facts(ms, outputs, ms.len());
    let off = disables(ms, outputs, outputs.len());
    if b < off.len() {
        lemma_disables_ascend(ms, outputs, outputs.len(), a, b);
        assert(power_plan(ms, outputs).steps[a] == off[a]);
        assert(power_plan(ms, outputs).steps[b] == off[b]);
    }
}

/// The outputs that are turned off are taken in their sequence.
proof fn lemma_disables_ascend(
    ms: Seq<MonitorView>,
    outputs: Seq<OutputView>,
    n: nat,
    a: int,
    b: int,
)
    requires
        n <= outputs.len(),
        0 <= a < b < disables(ms, outputs, n).len(),
    ensures
        disables(ms, outputs, n)[a] matches StepView::Disable(i) && (disables(
            ms,
            outputs,
            n,
        )[b] matches StepView::Disable(j) && i < j),
    decreases n,
{
    if n > 0 {
        let rest = disables(ms, outputs, (n - 1) as nat);
        lemma_disables(ms, outputs, (n - 1) as nat);
        if b < rest.len() {
            lemma_disables_ascend(ms, outputs, (n - 1) as nat, a, b);
        } else {
            assert(rest[a] is Disable);
        }
    }
}

/// Turning outputs off and on fails exactly where an available monitor is on no
/// output.
pub proof fn only_a_monitor_without_output_fails(ms: Seq<MonitorView>, outputs: Seq<OutputView>)
    ensures
        power_plan(ms, outputs).error is Some <==> exists|k: int|
            0 <= k < ms.len() && (#[trigger] ms[k]).available && ms[k].name is None,
{
    lemma_power_error(ms, outputs, ms.len());
}

/// The same of the first `n` monitors.
proof fn lemma_power_error(ms: Seq<MonitorView>, outputs: Seq<OutputView>, n: nat)
    requires
        n <= ms.len(),
    ensures
        power(ms, outputs, n).error is Some <==> exists|k: int|
            0 <= k < n && (#[trigger] ms[k]).available && ms[k].name is None,
    decreases n,
{
    if n > 0 {
        lemma_power_error(ms, outputs, (n - 1) as nat);
        if ms[n - 1].available && ms[n - 1].name is None {
            assert(power(ms, outputs, n).error is Some);
        }
    }
}

/// An output is turned on exactly where an available monitor is on it and it shows
/// nothing. It is the first connected output of its name. This is so wherever every
/// available monitor is on an output.
pub proof fn a_dark_output_with_an_available_monitor_goes_on(
    ms: Seq<MonitorView>,
    outputs: Seq<OutputView>,
    i: int,
)
    requires
        forall|k: int| 0 <= k < ms.len() && (#[trigger] ms[k]).available ==> ms[k].name is Some,
    ensures
        power_plan(ms, outputs).error is None,
        power_plan(ms, outputs).steps.contains(StepView::Enable(i)) <==> {
            &&& 0 <= i < outputs.len()
            &&& outputs[i].connected
            &&& outputs[i].current_mode is None
            &&& forall|j: int|
                0 <= j < i && (#[trigger] outputs[j]).connected ==> outputs[j].name
                    != outputs[i].name
            &&& exists|k: int|
                0 <= k < ms.len() && (#[trigger] ms[k]).available && ms[k].name == Some(
                    outputs[i].name,
                )
        },
{
    only_a_monitor_without_output_fails(ms, outputs);
    exactly_the_dark_outputs_go_on(ms, outputs, i);
    if power_plan(ms, outputs).steps.contains(StepView::Enable(i)) {
        let k = choose|k: int| 0 <= k < ms.len() && is_dark(#[trigger] ms[k], outputs, i);
        lemma_output_facts(outputs, ms[k].name->0);
        assert(ms[k].available);
    }
    if 0 <= i < outputs.len() && outputs[i].connected && outputs[i].current_mode is None && (forall|
        j: int,
    |
        0 <= j < i && (#[trigger] outputs[j]).connected ==> outputs[j].name != outputs[i].name)
        && exists|k: int|
        0 <= k < ms.len() && (#[trigger] ms[k]).available && ms[k].name == Some(outputs[i].name) {
        let k = choose|k: int|
            0 <= k < ms.len() && (#[trigger] ms[k]).available && ms[k].name == Some(
                outputs[i].name,
            );
        lemma_output_found(outputs, i);
        assert(is_dark(ms[k], outputs, i));
    }
}

/// The steps that turn outputs on follow the monitors: one more monitor adds its
/// own output behind the others where it is available and the output is dark, and
/// adds nothing otherwise. Behind a monitor without an output nothing is turned on.
pub proof fn outputs_go_on_in_the_sequence_of_their_monitors(
    ms: Seq<MonitorView>,
    m: MonitorView,
    outputs: Seq<OutputView>,
    i: int,
)
    ensures
        ({
            let before = power_plan(ms, outputs);
            let after = power_plan(ms.push(m), outputs);
            let on_before = before.steps.filter(|s: StepView| s is Enable);
            let on_after = after.steps.filter(|s: StepView| s is Enable);
            &&& before.error is Some || !m.available ==> on_after == on_before && after.error
                == before.error
            &&& before.error is None && m.available && m.name is None ==> on_after == on_before
                && after.error == Some(
                PlanErrorView::NoOutputName { sn: m.sn, product: m.product },
            )
            &&& before.error is None && m.available && m.name is Some && (forall|j: int|
                0 <= j < outputs.len() && (#[trigger] outputs[j]).connected ==> Some(
                    outputs[j].name,
                ) != m.name) ==> on_after == on_before && after.error is None
            &&& before.error is None && m.available && 0 <= i < outputs.len()
                && outputs[i].connected && m.name == Some(outputs[i].name) && (forall|j: int|
                0 <= j < i && (#[trigger] outputs[j]).connected ==> outputs[j].name
                    != outputs[i].name) ==> after.error is None && on_after
                == if outputs[i].current_mode is None {
                on_before.push(StepView::Enable(i))
            } else {
                on_before
            }
        }),
{
    let on = |s: StepView| s is Enable;
    let n = ms.len();
    let all = ms.push(m);
    lemma_enables_prefix(ms, m, outputs, n);
    let p = power(all, outputs, n);
    p.steps.lemma_filter_push(StepView::Enable(i), on);
    assert(power_plan(all, outputs) == with_power(p, m, outputs));
    if 0 <= i < outputs.len() && outputs[i].connected && m.name == Some(outputs[i].name) && (forall|
        j: int,
    |
        0 <= j < i && (#[trigger] outputs[j]).connected ==> outputs[j].name != outputs[i].name) {
        lemma_output_found(outputs, i);
    }
    if m.name is Some && (forall|j: int|
        0 <= j < outputs.len() && (#[trigger] outputs[j]).connected ==> Some(outputs[j].name)
            != m.name) {
        lemma_output_absent(outputs, m.name->0);
    }
}

/// Which outputs the first monitors turn on does not depend on those behind them.
proof fn lemma_enables_prefix(
    ms: Seq<MonitorView>,
    m: MonitorView,
    outputs: Seq<OutputView>,
    n: nat,
)
    requires
        n <= ms.len(),
    ensures
        power(ms.push(m), outputs, n).error == power(ms, outputs, n).error,
        power(ms.push(m), outputs, n).steps.filter(|s: StepView| s is Enable) == power(
            ms,
            outputs,
            n,
        ).steps.filter(|s: StepView| s is Enable),
    decreases n,
{
    let on = |s: StepView| s is Enable;
    let all = ms.push(m);
    if n == 0 {
        lemma_disables(ms, outputs, outputs.len());
        lemma_disables(all, outputs, outputs.len());
        lemma_none_pass(disables(ms, outputs, outputs.len()), on);
        lemma_none_pass(disables(all, outputs, outputs.len()), on);
    } else {
        lemma_enables_prefix(ms, m, outputs, (n - 1) as nat);
        assert(all[n - 1] == ms[n - 1]);
        if let Some(name) = ms[n - 1].name {
            if let Some(i) = output_index(outputs, name) {
                let step = StepView::Enable(i);
                power(ms, outputs, (n - 1) as nat).steps.lemma_filter_push(step, on);
                power(all, outputs, (n - 1) as nat).steps.lemma_filter_push(step, on);
            }
        }
    }
}

/// A filter that nothing passes keeps nothing.
proof fn lemma_none_pass(s: Seq<StepView>, p: spec_fn(StepView) -> bool)
    requires
        forall|i: int| 0 <= i < s.len() ==> !p(#[trigger] s[i]),
    ensures
        s.filter(p) == Seq::<StepView>::empty(),
    decreases s.len(),
{
    reveal(Seq::filter);
    if s.len() > 0 {
        lemma_none_pass(s.drop_last(), p);
    }
}

/// An output that is off, or whose mode has both the width and the height of the
/// monitor, is left in its mode.
pub proof fn a_fitting_mode_is_left(modes: Seq<Mode>, o: OutputView, m: MonitorView, q: int)
    requires
        o.current_mode is Some ==> {
            &&& 0 <= q < modes.len()
            &&& Some(modes[q].xid) == o.current_mode
            &&& forall|r: int| 0 <= r < q ==> (#[trigger] modes[r]).xid != modes[q].xid
            &&& modes[q].width == m.width_px
            &&& modes[q].height == m.height_px
        },
    ensures
        mode_change(modes, o, m) == Ok::<Option<Mode>, PlanErrorView>(None),
{
    if let Some(xid) = o.current_mode {
        search::lemma_first_index_found(modes, screen::has_xid(xid), q);
    }
}

/// An output whose mode differs from the monitor in width or in height is not left
/// in it. It is given a mode that the screen knows and the output supports, of just
/// the width and the height of the monitor, the first such that it supports; where
/// it supports none, that is the error, and it names what was looked for and the
/// output.
pub proof fn a_mode_that_does_not_fit_is_changed(
    modes: Seq<Mode>,
    o: OutputView,
    m: MonitorView,
    q: int,
)
    requires
        0 <= q < modes.len(),
        Some(modes[q].xid) == o.current_mode,
        forall|r: int| 0 <= r < q ==> (#[trigger] modes[r]).xid != modes[q].xid,
        modes[q].width != m.width_px || modes[q].height != m.height_px,
    ensures
        match mode_change(modes, o, m) {
            Ok(Some(mode)) => {
                &&& mode.width == m.width_px
                &&& mode.height == m.height_px
                &&& modes.contains(mode)
                &&& o.modes.contains(mode.xid)
                &&& exists|p: int|
                    {
                        &&& 0 <= p < o.modes.len()
                        &&& #[trigger] o.modes[p] == mode.xid
                        &&& forall|e: int, r: int|
                            #![trigger o.modes[e], modes[r]]
                            0 <= e < p && 0 <= r < modes.len() && modes[r].xid == o.modes[e] && (
                            forall|s: int|
                                0 <= s < r ==> (#[trigger] modes[s]).xid != modes[r].xid)
                                ==> modes[r].width != m.width_px || modes[r].height != m.height_px
                    }
            },
            Ok(None) => false,
            Err(e) => {
                &&& e matches PlanErrorView::NoSuchMode { width, height, output }
                &&& width == m.width_px
                &&& height == m.height_px
                &&& output == o.name
                &&& forall|r: int|
                    0 <= r < modes.len() && o.modes.contains((#[trigger] modes[r]).xid) && (forall|
                        s: int,
                    |
                        0 <= s < r ==> (#[trigger] modes[s]).xid != modes[r].xid)
                        ==> modes[r].width != m.width_px || modes[r].height != m.height_px
            },
        },
{
    search::lemma_first_index_found(modes, screen::has_xid(modes[q].xid), q);
    screen::the_first_supported_mode_of_a_size_is_found(
        modes,
        o.modes,
        m.width_px as int,
        m.height_px as int,
    );
    match mode_change(modes, o, m) {
        Ok(Some(mode)) => {
            let (e, r) = choose|e: int, r: int|
                #![trigger o.modes[e], modes[r]]
                {
                    &&& 0 <= e < o.modes.len()
                    &&& 0 <= r < modes.len()
                    &&& modes[r] == mode
                    &&& o.modes[e] == mode.xid
                    &&& forall|s: int| 0 <= s < r ==> (#[trigger] modes[s]).xid != mode.xid
                    &&& forall|f: int, s: int|
                        #![trigger o.modes[f], modes[s]]
                        0 <= f < e && 0 <= s < modes.len() && modes[s].xid == o.modes[f] && (forall|
                            t: int,
                        |
                            0 <= t < s ==> (#[trigger] modes[t]).xid != modes[s].xid)
                            ==> modes[s].width != m.width_px || modes[s].height != m.height_px
                };
            assert(modes[r] == mode && o.modes[e] == mode.xid);
        },
        Ok(None) => {},
        Err(_) => {
            assert forall|r: int|
                0 <= r < modes.len() && o.modes.contains((#[trigger] modes[r]).xid) && (forall|
                    s: int,
                |
                    0 <= s < r ==> (#[trigger] modes[s]).xid != modes[r].xid) implies modes[r].width
                != m.width_px || modes[r].height != m.height_px by {
                let e = choose|e: int| 0 <= e < o.modes.len() && o.modes[e] == modes[r].xid;
                assert(o.modes[e] == modes[r].xid);
            }
        },
    }
}

/// An output in a mode that the screen does not know cannot be shown, and the
/// error names that mode.
pub proof fn a_mode_must_be_known(modes: Seq<Mode>, o: OutputView, m: MonitorView, xid: u64)
    requires
        o.current_mode == Some(xid),
        forall|r: int| 0 <= r < modes.len() ==> (#[trigger] modes[r]).xid != xid,
    ensures
        mode_change(modes, o, m) == Err::<Option<Mode>, PlanErrorView>(
            PlanErrorView::UnknownMode(xid),
        ),
{
    search::lemma_first_index_absent(modes, screen::has_xid(xid));
}

/// A layout that succeeds gives every available monitor its size: where its output
/// is in a mode of another width or of another height, a mode of just its width and
/// its height is set on that output.
pub proof fn every_available_monitor_gets_its_size(
    ms: Seq<MonitorView>,
    modes: Seq<Mode>,
    outputs: Seq<OutputView>,
    k: int,
    i: int,
    q: int,
)
    requires
        layout_plan(ms, modes, outputs).error is None,
        0 <= k < ms.len(),
        ms[k].available,
        0 <= i < outputs.len(),
        outputs[i].connected,
        ms[k].name == Some(outputs[i].name),
        forall|j: int|
            0 <= j < i && (#[trigger] outputs[j]).connected ==> outputs[j].name != outputs[i].name,
        0 <= q < modes.len(),
        Some(modes[q].xid) == outputs[i].current_mode,
        forall|r: int| 0 <= r < q ==> (#[trigger] modes[r]).xid != modes[q].xid,
        modes[q].width != ms[k].width_px || modes[q].height != ms[k].height_px,
    ensures
        exists|mode: Mode|
            {
                &&& mode.width == ms[k].width_px
                &&& mode.height == ms[k].height_px
                &&& modes.contains(mode)
                &&& outputs[i].modes.contains(mode.xid)
                &&& #[trigger] layout_plan(ms, modes, outputs).steps.contains(
                    StepView::SetMode(i, mode),
                )
            },
{
    let l = layout(ms, modes, outputs, k as nat);
    let next = layout(ms, modes, outputs, (k + 1) as nat);
    let last = layout(ms, modes, outputs, ms.len());
    lemma_output_found(outputs, i);
    lemma_layout_grows(ms, modes, outputs, (k + 1) as nat, ms.len());
    lemma_layout_grows(ms, modes, outputs, k as nat, ms.len());
    a_mode_that_does_not_fit_is_changed(modes, outputs[i], ms[k], q);
    let mode = mode_change(modes, outputs[i], ms[k])->Ok_0->0;
    let at = l.plan.steps.len() as int;
    assert(next == l.extended(i, Some(mode)));
    assert(next.plan.steps[at] == StepView::SetMode(i, mode));
    assert(last.plan.steps[at] == next.plan.steps[at]);
    assert(layout_plan(ms, modes, outputs).steps.contains(StepView::SetMode(i, mode)));
}

/// The layout of more monitors begins with that of fewer, and succeeds only where
/// that does.
proof fn lemma_layout_grows(
    ms: Seq<MonitorView>,
    modes: Seq<Mode>,
    outputs: Seq<OutputView>,
    k: nat,
    n: nat,
)
    requires
        k <= n,
    ensures
        layout(ms, modes, outputs, k).plan.steps.is_prefix_of(
            layout(ms, modes, outputs, n).plan.steps,
        ),
        layout(ms, modes, outputs, n).plan.error is None ==> layout(
            ms,
            modes,
            outputs,
            k,
        ).plan.error is None,
    decreases n - k,
{
    if k < n {
        lemma_layout_grows(ms, modes, outputs, k, (n - 1) as nat);
    }
}

/// A mode is set only where it is needed: on the output of an available monitor
/// that is on, in a known mode of another width or another height. It is a mode that
/// the screen knows and the output supports, and has both sides of the monitor.
pub proof fn a_mode_is_set_only_where_it_does_not_fit(
    ms: Seq<MonitorView>,
    modes: Seq<Mode>,
    outputs: Seq<OutputView>,
    i: int,
    mode: Mode,
)
    requires
        layout_plan(ms, modes, outputs).steps.contains(StepView::SetMode(i, mode)),
    ensures
        0 <= i < outputs.len(),
        outputs[i].connected,
        modes.contains(mode),
        outputs[i].modes.contains(mode.xid),
        exists|k: int, q: int|
            #![trigger ms[k], modes[q]]
            {
                &&& 0 <= k < ms.len()
                &&& ms[k].available
                &&& ms[k].name == Some(outputs[i].name)
                &&& mode.width == ms[k].width_px
                &&& mode.height == ms[k].height_px
                &&& 0 <= q < modes.len()
                &&& Some(modes[q].xid) == outputs[i].current_mode
                &&& modes[q].width != mode.width || modes[q].height != mode.height
            },
{
    lemma_set_modes_needed(ms, modes, outputs, i, mode, ms.len());
}

/// The same of the first `n` monitors.
proof fn lemma_set_modes_needed(
    ms: Seq<MonitorView>,
    modes: Seq<Mode>,
    outputs: Seq<OutputView>,
    i: int,
    mode: Mode,
    n: nat,
)
    requires
        n <= ms.len(),
        layout(ms, modes, outputs, n).plan.steps.contains(StepView::SetMode(i, mode)),
    ensures
        0 <= i < outputs.len(),
        outputs[i].connected,
        modes.contains(mode),
        outputs[i].modes.contains(mode.xid),
        exists|k: int, q: int|
            #![trigger ms[k], modes[q]]
            {
                &&& 0 <= k < ms.len()
                &&& ms[k].available
                &&& ms[k].name == Some(outputs[i].name)
                &&& mode.width == ms[k].width_px
                &&& mode.height == ms[k].height_px
                &&& 0 <= q < modes.len()
                &&& Some(modes[q].xid) == outputs[i].current_mode
                &&& modes[q].width != mode.width || modes[q].height != mode.height
            },
    decreases n,
{
    let step = StepView::SetMode(i, mode);
    let after = layout(ms, modes, outputs, n).plan.steps;
    let at = choose|at: int| 0 <= at < after.len() && after[at] == step;
    let l = layout(ms, modes, outputs, (n - 1) as nat);
    let m = ms[n - 1];
    if at < l.plan.steps.len() {
        assert(l.plan.steps[at] == step);
        lemma_set_modes_needed(ms, modes, outputs, i, mode, (n - 1) as nat);
    } else {
        assert(mode_change(modes, outputs[i], m) == Ok::<Option<Mode>, PlanErrorView>(Some(mode)));
        lemma_output_facts(outputs, m.name->0);
        let xid = outputs[i].current_mode->0;
        search::first_index_is_first(modes, screen::has_xid(xid));
        let q = search::first_index(modes, screen::has_xid(xid))->0;
        assert forall|r: int| 0 <= r < q implies (#[trigger] modes[r]).xid != modes[q].xid by {
            assert(!screen::has_xid(xid)(modes[r]));
        }
        a_mode_that_does_not_fit_is_changed(modes, outputs[i], m, q);
        assert(ms[n - 1].available && Some(modes[q].xid) == outputs[i].current_mode);
    }
}

/// Without monitors nothing is laid out. A monitor that is not available adds
/// nothing, and nothing follows an error.
pub proof fn only_available_monitors_are_laid_out(
    ms: Seq<MonitorView>,
    m: MonitorView,
    modes: Seq<Mode>,
    outputs: Seq<OutputView>,
)
    ensures
        layout_plan(seq![], modes, outputs).steps.len() == 0,
        layout_plan(seq![], modes, outputs).error is None,
        !m.available || layout_plan(ms, modes, outputs).error is Some ==> layout_plan(
            ms.push(m),
            modes,
            outputs,
        ) == layout_plan(ms, modes, outputs),
{
    lemma_layout_prefix(ms, m, modes, outputs, ms.len());
}

/// The layout of the first monitors does not depend on those behind them.
proof fn lemma_layout_prefix(
    ms: Seq<MonitorView>,
    m: MonitorView,
    modes: Seq<Mode>,
    outputs: Seq<OutputView>,
    n: nat,
)
    requires
        n <= ms.len(),
    ensures
        layout(ms.push(m), modes, outputs, n) == layout(ms, modes, outputs, n),
    decreases n,
{
    if n > 0 {
        lemma_layout_prefix(ms, m, modes, outputs, (n - 1) as nat);
    }
}

/// An available monitor ends the layout, with what was planned before it, where it
/// is on no output, where no connected output has the name of its own, and where
/// its output has no fitting mode; the error says which.
pub proof fn a_monitor_that_cannot_be_shown_ends_the_layout(
    ms: Seq<MonitorView>,
    m: MonitorView,
    modes: Seq<Mode>,
    outputs: Seq<OutputView>,
    i: int,
)
    requires
        layout_plan(ms, modes, outputs).error is None,
        m.available,
    ensures
        ({
            let before = layout_plan(ms, modes, outputs);
            let after = layout_plan(ms.push(m), modes, outputs);
            &&& m.name is None ==> after.steps == before.steps && after.error == Some(
                PlanErrorView::NoOutputName { sn: m.sn, product: m.product },
            )
            &&& m.name is Some && (forall|j: int|
                0 <= j < outputs.len() && (#[trigger] outputs[j]).connected ==> Some(
                    outputs[j].name,
                ) != m.name) ==> after.steps == before.steps && after.error == Some(
                PlanErrorView::OutputNotFound(m.name->0),
            )
            &&& 0 <= i < outputs.len() && outputs[i].connected && m.name == Some(outputs[i].name)
                && (forall|j: int|
                0 <= j < i && (#[trigger] outputs[j]).connected ==> outputs[j].name
                    != outputs[i].name) ==> match mode_change(modes, outputs[i], m) {
                Err(e) => after.steps == before.steps && after.error == Some(e),
                Ok(_) => after.error is None,
            }
        }),
{
    lemma_layout_prefix(ms, m, modes, outputs, ms.len());
    if m.name is Some && (forall|j: int|
        0 <= j < outputs.len() && (#[trigger] outputs[j]).connected ==> Some(outputs[j].name)
            != m.name) {
        lemma_output_absent(outputs, m.name->0);
    }
    if 0 <= i < outputs.len() && outputs[i].connected && m.name == Some(outputs[i].name) && (forall|
        j: int,
    |
        0 <= j < i && (#[trigger] outputs[j]).connected ==> outputs[j].name != outputs[i].name) {
        lemma_output_found(outputs, i);
    }
}

/// The first available monitor is given its mode where it needs one, and is placed
/// next to nothing.
pub proof fn the_first_monitor_is_not_placed(
    ms: Seq<MonitorView>,
    m: MonitorView,
    modes: Seq<Mode>,
    outputs: Seq<OutputView>,
    i: int,
)
    requires
        forall|k: int| 0 <= k < ms.len() ==> !(#[trigger] ms[k]).available,
        m.available,
        0 <= i < outputs.len(),
        outputs[i].connected,
        m.name == Some(outputs[i].name),
        forall|j: int|
            0 <= j < i && (#[trigger] outputs[j]).connected ==> outputs[j].name != outputs[i].name,
        mode_change(modes, outputs[i], m) is Ok,
    ensures
        layout_plan(ms.push(m), modes, outputs).error is None,
        layout_plan(ms.push(m), modes, outputs).steps == match mode_change(modes, outputs[i], m) {
            Ok(Some(mode)) => seq![StepView::SetMode(i, mode)],
            _ => seq![],
        },
{
    lemma_layout_prefix(ms, m, modes, outputs, ms.len());
    lemma_output_found(outputs, i);
    lemma_nothing_laid_out(ms, modes, outputs, ms.len());
    assert(layout_plan(ms.push(m), modes, outputs).steps =~= match mode_change(
        modes,
        outputs[i],
        m,
    ) {
        Ok(Some(mode)) => seq![StepView::SetMode(i, mode)],
        _ => seq![],
    });
}

/// Where no monitor is available nothing is laid out.
proof fn lemma_nothing_laid_out(
    ms: Seq<MonitorView>,
    modes: Seq<Mode>,
    outputs: Seq<OutputView>,
    n: nat,
)
    requires
        n <= ms.len(),
        forall|k: int| 0 <= k < ms.len() ==> !(#[trigger] ms[k]).available,
    ensures
        layout(ms, modes, outputs, n).plan.steps.len() == 0,
        layout(ms, modes, outputs, n).plan.error is None,
        layout(ms, modes, outputs, n).rightmost is None,
    decreases n,
{
    if n > 0 {
        lemma_nothing_laid_out(ms, modes, outputs, (n - 1) as nat);
    }
}

/// Every further available monitor is given its mode where it needs one, and then
/// its output is placed to the right of the output of the available monitor before
/// it, whatever unavailable monitors stand between them.
pub proof fn a_monitor_is_placed_right_of_the_one_before_it(
    ms: Seq<MonitorView>,
    m: MonitorView,
    modes: Seq<Mode>,
    outputs: Seq<OutputView>,
    i: int,
    k: int,
    left: int,
)
    requires
        layout_plan(ms, modes, outputs).error is None,
        m.available,
        0 <= i < outputs.len(),
        outputs[i].connected,
        m.name == Some(outputs[i].name),
        forall|j: int|
            0 <= j < i && (#[trigger] outputs[j]).connected ==> outputs[j].name != outputs[i].name,
        mode_change(modes, outputs[i], m) is Ok,
        0 <= k < ms.len(),
        ms[k].available,
        forall|l: int| k < l < ms.len() ==> !(#[trigger] ms[l]).available,
        0 <= left < outputs.len(),
        outputs[left].connected,
        ms[k].name == Some(outputs[left].name),
        forall|j: int|
            0 <= j < left && (#[trigger] outputs[j]).connected ==> outputs[j].name
                != outputs[left].name,
    ensures
        layout_plan(ms.push(m), modes, outputs).error is None,
        layout_plan(ms.push(m), modes, outputs).steps == layout_plan(ms, modes, outputs).steps
            + match mode_change(modes, outputs[i], m) {
            Ok(Some(mode)) => seq![StepView::SetMode(i, mode), StepView::PlaceRightOf(i, left)],
            _ => seq![StepView::PlaceRightOf(i, left)],
        },
{
    lemma_layout_prefix(ms, m, modes, outputs, ms.len());
    lemma_output_found(outputs, i);
    lemma_output_found(outputs, left);
    lemma_rightmost(ms, modes, outputs, k, ms.len());
    assert(layout_plan(ms.push(m), modes, outputs).steps =~= layout_plan(ms, modes, outputs).steps
        + match mode_change(modes, outputs[i], m) {
        Ok(Some(mode)) => seq![StepView::SetMode(i, mode), StepView::PlaceRightOf(i, left)],
        _ => seq![StepView::PlaceRightOf(i, left)],
    });
}

/// The output furthest to the right is that of the last available monitor.
proof fn lemma_rightmost(
    ms: Seq<MonitorView>,
    modes: Seq<Mode>,
    outputs: Seq<OutputView>,
    k: int,
    n: nat,
)
    requires
        0 <= k < n <= ms.len(),
        ms[k].available,
        forall|l: int| k < l < n ==> !(#[trigger] ms[l]).available,
        layout(ms, modes, outputs, n).plan.error is None,
    ensures
        ms[k].name is Some,
        layout(ms, modes, outputs, n).rightmost == output_index(outputs, ms[k].name->0),
    decreases n,
{
    if k < n - 1 {
        assert(!ms[n - 1].available);
        lemma_rightmost(ms, modes, outputs, k, (n - 1) as nat);
    }
}

/// What each error tells the user names what is missing.
pub proof fn an_error_names_what_is_missing(
    monitor: Seq<char>,
    sn: Option<Seq<char>>,
    product: Option<Seq<char>>,
    output: Seq<char>,
    xid: u64,
    width: nat,
    height: nat,
)
    ensures
        (PlanErrorView::NoOutputName { sn, product }).message(monitor)
            == "No output name for monitor "@ + monitor,
        PlanErrorView::OutputNotFound(output).message(monitor) == "Output '"@ + output
            + "' not found"@,
        PlanErrorView::UnknownMode(xid).message(monitor) == "No mode found with xid "@
            + text::decimal(xid as nat),
        (PlanErrorView::NoSuchMode { width, height, output }).message(monitor) == "No mode "@
            + text::decimal(width) + "x"@ + text::decimal(height) + " available for "@ + output,
{
}

} // verus!
