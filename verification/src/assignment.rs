//! From the attached outputs to a profile that is ready to be shown: every
//! output whose monitor is known goes to its entry, the others are listed as
//! placeholders, and the monitors are put in order.

use vstd::prelude::*;

use crate::config::{ConfigError, ConfigErrorView};
#[allow(unused_imports)]
use crate::descriptors;
use crate::descriptors::{SearchDescriptors, SearchView};
#[allow(unused_imports)]
use crate::displays;
use crate::displays::{
    DisplaysConfiguration, DisplaysView, MatchError, MatchErrorView, Target,
};
use crate::monitor::{MonitorDefinition, MonitorView};
#[allow(unused_imports)]
use crate::ordering;
#[allow(unused_imports)]
use crate::plan;
use crate::screen::{extract_descriptors, Mode, Output, OutputView};
#[allow(unused_imports)]
use crate::search;
use crate::text::copy_text;

verus! {

/// An output to which a monitor is attached that says what it is.
#[derive(Clone, Debug)]
pub struct IdentifiedOutput {
    pub name: String,
    pub id: SearchDescriptors,
}

/// The contents of an [`IdentifiedOutput`].
pub struct IdentifiedView {
    pub name: Seq<char>,
    pub id: SearchView,
}

impl View for IdentifiedOutput {
    type V = IdentifiedView;

    open spec fn view(&self) -> IdentifiedView {
        IdentifiedView { name: self.name@, id: self.id@ }
    }
}

impl DeepView for IdentifiedOutput {
    type V = IdentifiedView;

    open spec fn deep_view(&self) -> IdentifiedView {
        self@
    }
}

/// An output as an identified one, where it is connected and its monitor says
/// what it is.
pub open spec fn identified() -> spec_fn(OutputView) -> Option<IdentifiedView> {
    |o: OutputView|
        if o.connected {
            match descriptors::edid_identification(o.edid) {
                Some(id) => Some(IdentifiedView { name: o.name, id }),
                None => None,
            }
        } else {
            None
        }
}

/// The monitors after one identified output has been taken in: its entry is
/// claimed for it, or it is added as a placeholder.
pub open spec fn taken_in(ms: Seq<MonitorView>, o: IdentifiedView) -> Seq<MonitorView> {
    match displays::target(ms, o.id) {
        Target::Entry(i) => ms.update(i, ms[i].claimed_by(o.name)),
        _ => ms.push(MonitorView::placeholder(o.name)),
    }
}

/// The monitors after the first `n` of `outs` have been taken in, one by one.
pub open spec fn assigned(ms: Seq<MonitorView>, outs: Seq<IdentifiedView>, n: nat) -> Seq<
    MonitorView,
>
    decreases n,
{
    if n == 0 {
        ms
    } else {
        taken_in(assigned(ms, outs, (n - 1) as nat), outs[n - 1])
    }
}

/// The monitors with all of `outs` taken in, put in order.
pub open spec fn arranged(ms: Seq<MonitorView>, outs: Seq<IdentifiedView>) -> Seq<MonitorView> {
    ordering::in_order(assigned(ms, outs, outs.len()))
}

/// Whether some monitor is available.
pub open spec fn some_available(ms: Seq<MonitorView>) -> bool {
    exists|i: int| 0 <= i < ms.len() && (#[trigger] ms[i]).available
}

/// What became of a connected output.
#[derive(Clone, Debug)]
pub enum Outcome {
    /// Its monitor does not say what it is, and it was passed over.
    Skipped,
    /// It is the entry with this serial number.
    BySerial(String),
    /// It is the only unclaimed entry of this product.
    ByProduct(String),
    /// What its monitor says of itself is no entry, for this reason.
    Refused(SearchDescriptors, MatchError),
}

/// The contents of an [`Outcome`].
pub enum OutcomeView {
    Skipped,
    BySerial(Seq<char>),
    ByProduct(Seq<char>),
    Refused(SearchView, MatchErrorView),
}

impl View for Outcome {
    type V = OutcomeView;

    open spec fn view(&self) -> OutcomeView {
        match *self {
            Outcome::Skipped => OutcomeView::Skipped,
            Outcome::BySerial(sn) => OutcomeView::BySerial(sn@),
            Outcome::ByProduct(product) => OutcomeView::ByProduct(product@),
            Outcome::Refused(id, error) => OutcomeView::Refused(id@, error@),
        }
    }
}

/// A connected output, and what became of it.
#[derive(Clone, Debug)]
pub struct MatchReport {
    pub output: String,
    pub outcome: Outcome,
}

/// The contents of a [`MatchReport`].
pub struct MatchReportView {
    pub output: Seq<char>,
    pub outcome: OutcomeView,
}

impl View for MatchReport {
    type V = MatchReportView;

    open spec fn view(&self) -> MatchReportView {
        MatchReportView { output: self.output@, outcome: self.outcome@ }
    }
}

impl DeepView for MatchReport {
    type V = MatchReportView;

    open spec fn deep_view(&self) -> MatchReportView {
        self@
    }
}

/// What becomes of an identified output when it is taken in among `ms`.
pub open spec fn outcome(ms: Seq<MonitorView>, o: IdentifiedView) -> OutcomeView {
    match displays::target(ms, o.id) {
        Target::Entry(_) => if displays::serial_target(ms, o.id) is Some {
            OutcomeView::BySerial(o.id.sn->0)
        } else {
            OutcomeView::ByProduct(o.id.product->0)
        },
        Target::Ambiguous(n) => OutcomeView::Refused(
            o.id,
            MatchErrorView::Ambiguous { product: o.id.product->0, output: o.name, count: n },
        ),
        Target::Missing => OutcomeView::Refused(
            o.id,
            MatchErrorView::Missing { id: displays::search_id(o.id) },
        ),
    }
}

/// The identified ones of the first `n` outputs.
pub open spec fn identified_of(outputs: Seq<OutputView>, n: int) -> Seq<IdentifiedView> {
    outputs.take(n).filter_map(identified())
}

/// The monitors after the identified ones of the first `n` outputs have been
/// taken in.
pub open spec fn fitted(ms: Seq<MonitorView>, outputs: Seq<OutputView>, n: int) -> Seq<
    MonitorView,
> {
    assigned(ms, identified_of(outputs, n), identified_of(outputs, n).len())
}

/// What becomes of a connected output when the monitors are `ms`.
pub open spec fn report(ms: Seq<MonitorView>, o: OutputView) -> MatchReportView {
    MatchReportView {
        output: o.name,
        outcome: match identified()(o) {
            Some(known) => outcome(ms, known),
            None => OutcomeView::Skipped,
        },
    }
}

/// What becomes of each connected one of the first `n` outputs: each meets the
/// monitors as the outputs before it have left them.
pub open spec fn reports(ms: Seq<MonitorView>, outputs: Seq<OutputView>, n: nat) -> Seq<
    MatchReportView,
>
    decreases n,
{
    if n == 0 {
        seq![]
    } else {
        let rest = reports(ms, outputs, (n - 1) as nat);
        if outputs[n - 1].connected {
            rest.push(report(fitted(ms, outputs, n - 1), outputs[n - 1]))
        } else {
            rest
        }
    }
}

/// What the first outputs leave does not depend on those behind them.
proof fn lemma_assigned_prefix(
    ms: Seq<MonitorView>,
    outs: Seq<IdentifiedView>,
    o: IdentifiedView,
    n: nat,
)
    requires
        n <= outs.len(),
    ensures
        assigned(ms, outs.push(o), n) == assigned(ms, outs, n),
    decreases n,
{
    if n > 0 {
        lemma_assigned_prefix(ms, outs, o, (n - 1) as nat);
    }
}

/// One more output is taken in where it is identified, and else changes nothing.
proof fn lemma_fitted_step(ms: Seq<MonitorView>, outputs: Seq<OutputView>, n: int)
    requires
        0 <= n < outputs.len(),
    ensures
        fitted(ms, outputs, n + 1) == match identified()(outputs[n]) {
            Some(known) => taken_in(fitted(ms, outputs, n), known),
            None => fitted(ms, outputs, n),
        },
{
    search::lemma_filter_map_step(outputs, identified(), n);
    let outs = identified_of(outputs, n);
    if let Some(known) = identified()(outputs[n]) {
        assert(identified_of(outputs, n + 1) == outs.push(known));
        lemma_assigned_prefix(ms, outs, known, outs.len());
    }
}

impl DisplaysConfiguration {
    /// Takes in one identified output: its entry is claimed for it, or it is
    /// added as a placeholder. Says which, and why.
    pub fn take_in(&mut self, output: &IdentifiedOutput) -> (r: Outcome)
        ensures
            r@ == outcome(old(self)@.displays, output@),
            final(self)@ == (DisplaysView {
                displays: taken_in(old(self)@.displays, output@),
                profile: old(self)@.profile,
            }),
    {
        let serial: Option<String> = match &output.id.sn {
            Some(sn) => if self.find_serial(sn).is_some() {
                Some(sn.clone())
            } else {
                None
            },
            None => None,
        };
        match self.update_from_descriptors(&output.id, output.name.as_str()) {
            Err(error) => {
                self.add(MonitorDefinition::empty(output.name.as_str()));
                let id = SearchDescriptors {
                    sn: copy_text(&output.id.sn),
                    product: copy_text(&output.id.product),
                };
                Outcome::Refused(id, error)
            },
            Ok(()) => match serial {
                Some(sn) => Outcome::BySerial(sn),
                None => Outcome::ByProduct(copy_text(&output.id.product).unwrap()),
            },
        }
    }

    /// Takes in every connected output whose monitor says what it is, one by
    /// one, and reports on every connected output.
    pub fn fit_outputs(&mut self, outputs: &Vec<Output>) -> (r: Vec<MatchReport>)
        ensures
            r.deep_view() == reports(old(self)@.displays, outputs.deep_view(), outputs@.len()),
            final(self)@ == ({
                let outs = outputs.deep_view().filter_map(identified());
                DisplaysView {
                    displays: assigned(old(self)@.displays, outs, outs.len()),
                    profile: old(self)@.profile,
                }
            }),
    {
        let ghost all = outputs.deep_view();
        let ghost before = self@;
        let mut found: Vec<MatchReport> = Vec::new();
        let mut i: usize = 0;
        assert(found.deep_view() =~= seq![]);
        assert(identified_of(all, 0) =~= seq![]);
        while i < outputs.len()
            invariant
                i <= outputs.len(),
                all == outputs.deep_view(),
                found.deep_view() == reports(before.displays, all, i as nat),
                self@ == (DisplaysView {
                    displays: fitted(before.displays, all, i as int),
                    profile: before.profile,
                }),
            decreases outputs.len() - i,
        {
            let o = &outputs[i];
            assert(all[i as int] == o@);
            proof {
                lemma_fitted_step(before.displays, all, i as int);
            }
            if o.connected {
                let outcome = match extract_descriptors(o) {
                    Some(id) => self.take_in(&IdentifiedOutput { name: o.name.clone(), id }),
                    None => Outcome::Skipped,
                };
                let ghost sofar = found.deep_view();
                let one = MatchReport { output: o.name.clone(), outcome };
                found.push(one);
                assert(found.deep_view() =~= sofar.push(one@));
            }
            i += 1;
        }
        assert(all.take(i as int) =~= all);
        found
    }

    /// Takes in identified outputs, one by one.
    pub fn assign_outputs(&mut self, outputs: &Vec<IdentifiedOutput>)
        ensures
            final(self)@ == (DisplaysView {
                displays: assigned(
                    old(self)@.displays,
                    outputs.deep_view(),
                    outputs@.len(),
                ),
                profile: old(self)@.profile,
            }),
    {
        let ghost outs = outputs.deep_view();
        let ghost before = self@;
        let mut i: usize = 0;
        while i < outputs.len()
            invariant
                i <= outputs.len(),
                outs == outputs.deep_view(),
                self@ == (DisplaysView {
                    displays: assigned(before.displays, outs, i as nat),
                    profile: before.profile,
                }),
            decreases outputs.len() - i,
        {
            assert(outs[i as int] == outputs[i as int]@);
            self.take_in(&outputs[i]);
            i += 1;
        }
    }

    /// Whether some monitor is available.
    pub fn any_available(&self) -> (r: bool)
        ensures
            r == some_available(self@.displays),
    {
        let ghost ms = self@.displays;
        let mut i: usize = 0;
        while i < self.displays.len()
            invariant
                i <= self.displays.len(),
                ms == self@.displays,
                forall|j: int| 0 <= j < i ==> !(#[trigger] ms[j]).available,
            decreases self.displays.len() - i,
        {
            assert(ms[i as int] == self.displays[i as int]@);
            if self.displays[i].available {
                return true;
            }
            i += 1;
        }
        false
    }
}

/// A profile with its outputs taken in, and its monitors put in order; an error
/// where none of its monitors is available.
fn settle(preset: DisplaysConfiguration) -> (r: Result<DisplaysConfiguration, ConfigError>)
    ensures
        is_settled_as(r, preset@.profile, ordering::in_order(preset@.displays)),
{
    let mut monitor_outputs = preset;
    monitor_outputs.sort_by_order();
    if monitor_outputs.any_available() {
        Ok(monitor_outputs)
    } else {
        Err(ConfigError::NoAvailableMonitor)
    }
}

/// Whether `r` is the profile of this name with these monitors, or the error that
/// stands for it where none of them is available.
pub open spec fn is_settled_as(
    r: Result<DisplaysConfiguration, ConfigError>,
    profile: Seq<char>,
    ms: Seq<MonitorView>,
) -> bool {
    match r {
        Ok(c) => some_available(ms) && c@ == (DisplaysView { displays: ms, profile }),
        Err(e) => !some_available(ms) && e@ == ConfigErrorView::NoAvailableMonitor,
    }
}

/// A preset with identified outputs taken in and its monitors in order; an
/// error where none of its monitors is available then.
pub fn arrange(preset: DisplaysConfiguration, outputs: &Vec<IdentifiedOutput>) -> (r: Result<
    DisplaysConfiguration,
    ConfigError,
>)
    ensures
        is_settled_as(r, preset@.profile, arranged(preset@.displays, outputs.deep_view())),
{
    let mut monitor_outputs = preset;
    monitor_outputs.assign_outputs(outputs);
    settle(monitor_outputs)
}

/// A preset fitted to the outputs of the screen: those that are connected and
/// whose monitors say what they are are taken in, and its monitors are put in
/// order. An error where none of its monitors is available then. Beside it, a
/// report on every connected output.
pub fn set_config_reported(preset: DisplaysConfiguration, outputs: &Vec<Output>) -> (r: (
    Vec<MatchReport>,
    Result<DisplaysConfiguration, ConfigError>,
))
    ensures
        r.0.deep_view() == reports(preset@.displays, outputs.deep_view(), outputs@.len()),
        is_settled_as(
            r.1,
            preset@.profile,
            arranged(preset@.displays, outputs.deep_view().filter_map(identified())),
        ),
{
    let mut monitor_outputs = preset;
    let found = monitor_outputs.fit_outputs(outputs);
    (found, settle(monitor_outputs))
}

/// A preset fitted to the outputs of the screen: those that are connected and
/// whose monitors say what they are are taken in, and its monitors are put in
/// order. An error where none of its monitors is available then.
pub fn set_config(preset: DisplaysConfiguration, outputs: &Vec<Output>) -> (r: Result<
    DisplaysConfiguration,
    ConfigError,
>)
    ensures
        is_settled_as(
            r,
            preset@.profile,
            arranged(preset@.displays, outputs.deep_view().filter_map(identified())),
        ),
{
    let (_, fitted) = set_config_reported(preset, outputs);
    fitted
}

/// Whether two monitors are the same but for the output that they are on.
pub open spec fn same_entry(a: MonitorView, b: MonitorView) -> bool {
    a == (MonitorView { available: a.available, name: a.name, ..b })
}

/// The name of an output, where it is connected.
pub open spec fn connected_name() -> spec_fn(OutputView) -> Option<Seq<char>> {
    |o: OutputView|
        if o.connected {
            Some(o.name)
        } else {
            None
        }
}

/// Every connected output is reported once, in the sequence of the outputs, and
/// no other is.
pub proof fn every_connected_output_is_reported(ms: Seq<MonitorView>, outputs: Seq<OutputView>)
    ensures
        reports(ms, outputs, outputs.len()).map_values(|r: MatchReportView| r.output)
            == outputs.filter_map(connected_name()),
{
    lemma_reported_names(ms, outputs, outputs.len());
    assert(outputs.take(outputs.len() as int) =~= outputs);
}

/// The same of the first `n` outputs.
proof fn lemma_reported_names(ms: Seq<MonitorView>, outputs: Seq<OutputView>, n: nat)
    requires
        n <= outputs.len(),
    ensures
        reports(ms, outputs, n).map_values(|r: MatchReportView| r.output) == outputs.take(
            n as int,
        ).filter_map(connected_name()),
    decreases n,
{
    let names = reports(ms, outputs, n).map_values(|r: MatchReportView| r.output);
    if n == 0 {
        assert(outputs.take(0) =~= seq![]);
        assert(names =~= seq![]);
    } else {
        let before = reports(ms, outputs, (n - 1) as nat).map_values(
            |r: MatchReportView| r.output,
        );
        lemma_reported_names(ms, outputs, (n - 1) as nat);
        search::lemma_filter_map_step(outputs, connected_name(), n - 1);
        if outputs[n - 1].connected {
            assert(names =~= before.push(outputs[n - 1].name));
        } else {
            assert(names =~= before);
        }
    }
}

/// Taking in an output changes at most one entry, and of that only which output
/// it is on; or it adds a placeholder. Either way the output has a place.
pub proof fn an_output_gets_one_place(ms: Seq<MonitorView>, o: IdentifiedView)
    ensures
        ({
            let after = taken_in(ms, o);
            exists|i: int|
                {
                    &&& 0 <= i < after.len()
                    &&& (#[trigger] after[i]).name == Some(o.name)
                    &&& if i < ms.len() {
                        after.len() == ms.len() && same_entry(after[i], ms[i]) && after[i].available
                    } else {
                        after.len() == ms.len() + 1 && after[i] == MonitorView::placeholder(o.name)
                    }
                    &&& forall|j: int| 0 <= j < ms.len() && j != i ==> after[j] == #[trigger] ms[j]
                }
        }),
{
    lemma_target_in_range(ms, o.id);
    let after = taken_in(ms, o);
    match displays::target(ms, o.id) {
        Target::Entry(i) => {
            assert(after[i].name == Some(o.name));
        },
        _ => {
            assert(after[ms.len() as int].name == Some(o.name));
        },
    }
}

/// A match is an entry, and one that can be told from others.
proof fn lemma_target_in_range(ms: Seq<MonitorView>, d: SearchView)
    ensures
        displays::target(ms, d) matches Target::Entry(i) ==> 0 <= i < ms.len() && (ms[i].sn is Some
            || ms[i].product is Some),
{
    if d.sn is Some {
        search::first_index_is_first(ms, displays::has_serial(d.sn->0));
    }
    if d.product is Some {
        search::first_index_is_first(ms, displays::unclaimed_product(d.product->0));
    }
}

/// However many outputs are taken in, the entries of the profile stay where they
/// are and keep what describes them, and everything behind them is a placeholder
/// for one of the outputs.
pub proof fn entries_stay_and_placeholders_follow(
    ms: Seq<MonitorView>,
    outs: Seq<IdentifiedView>,
    n: nat,
)
    requires
        n <= outs.len(),
    ensures
        ms.len() <= assigned(ms, outs, n).len() <= ms.len() + n,
        forall|i: int|
            0 <= i < ms.len() ==> same_entry(#[trigger] assigned(ms, outs, n)[i], ms[i]),
        forall|i: int|
            ms.len() <= i < assigned(ms, outs, n).len() ==> exists|k: int|
                0 <= k < n && #[trigger] assigned(ms, outs, n)[i] == MonitorView::placeholder(
                    (#[trigger] outs[k]).name,
                ),
    decreases n,
{
    if n > 0 {
        let before = assigned(ms, outs, (n - 1) as nat);
        let after = assigned(ms, outs, n);
        let o = outs[n - 1];
        entries_stay_and_placeholders_follow(ms, outs, (n - 1) as nat);
        lemma_target_in_range(before, o.id);
        assert forall|i: int| 0 <= i < ms.len() implies same_entry(#[trigger] after[i], ms[i]) by {
            assert(same_entry(before[i], ms[i]));
        }
        assert forall|i: int| ms.len() <= i < after.len() implies exists|k: int|
            0 <= k < n && #[trigger] after[i] == MonitorView::placeholder(
                (#[trigger] outs[k]).name,
            ) by {
            if i < before.len() {
                assert(before[i].sn is None && before[i].product is None);
                let k = choose|k: int|
                    0 <= k < n - 1 && before[i] == MonitorView::placeholder(
                        (#[trigger] outs[k]).name,
                    );
                assert(after[i] == before[i]);
                assert(after[i] == MonitorView::placeholder(outs[k].name));
            } else {
                assert(after[i] == MonitorView::placeholder(outs[n - 1].name));
            }
        }
    }
}

/// Where every available monitor is on an output, it stays so: when outputs are
/// taken in and when the monitors are put in order.
pub proof fn available_monitors_stay_on_outputs(ms: Seq<MonitorView>, outs: Seq<IdentifiedView>)
    requires
        displays::well_named(ms),
    ensures
        displays::well_named(assigned(ms, outs, outs.len())),
        displays::well_named(arranged(ms, outs)),
{
    lemma_assigned_well_named(ms, outs, outs.len());
    let after = assigned(ms, outs, outs.len());
    let sorted = arranged(ms, outs);
    assert forall|i: int|
        0 <= i < sorted.len() && (#[trigger] sorted[i]).available implies sorted[i].name is Some by {
        lemma_sorted_from(after, i);
    }
}

/// A monitor that was put in order was there before.
proof fn lemma_sorted_from(ms: Seq<MonitorView>, i: int)
    requires
        0 <= i < ordering::in_order(ms).len(),
    ensures
        ms.contains(ordering::in_order(ms)[i]),
{
    broadcast use vstd::seq_lib::group_to_multiset_ensures;

    ordering::in_order_keeps_the_monitors(ms);
    let sorted = ordering::in_order(ms);
    assert(sorted.contains(sorted[i]));
    assert(sorted.to_multiset().count(sorted[i]) > 0);
}

/// Taking in outputs leaves every available monitor on an output.
proof fn lemma_assigned_well_named(ms: Seq<MonitorView>, outs: Seq<IdentifiedView>, n: nat)
    requires
        displays::well_named(ms),
    ensures
        displays::well_named(assigned(ms, outs, n)),
    decreases n,
{
    if n > 0 {
        lemma_assigned_well_named(ms, outs, (n - 1) as nat);
        lemma_target_in_range(assigned(ms, outs, (n - 1) as nat), outs[n - 1].id);
    }
}

/// From a profile none of whose monitors is available yet, some monitor becomes
/// available exactly where some output is recognised as an entry.
pub proof fn available_means_recognised(ms: Seq<MonitorView>, outs: Seq<IdentifiedView>)
    requires
        !some_available(ms),
    ensures
        some_available(arranged(ms, outs)) <==> exists|k: int|
            0 <= k < outs.len() && displays::target(
                assigned(ms, outs, k as nat),
                (#[trigger] outs[k]).id,
            ) is Entry,
{
    broadcast use vstd::seq_lib::group_to_multiset_ensures;

    let after = assigned(ms, outs, outs.len());
    let sorted = arranged(ms, outs);
    lemma_available_means_recognised(ms, outs, outs.len());
    ordering::in_order_keeps_the_monitors(after);
    if some_available(sorted) {
        let i = choose|i: int| 0 <= i < sorted.len() && (#[trigger] sorted[i]).available;
        lemma_sorted_from(after, i);
        let j = choose|j: int| 0 <= j < after.len() && after[j] == sorted[i];
        assert(after[j].available);
    }
    if some_available(after) {
        let j = choose|j: int| 0 <= j < after.len() && (#[trigger] after[j]).available;
        assert(after.contains(after[j]));
        assert(after.to_multiset().count(after[j]) > 0);
        assert(sorted.contains(after[j]));
        let i = choose|i: int| 0 <= i < sorted.len() && sorted[i] == after[j];
        assert(sorted[i].available);
    }
}

/// The same, before the monitors are put in order.
proof fn lemma_available_means_recognised(ms: Seq<MonitorView>, outs: Seq<IdentifiedView>, n: nat)
    requires
        !some_available(ms),
        n <= outs.len(),
    ensures
        some_available(assigned(ms, outs, n)) <==> exists|k: int|
            0 <= k < n && displays::target(
                assigned(ms, outs, k as nat),
                (#[trigger] outs[k]).id,
            ) is Entry,
    decreases n,
{
    if n > 0 {
        let before = assigned(ms, outs, (n - 1) as nat);
        let after = assigned(ms, outs, n);
        let o = outs[n - 1];
        lemma_available_means_recognised(ms, outs, (n - 1) as nat);
        lemma_target_in_range(before, o.id);
        match displays::target(before, o.id) {
            Target::Entry(i) => {
                assert(after[i].available);
            },
            _ => {
                assert(after == before.push(MonitorView::placeholder(o.name)));
                if some_available(before) {
                    let i = choose|i: int|
                        0 <= i < before.len() && (#[trigger] before[i]).available;
                    assert(after[i].available);
                }
                if some_available(after) {
                    let i = choose|i: int| 0 <= i < after.len() && (#[trigger] after[i]).available;
                    assert(before[i].available);
                }
            },
        }
    }
}

/// A profile none of whose monitors was available before its outputs were taken
/// in is never without the output of an available monitor: turning outputs off
/// and on does not fail, and the layout does not fail for want of an output name.
pub proof fn a_fitted_profile_can_be_planned(
    ms: Seq<MonitorView>,
    outs: Seq<IdentifiedView>,
    modes: Seq<Mode>,
    outputs: Seq<OutputView>,
)
    requires
        !some_available(ms),
    ensures
        plan::power_plan(arranged(ms, outs), outputs).error is None,
        plan::layout_plan(arranged(ms, outs), modes, outputs).error matches Some(e) ==> !(
        e is NoOutputName),
{
    assert(displays::well_named(ms));
    available_monitors_stay_on_outputs(ms, outs);
    plan::available_monitors_on_outputs_can_be_planned(arranged(ms, outs), modes, outputs);
}

/// Placeholders stand behind all entries of the profile, in the sequence of their
/// outputs.
pub proof fn placeholders_stand_last(ms: Seq<MonitorView>, outs: Seq<IdentifiedView>)
    ensures
        ({
            let after = assigned(ms, outs, outs.len());
            arranged(ms, outs) == ordering::in_order(after.take(ms.len() as int)) + after.skip(
                ms.len() as int,
            )
        }),
{
    entries_stay_and_placeholders_follow(ms, outs, outs.len());
    let after = assigned(ms, outs, outs.len());
    let a = after.take(ms.len() as int);
    let b = after.skip(ms.len() as int);
    assert forall|i: int| 0 <= i < b.len() implies (#[trigger] b[i]).order == u8::MAX by {
        assert(b[i] == after[i + ms.len()]);
    }
    assert(after =~= a + b);
    ordering::last_monitors_stay_last(a, b);
}

/// An output is taken in exactly where it is connected and its EDID block
/// identifies its monitor: under its own name and with what the block gives. What
/// it shows, which modes it has and how large it is does not matter.
pub proof fn connected_outputs_with_a_known_monitor_are_taken_in(o: OutputView)
    ensures
        !o.connected ==> identified()(o) is None,
        descriptors::edid_identification(o.edid) is None ==> identified()(o) is None,
        o.connected && descriptors::edid_identification(o.edid) is Some ==> {
            &&& identified()(o) is Some
            &&& identified()(o)->0.name == o.name
            &&& descriptors::edid_identification(o.edid) == Some(identified()(o)->0.id)
        },
{
}

/// An output behind the others is taken in last, under its name, where it is
/// connected and its monitor is identified, and adds nothing where it is not.
pub proof fn outputs_keep_their_sequence(outputs: Seq<OutputView>, o: OutputView)
    ensures
        Seq::<OutputView>::empty().filter_map(identified()).len() == 0,
        outputs.push(o).filter_map(identified()) == match descriptors::edid_identification(o.edid) {
            Some(id) if o.connected => outputs.filter_map(identified()).push(
                IdentifiedView { name: o.name, id },
            ),
            _ => outputs.filter_map(identified()),
        },
{
    let all = outputs.push(o);
    search::lemma_filter_map_step(all, identified(), outputs.len() as int);
    assert(all.take(outputs.len() as int) =~= outputs);
    assert(all.take(all.len() as int) =~= all);
}

/// The same outputs in other modes, on or off, give the same profile and the same
/// reports.
pub proof fn what_outputs_show_does_not_matter(
    ms: Seq<MonitorView>,
    a: Seq<OutputView>,
    b: Seq<OutputView>,
)
    requires
        a.len() == b.len(),
        forall|i: int|
            0 <= i < a.len() ==> (#[trigger] a[i]).name == b[i].name && a[i].connected
                == b[i].connected && a[i].edid == b[i].edid,
    ensures
        arranged(ms, a.filter_map(identified())) == arranged(ms, b.filter_map(identified())),
        reports(ms, a, a.len()) == reports(ms, b, b.len()),
{
    lemma_same_but_for_modes(ms, a, b, a.len());
    assert(a.take(a.len() as int) =~= a);
    assert(b.take(b.len() as int) =~= b);
}

/// The same of the first `n` outputs.
proof fn lemma_same_but_for_modes(
    ms: Seq<MonitorView>,
    a: Seq<OutputView>,
    b: Seq<OutputView>,
    n: nat,
)
    requires
        n <= a.len(),
        a.len() == b.len(),
        forall|i: int|
            0 <= i < a.len() ==> (#[trigger] a[i]).name == b[i].name && a[i].connected
                == b[i].connected && a[i].edid == b[i].edid,
    ensures
        identified_of(a, n as int) == identified_of(b, n as int),
        reports(ms, a, n) == reports(ms, b, n),
    decreases n,
{
    if n == 0 {
        assert(a.take(0) =~= b.take(0));
    } else {
        lemma_same_but_for_modes(ms, a, b, (n - 1) as nat);
        search::lemma_filter_map_step(a, identified(), n - 1);
        search::lemma_filter_map_step(b, identified(), n - 1);
        assert(a[n - 1].name == b[n - 1].name);
    }
}

/// An output whose monitor gives the serial number of an entry claims the first
/// such entry, and changes nothing else.
pub proof fn a_serial_number_claims_its_entry(ms: Seq<MonitorView>, o: IdentifiedView, i: int)
    requires
        0 <= i < ms.len(),
        o.id.sn is Some,
        ms[i].sn == o.id.sn,
        forall|j: int| 0 <= j < i ==> (#[trigger] ms[j]).sn != o.id.sn,
    ensures
        taken_in(ms, o) == ms.update(
            i,
            (MonitorView { available: true, name: Some(o.name), ..ms[i] }),
        ),
        outcome(ms, o) == OutcomeView::BySerial(o.id.sn->0),
{
    displays::the_entries_decide_the_match(ms, o.id);
    search::first_index_is_first(ms, displays::has_serial(o.id.sn->0));
    if displays::target(ms, o.id) is Entry {
        let at = displays::target(ms, o.id)->Entry_0;
        assert(at == i) by {
            if at < i {
                assert(ms[at].sn != o.id.sn);
            }
            if i < at {
                assert(ms[i].sn != o.id.sn);
            }
        }
    }
    assert(displays::has_serial(o.id.sn->0)(ms[i]));
}

/// An output whose monitor gives the serial number of no entry claims the only
/// unclaimed entry of its product, and changes nothing else.
pub proof fn the_only_one_of_a_product_is_claimed(ms: Seq<MonitorView>, o: IdentifiedView, i: int)
    requires
        o.id.sn is None || forall|j: int| 0 <= j < ms.len() ==> (#[trigger] ms[j]).sn != o.id.sn,
        o.id.product is Some,
        0 <= i < ms.len(),
        !ms[i].available,
        ms[i].product == o.id.product,
        forall|j: int|
            0 <= j < ms.len() && j != i && !(#[trigger] ms[j]).available ==> ms[j].product
                != o.id.product,
    ensures
        taken_in(ms, o) == ms.update(
            i,
            (MonitorView { available: true, name: Some(o.name), ..ms[i] }),
        ),
        outcome(ms, o) == OutcomeView::ByProduct(o.id.product->0),
{
    displays::the_entries_decide_the_match(ms, o.id);
    if o.id.sn is Some {
        search::first_index_is_first(ms, displays::has_serial(o.id.sn->0));
    }
    if displays::target(ms, o.id) is Entry {
        let at = displays::target(ms, o.id)->Entry_0;
        assert(!ms[at].available && ms[at].product == o.id.product);
        assert(at == i);
    }
}

/// An output whose monitor gives the serial number of no entry, and a product of
/// which two or more entries are unclaimed, claims none of them. It is listed
/// behind them as a placeholder, and refused for as many entries as there are.
pub proof fn two_of_a_product_are_left_unclaimed(
    ms: Seq<MonitorView>,
    o: IdentifiedView,
    i: int,
    j: int,
)
    requires
        o.id.sn is None || forall|k: int| 0 <= k < ms.len() ==> (#[trigger] ms[k]).sn != o.id.sn,
        o.id.product is Some,
        0 <= i < j < ms.len(),
        !ms[i].available,
        !ms[j].available,
        ms[i].product == o.id.product,
        ms[j].product == o.id.product,
    ensures
        taken_in(ms, o) == ms.push(
            (MonitorView {
                sn: None,
                product: None,
                available: false,
                order: u8::MAX,
                width_px: 0,
                height_px: 0,
                name: Some(o.name),
            }),
        ),
        outcome(ms, o) == OutcomeView::Refused(
            o.id,
            (MatchErrorView::Ambiguous {
                product: o.id.product->0,
                output: o.name,
                count: ms.filter(
                    |m: MonitorView| !m.available && m.product == o.id.product,
                ).len(),
            }),
        ),
{
    displays::the_entries_decide_the_match(ms, o.id);
    displays::a_serial_number_of_no_entry_settles_nothing(ms, o.id, i, j);
}

/// An output whose monitor gives neither the serial number of an entry nor the
/// product of an unclaimed one claims nothing. It is listed behind the entries as
/// a placeholder, and refused under what its monitor gives first.
pub proof fn a_stranger_claims_nothing(ms: Seq<MonitorView>, o: IdentifiedView)
    requires
        o.id.sn is None || forall|j: int| 0 <= j < ms.len() ==> (#[trigger] ms[j]).sn != o.id.sn,
        o.id.product is None || forall|j: int|
            0 <= j < ms.len() && !(#[trigger] ms[j]).available ==> ms[j].product != o.id.product,
    ensures
        taken_in(ms, o) == ms.push(
            (MonitorView {
                sn: None,
                product: None,
                available: false,
                order: u8::MAX,
                width_px: 0,
                height_px: 0,
                name: Some(o.name),
            }),
        ),
        outcome(ms, o) == OutcomeView::Refused(
            o.id,
            (MatchErrorView::Missing {
                id: match (o.id.sn, o.id.product) {
                    (Some(sn), _) => sn,
                    (None, Some(product)) => product,
                    (None, None) => "unknown"@,
                },
            }),
        ),
{
    displays::the_entries_decide_the_match(ms, o.id);
}

/// Outputs are taken in one after the other, each among the monitors that those
/// before it have left.
pub proof fn outputs_are_taken_in_one_by_one(
    ms: Seq<MonitorView>,
    outs: Seq<IdentifiedView>,
    o: IdentifiedView,
)
    ensures
        assigned(ms, seq![], 0) == ms,
        assigned(ms, outs.push(o), outs.len() + 1) == taken_in(assigned(ms, outs, outs.len()), o),
{
    lemma_assigned_prefix(ms, outs, o, outs.len());
}

/// With its outputs taken in, a profile holds the monitors that they have left,
/// from the smallest `order` to the greatest, those of one `order` as they stood.
pub proof fn a_fitted_profile_is_sorted(
    ms: Seq<MonitorView>,
    outs: Seq<IdentifiedView>,
    order: u8,
)
    ensures
        ({
            let after = assigned(ms, outs, outs.len());
            let sorted = arranged(ms, outs);
            &&& sorted.to_multiset() == after.to_multiset()
            &&& forall|i: int, j: int|
                #![trigger sorted[i], sorted[j]]
                0 <= i < j < sorted.len() ==> sorted[i].order <= sorted[j].order
            &&& sorted.filter(|m: MonitorView| m.order == order) == after.filter(
                |m: MonitorView| m.order == order,
            )
        }),
{
    ordering::sorting_goes_by_the_numbers(assigned(ms, outs, outs.len()), order);
}

/// A profile is accepted exactly where one of its monitors at least is available,
/// of whatever size; and then as it is, under its own name.
pub proof fn one_available_monitor_is_enough(
    r: Result<DisplaysConfiguration, ConfigError>,
    profile: Seq<char>,
    ms: Seq<MonitorView>,
)
    requires
        is_settled_as(r, profile, ms),
    ensures
        r is Ok <==> exists|i: int| 0 <= i < ms.len() && (#[trigger] ms[i]).available,
        r matches Ok(c) ==> c@.displays == ms && c@.profile == profile,
        r matches Err(e) ==> e@ == ConfigErrorView::NoAvailableMonitor,
{
}

/// A connected output whose monitor gives the serial number of an entry makes a
/// monitor of the profile available, whatever it shows and whichever other outputs
/// there are.
pub proof fn a_connected_monitor_of_the_profile_is_enough(
    ms: Seq<MonitorView>,
    outputs: Seq<OutputView>,
    k: int,
    i: int,
)
    requires
        0 <= k < outputs.len(),
        outputs[k].connected,
        descriptors::edid_identification(outputs[k].edid) is Some,
        descriptors::edid_identification(outputs[k].edid)->0.sn is Some,
        0 <= i < ms.len(),
        ms[i].sn == descriptors::edid_identification(outputs[k].edid)->0.sn,
    ensures
        exists|j: int|
            0 <= j < arranged(ms, outputs.filter_map(identified())).len() && (#[trigger] arranged(
                ms,
                outputs.filter_map(identified()),
            )[j]).available,
{
    let outs = outputs.filter_map(identified());
    let n = outputs.take(k).filter_map(identified()).len() as int;
    search::lemma_filter_map_step(outputs, identified(), k);
    search::lemma_filter_map_prefix(outputs, identified(), k + 1);
    assert(outs[n] == identified()(outputs[k])->0);
    let before = assigned(ms, outs, n as nat);
    entries_stay_and_placeholders_follow(ms, outs, n as nat);
    assert(same_entry(before[i], ms[i]));
    displays::the_entries_decide_the_match(before, outs[n].id);
    assert(before[i].sn == outs[n].id.sn);
    let claimed = displays::target(before, outs[n].id)->Entry_0;
    assert(assigned(ms, outs, (n + 1) as nat)[claimed].available);
    lemma_available_stays(ms, outs, (n + 1) as nat, outs.len(), claimed);
    lemma_available_survives_sorting(assigned(ms, outs, outs.len()));
    let sorted = arranged(ms, outs);
    let j = choose|j: int| 0 <= j < sorted.len() && (#[trigger] sorted[j]).available;
    assert(arranged(ms, outs)[j].available);
}

/// A monitor that is available stays so while more outputs are taken in.
proof fn lemma_available_stays(
    ms: Seq<MonitorView>,
    outs: Seq<IdentifiedView>,
    k: nat,
    n: nat,
    i: int,
)
    requires
        k <= n,
        0 <= i < assigned(ms, outs, k).len(),
        assigned(ms, outs, k)[i].available,
    ensures
        0 <= i < assigned(ms, outs, n).len(),
        assigned(ms, outs, n)[i].available,
    decreases n - k,
{
    if k < n {
        lemma_available_stays(ms, outs, k, (n - 1) as nat, i);
        lemma_target_in_range(assigned(ms, outs, (n - 1) as nat), outs[n - 1].id);
    }
}

/// Putting monitors in order leaves an available one among them.
proof fn lemma_available_survives_sorting(ms: Seq<MonitorView>)
    requires
        some_available(ms),
    ensures
        some_available(ordering::in_order(ms)),
{
    broadcast use vstd::seq_lib::group_to_multiset_ensures;

    let sorted = ordering::in_order(ms);
    ordering::in_order_keeps_the_monitors(ms);
    let j = choose|j: int| 0 <= j < ms.len() && (#[trigger] ms[j]).available;
    assert(ms.contains(ms[j]));
    assert(ms.to_multiset().count(ms[j]) > 0);
    assert(sorted.contains(ms[j]));
    let i = choose|i: int| 0 <= i < sorted.len() && sorted[i] == ms[j];
    assert(sorted[i].available);
}

/// Whatever outputs are taken in, every entry keeps what the profile says of it,
/// and all that is added is unavailable, without a size and of the last `order`.
pub proof fn entries_keep_what_the_profile_says(
    ms: Seq<MonitorView>,
    outs: Seq<IdentifiedView>,
    i: int,
)
    requires
        0 <= i < assigned(ms, outs, outs.len()).len(),
    ensures
        ({
            let m = assigned(ms, outs, outs.len())[i];
            if i < ms.len() {
                &&& m.sn == ms[i].sn
                &&& m.product == ms[i].product
                &&& m.order == ms[i].order
                &&& m.width_px == ms[i].width_px
                &&& m.height_px == ms[i].height_px
                &&& ms[i].available ==> m.available
            } else {
                &&& m.sn is None
                &&& m.product is None
                &&& !m.available
                &&& m.order == u8::MAX
                &&& m.width_px == 0
                &&& m.height_px == 0
                &&& exists|k: int|
                    0 <= k < outs.len() && m.name == Some((#[trigger] outs[k]).name)
            }
        }),
        ms.len() <= assigned(ms, outs, outs.len()).len(),
{
    entries_stay_and_placeholders_follow(ms, outs, outs.len());
    let after = assigned(ms, outs, outs.len());
    if i < ms.len() {
        assert(same_entry(after[i], ms[i]));
        if ms[i].available {
            lemma_available_stays(ms, outs, 0, outs.len(), i);
        }
    } else {
        let k = choose|k: int|
            0 <= k < outs.len() && after[i] == MonitorView::placeholder((#[trigger] outs[k]).name);
        assert(after[i].name == Some(outs[k].name));
    }
}

/// One more output adds a report where it is connected, and none where it is not:
/// its own name, and that it was skipped exactly where nothing identifies its
/// monitor, or else what becomes of it among the monitors as they are by then.
pub proof fn every_connected_output_adds_its_report(
    ms: Seq<MonitorView>,
    outputs: Seq<OutputView>,
    o: OutputView,
)
    ensures
        reports(ms, seq![], 0).len() == 0,
        reports(ms, outputs.push(o), outputs.len() + 1) == if !o.connected {
            reports(ms, outputs, outputs.len())
        } else {
            reports(ms, outputs, outputs.len()).push(
                (MatchReportView {
                    output: o.name,
                    outcome: match descriptors::edid_identification(o.edid) {
                        None => OutcomeView::Skipped,
                        Some(id) => outcome(
                            assigned(
                                ms,
                                outputs.filter_map(identified()),
                                outputs.filter_map(identified()).len(),
                            ),
                            (IdentifiedView { name: o.name, id }),
                        ),
                    },
                }),
            )
        },
{
    let all = outputs.push(o);
    lemma_reports_prefix(ms, outputs, o, outputs.len());
    assert(all.take(outputs.len() as int) =~= outputs);
}

/// The reports on the first outputs do not depend on those behind them.
proof fn lemma_reports_prefix(
    ms: Seq<MonitorView>,
    outputs: Seq<OutputView>,
    o: OutputView,
    n: nat,
)
    requires
        n <= outputs.len(),
    ensures
        reports(ms, outputs.push(o), n) == reports(ms, outputs, n),
    decreases n,
{
    if n > 0 {
        lemma_reports_prefix(ms, outputs, o, (n - 1) as nat);
        assert(outputs.push(o).take(n - 1) =~= outputs.take(n - 1));
    }
}

} // verus!
