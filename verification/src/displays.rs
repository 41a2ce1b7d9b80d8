//! A profile's monitors: which entry an attached monitor is, in which order
//! they stand, and the `xrandr` arguments that lay them out.

use vstd::prelude::*;
use vstd::string::StringExecFns;

use crate::descriptors::{SearchDescriptors, SearchView};
use crate::monitor::{MonitorDefinition, MonitorView};
#[allow(unused_imports)]
use crate::ordering;
use crate::ordering::sort_monitors;
#[allow(unused_imports)]
use crate::search;
#[allow(unused_imports)]
use crate::text;
use crate::text::{join_texts, push_decimal};

verus! {

/// The monitors of one profile.
#[derive(Clone, Debug)]
pub struct DisplaysConfiguration {
    pub displays: Vec<MonitorDefinition>,
    pub profile: String,
}

/// The contents of a [`DisplaysConfiguration`].
pub struct DisplaysView {
    pub displays: Seq<MonitorView>,
    pub profile: Seq<char>,
}

impl View for DisplaysConfiguration {
    type V = DisplaysView;

    open spec fn view(&self) -> DisplaysView {
        DisplaysView { displays: self.displays.deep_view(), profile: self.profile@ }
    }
}

impl DeepView for DisplaysConfiguration {
    type V = DisplaysView;

    open spec fn deep_view(&self) -> DisplaysView {
        self@
    }
}

/// Whether a monitor has the given serial number.
pub open spec fn has_serial(sn: Seq<char>) -> spec_fn(MonitorView) -> bool {
    |m: MonitorView| m.sn == Some(sn)
}

/// Whether a monitor is of the given product and no output has claimed it yet.
pub open spec fn unclaimed_product(product: Seq<char>) -> spec_fn(MonitorView) -> bool {
    |m: MonitorView| !m.available && m.product == Some(product)
}

/// Which of a profile's monitors an attached one is.
pub enum Target {
    /// The monitor at this index.
    Entry(int),
    /// One of this many, with nothing to choose by.
    Ambiguous(nat),
    /// None of them.
    Missing,
}

/// The first monitor with the serial number that `d` gives, if it gives one.
pub open spec fn serial_target(ms: Seq<MonitorView>, d: SearchView) -> Option<int> {
    match d.sn {
        Some(sn) => search::first_index(ms, has_serial(sn)),
        None => None,
    }
}

/// The monitor of `ms` that `d` identifies: the first with its serial number;
/// failing that the only unclaimed one of its product.
pub open spec fn target(ms: Seq<MonitorView>, d: SearchView) -> Target {
    match serial_target(ms, d) {
        Some(i) => Target::Entry(i),
        None => match d.product {
            None => Target::Missing,
            Some(product) => {
                let n = ms.filter(unclaimed_product(product)).len();
                if n > 1 {
                    Target::Ambiguous(n)
                } else {
                    match search::first_index(ms, unclaimed_product(product)) {
                        Some(i) => Target::Entry(i),
                        None => Target::Missing,
                    }
                }
            },
        },
    }
}

/// What names an attached monitor in messages.
pub open spec fn search_id(d: SearchView) -> Seq<char> {
    match d.sn {
        Some(sn) => sn,
        None => match d.product {
            Some(product) => product,
            None => "unknown"@,
        },
    }
}

/// Why an attached monitor is none of a profile's monitors.
#[derive(Clone, Debug)]
pub enum MatchError {
    /// `count` monitors are of the product, and nothing tells them apart.
    Ambiguous { product: String, output: String, count: usize },
    /// No monitor answers to `id`.
    Missing { id: String },
}

/// The contents of a [`MatchError`].
pub enum MatchErrorView {
    Ambiguous { product: Seq<char>, output: Seq<char>, count: nat },
    Missing { id: Seq<char> },
}

impl View for MatchError {
    type V = MatchErrorView;

    open spec fn view(&self) -> MatchErrorView {
        match *self {
            MatchError::Ambiguous { product, output, count } => MatchErrorView::Ambiguous {
                product: product@,
                output: output@,
                count: count as nat,
            },
            MatchError::Missing { id } => MatchErrorView::Missing { id: id@ },
        }
    }
}

impl MatchErrorView {
    /// The message that tells the user.
    pub open spec fn message(self) -> Seq<char> {
        match self {
            MatchErrorView::Ambiguous { product, output, count } => "Ambiguous product match '"@
                + product + "' for output "@ + output + ": "@ + text::decimal(count)
                + " config entries match. Use serial numbers instead."@,
            MatchErrorView::Missing { id } => "no config match for "@ + id,
        }
    }
}

impl MatchError {
    /// The message that tells the user.
    pub fn message(&self) -> (r: String)
        ensures
            r@ == self@.message(),
    {
        let mut out = String::new();
        match self {
            MatchError::Ambiguous { product, output, count } => {
                out.append("Ambiguous product match '");
                out.append(product.as_str());
                out.append("' for output ");
                out.append(output.as_str());
                out.append(": ");
                push_decimal(&mut out, *count as u64);
                out.append(" config entries match. Use serial numbers instead.");
            },
            MatchError::Missing { id } => {
                out.append("no config match for ");
                out.append(id.as_str());
            },
        }
        out
    }
}

/// The width of the first `n` monitors side by side; one that is not enabled
/// takes none.
pub open spec fn width_of(ms: Seq<MonitorView>, n: nat) -> nat
    decreases n,
{
    if n == 0 {
        0
    } else {
        width_of(ms, (n - 1) as nat) + ms[n - 1].own_width()
    }
}

/// The `xrandr` arguments of each monitor, each to the right of those before it.
pub open spec fn fragments(ms: Seq<MonitorView>) -> Seq<Seq<char>> {
    Seq::new(ms.len(), |i: int| ms[i].fragment(ms[i].enabled(), width_of(ms, i as nat), 0))
}

/// More monitors are at least as wide.
proof fn lemma_width_grows(ms: Seq<MonitorView>, i: nat, n: nat)
    requires
        i <= n <= ms.len(),
    ensures
        width_of(ms, i) <= width_of(ms, n),
    decreases n - i,
{
    if i < n {
        lemma_width_grows(ms, i, (n - 1) as nat);
    }
}

impl DisplaysConfiguration {
    /// A profile without monitors and without a name.
    pub fn new() -> (r: Self)
        ensures
            r@ == (DisplaysView { displays: seq![], profile: seq![] }),
    {
        let r = DisplaysConfiguration { displays: Vec::new(), profile: String::new() };
        assert(r@.displays =~= seq![]);
        r
    }

    /// Adds a monitor behind the others.
    pub fn add(&mut self, monitor: MonitorDefinition)
        ensures
            final(self)@ == (DisplaysView {
                displays: old(self)@.displays.push(monitor@),
                profile: old(self)@.profile,
            }),
    {
        self.displays.push(monitor);
        assert(self@.displays =~= old(self)@.displays.push(monitor@));
    }

    /// The index of the first monitor with the given serial number.
    pub(crate) fn find_serial(&self, sn: &String) -> (r: Option<usize>)
        ensures
            match r {
                Some(i) => search::first_index(self@.displays, has_serial(sn@)) == Some(i as int),
                None => search::first_index(self@.displays, has_serial(sn@)) is None,
            },
    {
        let ghost ms = self@.displays;
        let ghost p = has_serial(sn@);
        let mut i: usize = 0;
        while i < self.displays.len()
            invariant
                i <= self.displays.len(),
                ms == self@.displays,
                p == has_serial(sn@),
                forall|j: int| 0 <= j < i ==> !p(#[trigger] ms[j]),
            decreases self.displays.len() - i,
        {
            assert(ms[i as int] == self.displays[i as int]@);
            if let Some(s) = &self.displays[i].sn {
                if *s == *sn {
                    proof {
                        search::lemma_first_index_found(ms, p, i as int);
                    }
                    return Some(i);
                }
            }
            i += 1;
        }
        proof {
            search::lemma_first_index_absent(ms, p);
        }
        None
    }

    /// How many monitors are of the given product and unclaimed, and the index
    /// of the first of them.
    fn find_product(&self, product: &String) -> (r: (usize, Option<usize>))
        ensures
            r.0 == self@.displays.filter(unclaimed_product(product@)).len(),
            match r.1 {
                Some(i) => search::first_index(self@.displays, unclaimed_product(product@)) == Some(
                    i as int,
                ),
                None => search::first_index(self@.displays, unclaimed_product(product@)) is None,
            },
    {
        let ghost ms = self@.displays;
        let ghost p = unclaimed_product(product@);
        let mut count: usize = 0;
        let mut first: Option<usize> = None;
        let mut i: usize = 0;
        proof {
            reveal(Seq::filter);
            assert(ms.take(0).filter(p).len() == 0);
        }
        while i < self.displays.len()
            invariant
                i <= self.displays.len(),
                count <= i,
                ms == self@.displays,
                p == unclaimed_product(product@),
                count == ms.take(i as int).filter(p).len(),
                match first {
                    Some(k) => k < i && p(ms[k as int]) && forall|j: int|
                        0 <= j < k ==> !p(#[trigger] ms[j]),
                    None => forall|j: int| 0 <= j < i ==> !p(#[trigger] ms[j]),
                },
            decreases self.displays.len() - i,
        {
            let ghost m = ms[i as int];
            assert(m == self.displays[i as int]@);
            proof {
                assert(ms.take(i + 1) =~= ms.take(i as int).push(m));
                ms.take(i as int).lemma_filter_len_push(p, m);
            }
            let mut hit = false;
            if !self.displays[i].available {
                if let Some(s) = &self.displays[i].product {
                    hit = *s == *product;
                }
            }
            assert(hit == p(m));
            if hit {
                count += 1;
                if first.is_none() {
                    first = Some(i);
                }
            }
            i += 1;
        }
        proof {
            assert(ms.take(i as int) =~= ms);
            match first {
                Some(k) => search::lemma_first_index_found(ms, p, k as int),
                None => search::lemma_first_index_absent(ms, p),
            }
        }
        (count, first)
    }

    /// Records that the output called `output_name` is the monitor at `i`.
    fn claim(&mut self, i: usize, output_name: &str)
        requires
            i < old(self)@.displays.len(),
        ensures
            final(self)@ == (DisplaysView {
                displays: old(self)@.displays.update(
                    i as int,
                    old(self)@.displays[i as int].claimed_by(output_name@),
                ),
                profile: old(self)@.profile,
            }),
    {
        self.displays[i].name = Some(output_name.to_owned());
        self.displays[i].available = true;
        assert(self@.displays =~= old(self)@.displays.update(
            i as int,
            old(self)@.displays[i as int].claimed_by(output_name@),
        ));
    }

    /// Records that the output called `output_name`, whose monitor `desc`
    /// identifies, is the monitor of this profile with that serial number, or
    /// else the only unclaimed one of that product. Where there is none, or
    /// more than one of the product, nothing changes.
    pub fn update_from_descriptors(
        &mut self,
        desc: &SearchDescriptors,
        output_name: &str,
    ) -> (r: Result<(), MatchError>)
        ensures
            match target(old(self)@.displays, desc@) {
                Target::Entry(i) => {
                    &&& r is Ok
                    &&& 0 <= i < old(self)@.displays.len()
                    &&& final(self)@.displays == old(self)@.displays.update(
                        i,
                        old(self)@.displays[i].claimed_by(output_name@),
                    )
                },
                Target::Ambiguous(n) => {
                    &&& r matches Err(e)
                    &&& e@ == MatchErrorView::Ambiguous {
                        product: desc@.product->0,
                        output: output_name@,
                        count: n,
                    }
                    &&& final(self)@.displays == old(self)@.displays
                },
                Target::Missing => {
                    &&& r matches Err(e)
                    &&& e@ == MatchErrorView::Missing { id: search_id(desc@) }
                    &&& final(self)@.displays == old(self)@.displays
                },
            },
            final(self)@.profile == old(self)@.profile,
    {
        let ghost ms = self@.displays;
        if let Some(sn) = &desc.sn {
            if let Some(i) = self.find_serial(sn) {
                proof {
                    search::first_index_is_first(ms, has_serial(sn@));
                }
                self.claim(i, output_name);
                return Ok(());
            }
        }
        if let Some(product) = &desc.product {
            let (count, first) = self.find_product(product);
            if count > 1 {
                return Err(
                    MatchError::Ambiguous {
                        product: product.clone(),
                        output: output_name.to_owned(),
                        count,
                    },
                );
            }
            if let Some(i) = first {
                proof {
                    search::first_index_is_first(ms, unclaimed_product(product@));
                }
                self.claim(i, output_name);
                return Ok(());
            }
        }
        let id = match &desc.sn {
            Some(sn) => sn.clone(),
            None => match &desc.product {
                Some(product) => product.clone(),
                None => "unknown".to_owned(),
            },
        };
        Err(MatchError::Missing { id })
    }

    /// Puts the monitors in order; those of one `order` keep their sequence.
    pub fn sort_by_order(&mut self)
        ensures
            final(self)@ == (DisplaysView {
                displays: ordering::in_order(old(self)@.displays),
                profile: old(self)@.profile,
            }),
    {
        sort_monitors(&mut self.displays);
    }

    /// The width of all enabled monitors side by side, or `None` where it exceeds what
    /// a `usize` holds.
    pub fn total_width(&self) -> (r: Option<usize>)
        ensures
            match r {
                Some(w) => w == width_of(self@.displays, self@.displays.len()),
                None => width_of(self@.displays, self@.displays.len()) > usize::MAX,
            },
    {
        let ghost ms = self@.displays;
        let mut total: usize = 0;
        let mut i: usize = 0;
        while i < self.displays.len()
            invariant
                i <= self.displays.len(),
                ms == self@.displays,
                total == width_of(ms, i as nat),
            decreases self.displays.len() - i,
        {
            assert(ms[i as int] == self.displays[i as int]@);
            proof {
                lemma_width_grows(ms, (i + 1) as nat, ms.len());
            }
            let m = &self.displays[i];
            if m.is_enabled() {
                match total.checked_add(m.width_px) {
                    Some(t) => total = t,
                    None => return None,
                }
            }
            i += 1;
        }
        Some(total)
    }

    /// The `xrandr` arguments that lay the monitors out from left to right.
    pub fn xrandr(&self) -> (r: String)
        requires
            width_of(self@.displays, self@.displays.len()) <= usize::MAX,
        ensures
            r@ == text::join(fragments(self@.displays), " "@),
    {
        let ghost ms = self@.displays;
        let mut parts: Vec<String> = Vec::new();
        let mut offset_x: usize = 0;
        let mut i: usize = 0;
        while i < self.displays.len()
            invariant
                i <= self.displays.len(),
                ms == self@.displays,
                width_of(ms, ms.len()) <= usize::MAX,
                offset_x == width_of(ms, i as nat),
                parts.deep_view() == fragments(ms).take(i as int),
            decreases self.displays.len() - i,
        {
            let m = &self.displays[i];
            assert(ms[i as int] == m@);
            let enable = m.is_enabled();
            proof {
                lemma_width_grows(ms, (i + 1) as nat, ms.len());
            }
            let ghost before = parts.deep_view();
            let part = m.xrand(enable, offset_x, 0);
            parts.push(part);
            assert(parts.deep_view() =~= before.push(part@));
            assert(parts.deep_view() =~= fragments(ms).take(i + 1));
            if enable {
                offset_x += m.width_px;
            }
            i += 1;
        }
        assert(fragments(ms).take(i as int) =~= fragments(ms));
        join_texts(&parts, " ")
    }
}

/// Whether every available monitor is on an output.
pub open spec fn well_named(ms: Seq<MonitorView>) -> bool {
    forall|i: int| 0 <= i < ms.len() && (#[trigger] ms[i]).available ==> ms[i].name is Some
}

/// A serial number that a monitor has decides the match, whatever the product
/// is: the match is the first monitor with it, also where it was claimed before.
pub proof fn a_serial_number_decides(
    ms: Seq<MonitorView>,
    sn: Seq<char>,
    product: Option<Seq<char>>,
    i: int,
)
    requires
        0 <= i < ms.len(),
        ms[i].sn == Some(sn),
        forall|j: int| 0 <= j < i ==> (#[trigger] ms[j]).sn != Some(sn),
    ensures
        target(ms, SearchView { sn: Some(sn), product }) == Target::Entry(i),
{
    search::lemma_first_index_found(ms, has_serial(sn), i);
}

/// A match by product is the only unclaimed monitor of that product.
pub proof fn a_product_match_is_the_only_one(ms: Seq<MonitorView>, d: SearchView, i: int)
    requires
        serial_target(ms, d) is None,
        target(ms, d) == Target::Entry(i),
    ensures
        0 <= i < ms.len(),
        d.product is Some,
        unclaimed_product(d.product->0)(ms[i]),
        forall|j: int|
            0 <= j < ms.len() && j != i ==> !unclaimed_product(d.product->0)(#[trigger] ms[j]),
{
    let p = unclaimed_product(d.product->0);
    search::first_index_is_first(ms, p);
    assert forall|j: int| 0 <= j < ms.len() && j != i implies !p(#[trigger] ms[j]) by {
        if p(ms[j]) {
            lemma_two_pass(ms, p, i, j);
        }
    }
}

/// A monitor that no serial number settles is ambiguous exactly where two
/// unclaimed monitors are of its product.
pub proof fn two_of_a_product_are_ambiguous(ms: Seq<MonitorView>, d: SearchView)
    requires
        serial_target(ms, d) is None,
        d.product is Some,
    ensures
        target(ms, d) is Ambiguous <==> exists|i: int, j: int|
            0 <= i < j < ms.len() && unclaimed_product(d.product->0)(#[trigger] ms[i])
                && unclaimed_product(d.product->0)(#[trigger] ms[j]),
{
    let p = unclaimed_product(d.product->0);
    if target(ms, d) is Ambiguous {
        lemma_two_passed(ms, p);
    }
    if exists|i: int, j: int|
        0 <= i < j < ms.len() && p(#[trigger] ms[i]) && p(#[trigger] ms[j]) {
        let (i, j) = choose|i: int, j: int|
            0 <= i < j < ms.len() && p(#[trigger] ms[i]) && p(#[trigger] ms[j]);
        lemma_two_pass(ms, p, i, j);
    }
}

/// A monitor is missing exactly where no monitor has its serial number and
/// none that is unclaimed is of its product.
pub proof fn missing_means_no_candidate(ms: Seq<MonitorView>, d: SearchView)
    ensures
        target(ms, d) is Missing <==> forall|i: int|
            0 <= i < ms.len() ==> !(d.sn is Some && (#[trigger] ms[i]).sn == d.sn) && !(
            d.product is Some && !ms[i].available && ms[i].product == d.product),
{
    if d.sn is Some {
        search::first_index_is_first(ms, has_serial(d.sn->0));
    }
    if d.product is Some {
        let p = unclaimed_product(d.product->0);
        search::first_index_is_first(ms, p);
        if ms.filter(p).len() > 1 {
            lemma_two_passed(ms, p);
        }
    }
    if target(ms, d) is Missing {
        assert forall|i: int| 0 <= i < ms.len() implies !(d.sn is Some && (#[trigger] ms[i]).sn
            == d.sn) && !(d.product is Some && !ms[i].available && ms[i].product == d.product) by {
            if d.sn is Some {
                assert(!has_serial(d.sn->0)(ms[i]));
            }
            if d.product is Some {
                assert(!unclaimed_product(d.product->0)(ms[i]));
            }
        }
    }
}

/// Two elements that pass a filter make it keep more than one.
proof fn lemma_two_pass(ms: Seq<MonitorView>, p: spec_fn(MonitorView) -> bool, i: int, j: int)
    requires
        0 <= i < ms.len(),
        0 <= j < ms.len(),
        i != j,
        p(ms[i]),
        p(ms[j]),
    ensures
        ms.filter(p).len() > 1,
    decreases ms.len(),
{
    reveal(Seq::filter);
    let init = ms.drop_last();
    let last = ms.len() - 1;
    if i == last {
        lemma_one_passes(init, p, j);
    } else if j == last {
        lemma_one_passes(init, p, i);
    } else {
        lemma_two_pass(init, p, i, j);
    }
}

/// An element that passes a filter makes it keep at least one.
proof fn lemma_one_passes(ms: Seq<MonitorView>, p: spec_fn(MonitorView) -> bool, i: int)
    requires
        0 <= i < ms.len(),
        p(ms[i]),
    ensures
        ms.filter(p).len() > 0,
    decreases ms.len(),
{
    reveal(Seq::filter);
    if i < ms.len() - 1 {
        lemma_one_passes(ms.drop_last(), p, i);
    }
}

/// A filter that keeps something was passed by an element.
proof fn lemma_one_passed(ms: Seq<MonitorView>, p: spec_fn(MonitorView) -> bool)
    requires
        ms.filter(p).len() > 0,
    ensures
        exists|i: int| 0 <= i < ms.len() && p(#[trigger] ms[i]),
    decreases ms.len(),
{
    reveal(Seq::filter);
    let init = ms.drop_last();
    if p(ms.last()) {
        assert(p(ms[ms.len() - 1]));
    } else {
        lemma_one_passed(init, p);
        let i = choose|i: int| 0 <= i < init.len() && p(#[trigger] init[i]);
        assert(p(ms[i]));
    }
}

/// A filter that keeps more than one was passed by two elements.
proof fn lemma_two_passed(ms: Seq<MonitorView>, p: spec_fn(MonitorView) -> bool)
    requires
        ms.filter(p).len() > 1,
    ensures
        exists|i: int, j: int|
            0 <= i < j < ms.len() && p(#[trigger] ms[i]) && p(#[trigger] ms[j]),
    decreases ms.len(),
{
    reveal(Seq::filter);
    let init = ms.drop_last();
    if p(ms.last()) {
        lemma_one_passed(init, p);
        let i = choose|i: int| 0 <= i < init.len() && p(#[trigger] init[i]);
        assert(p(ms[i]) && p(ms[ms.len() - 1]));
    } else {
        lemma_two_passed(init, p);
        let (i, j) = choose|i: int, j: int|
            0 <= i < j < init.len() && p(#[trigger] init[i]) && p(#[trigger] init[j]);
        assert(p(ms[i]) && p(ms[j]));
    }
}

/// A disabled monitor, put anywhere among the others, shifts none of them:
/// it adds its own arguments and leaves those of the others as they were.
pub proof fn a_disabled_monitor_shifts_nothing(ms: Seq<MonitorView>, k: int, m: MonitorView)
    requires
        0 <= k <= ms.len(),
        !m.enabled(),
    ensures
        fragments(ms.insert(k, m)) == fragments(ms).insert(
            k,
            m.fragment(false, width_of(ms, k as nat), 0),
        ),
{
    let wider = ms.insert(k, m);
    let expected = fragments(ms).insert(k, m.fragment(false, width_of(ms, k as nat), 0));
    assert forall|i: int| 0 <= i < wider.len() implies fragments(wider)[i] == expected[i] by {
        lemma_width_without(ms, k, m, i as nat);
    }
    assert(fragments(wider) =~= expected);
}

/// The width left of each monitor, with a disabled one put among them.
proof fn lemma_width_without(ms: Seq<MonitorView>, k: int, m: MonitorView, n: nat)
    requires
        0 <= k <= ms.len(),
        !m.enabled(),
        n <= ms.len() + 1,
    ensures
        width_of(ms.insert(k, m), n) == if n <= k {
            width_of(ms, n)
        } else {
            width_of(ms, (n - 1) as nat)
        },
    decreases n,
{
    if n > 0 {
        lemma_width_without(ms, k, m, (n - 1) as nat);
    }
}

/// A monitor added behind the others begins where they end, takes its width only
/// where it is enabled, and leaves their arguments as they were.
pub proof fn a_monitor_is_added_at_the_right_end(ms: Seq<MonitorView>, m: MonitorView)
    ensures
        fragments(ms.push(m)) == fragments(ms).push(
            m.fragment(m.enabled(), width_of(ms, ms.len()), 0),
        ),
        width_of(ms.push(m), ms.len() + 1) == width_of(ms, ms.len()) + m.own_width(),
{
    let wider = ms.push(m);
    assert forall|i: int| 0 <= i < wider.len() implies #[trigger] fragments(wider)[i] == fragments(
        ms,
    ).push(m.fragment(m.enabled(), width_of(ms, ms.len()), 0))[i] by {
        lemma_width_of_prefix(ms, m, i as nat);
    }
    assert(fragments(wider) =~= fragments(ms).push(
        m.fragment(m.enabled(), width_of(ms, ms.len()), 0),
    ));
    lemma_width_of_prefix(ms, m, ms.len());
}

/// The width of the first monitors does not depend on those behind them.
proof fn lemma_width_of_prefix(ms: Seq<MonitorView>, m: MonitorView, n: nat)
    requires
        n <= ms.len(),
    ensures
        width_of(ms.push(m), n) == width_of(ms, n),
    decreases n,
{
    if n > 0 {
        lemma_width_of_prefix(ms, m, (n - 1) as nat);
    }
}

/// Every monitor that is on an output appears, at its own place and under the
/// name of that output.
pub proof fn every_monitor_on_an_output_appears(ms: Seq<MonitorView>, i: int)
    requires
        0 <= i < ms.len(),
        ms[i].name is Some,
    ensures
        fragments(ms).len() == ms.len(),
        ("--output "@ + ms[i].name->0).is_prefix_of(fragments(ms)[i]),
{
    let head = "--output "@ + ms[i].name->0;
    assert(fragments(ms)[i].take(head.len() as int) =~= head);
}

/// What the entries themselves say decides which of them a monitor is. It is the
/// first entry with its serial number. Where no entry has that, it is the only
/// unclaimed entry of its product: of two or more none is picked, and all of them
/// are counted. Otherwise it is none of them.
pub proof fn the_entries_decide_the_match(ms: Seq<MonitorView>, d: SearchView)
    ensures
        ({
            let by_serial = d.sn is Some && exists|j: int|
                0 <= j < ms.len() && (#[trigger] ms[j]).sn == d.sn;
            match target(ms, d) {
                Target::Entry(i) => {
                    &&& 0 <= i < ms.len()
                    &&& by_serial ==> ms[i].sn == d.sn && forall|j: int|
                        0 <= j < i ==> (#[trigger] ms[j]).sn != d.sn
                    &&& !by_serial ==> d.product is Some && !ms[i].available && ms[i].product
                        == d.product && forall|j: int|
                        0 <= j < ms.len() && j != i && !(#[trigger] ms[j]).available
                            ==> ms[j].product != d.product
                },
                Target::Ambiguous(n) => {
                    &&& !by_serial
                    &&& d.product is Some
                    &&& exists|i: int, j: int|
                        0 <= i < j < ms.len() && !(#[trigger] ms[i]).available && !(
                        #[trigger] ms[j]).available && ms[i].product == d.product && ms[j].product
                            == d.product
                    &&& n == ms.filter(
                        |m: MonitorView| !m.available && m.product == d.product,
                    ).len()
                },
                Target::Missing => {
                    &&& !by_serial
                    &&& d.product is None || forall|j: int|
                        0 <= j < ms.len() && !(#[trigger] ms[j]).available ==> ms[j].product
                            != d.product
                },
            }
        }),
{
    if let Some(sn) = d.sn {
        search::first_index_is_first(ms, has_serial(sn));
        if let Some(i) = search::first_index(ms, has_serial(sn)) {
            assert(ms[i].sn == d.sn);
            assert forall|j: int| 0 <= j < i implies (#[trigger] ms[j]).sn != d.sn by {
                assert(!has_serial(sn)(ms[j]));
            }
        } else {
            assert forall|j: int| 0 <= j < ms.len() implies (#[trigger] ms[j]).sn != d.sn by {
                assert(!has_serial(sn)(ms[j]));
            }
        }
    }
    if let Some(product) = d.product {
        let p = unclaimed_product(product);
        assert(p =~= (|m: MonitorView| !m.available && m.product == d.product));
        search::first_index_is_first(ms, p);
        if ms.filter(p).len() > 1 {
            lemma_two_passed(ms, p);
        }
        match target(ms, d) {
            Target::Entry(i) => {
                assert forall|j: int|
                    0 <= j < ms.len() && j != i && !(#[trigger] ms[j]).available && !(d.sn is Some
                        && exists|k: int|
                        0 <= k < ms.len() && (#[trigger] ms[k]).sn == d.sn) implies ms[j].product
                    != d.product by {
                    if p(ms[j]) {
                        lemma_two_pass(ms, p, i, j);
                    }
                }
            },
            Target::Missing => {
                assert forall|j: int|
                    0 <= j < ms.len() && !(#[trigger] ms[j]).available implies ms[j].product
                    != d.product by {
                    assert(!p(ms[j]));
                }
            },
            _ => {},
        }
    }
}

/// Two unclaimed entries of a monitor's product leave it without a match, unless an
/// entry has its serial number; whether it gives a serial number does not matter.
pub proof fn a_serial_number_of_no_entry_settles_nothing(
    ms: Seq<MonitorView>,
    d: SearchView,
    i: int,
    j: int,
)
    requires
        d.product is Some,
        d.sn is None || forall|k: int| 0 <= k < ms.len() ==> (#[trigger] ms[k]).sn != d.sn,
        0 <= i < ms.len(),
        0 <= j < ms.len(),
        i != j,
        !ms[i].available,
        !ms[j].available,
        ms[i].product == d.product,
        ms[j].product == d.product,
    ensures
        target(ms, d) is Ambiguous,
        target(ms, d) == target(ms, SearchView { sn: None, product: d.product }),
{
    the_entries_decide_the_match(ms, d);
    the_entries_decide_the_match(ms, SearchView { sn: None, product: d.product });
}

/// A monitor that nothing matches is called by its serial number; where it gives
/// none by its product, and where it gives neither it is unknown.
pub proof fn a_monitor_is_called_by_what_it_gives(d: SearchView)
    ensures
        d.sn matches Some(sn) ==> search_id(d) == sn,
        d.sn is None ==> (d.product matches Some(product) ==> search_id(d) == product),
        d.sn is None && d.product is None ==> search_id(d) == "unknown"@,
{
}

/// The message on an ambiguous match names the product, the output and how many
/// entries match; that on a missing one names the monitor.
pub proof fn a_refusal_says_what_was_refused(
    product: Seq<char>,
    output: Seq<char>,
    count: nat,
    id: Seq<char>,
)
    ensures
        (MatchErrorView::Ambiguous { product, output, count }).message()
            == "Ambiguous product match '"@ + product + "' for output "@ + output + ": "@
            + text::decimal(count) + " config entries match. Use serial numbers instead."@,
        (MatchErrorView::Missing { id }).message() == "no config match for "@ + id,
{
}

/// The monitors stand side by side from the left edge on, in one row at the top:
/// each begins where those before it end, and only one with two sides takes any
/// width. `xs` are the places at which they begin, and at which the last one ends.
pub proof fn monitors_stand_side_by_side(ms: Seq<MonitorView>, xs: Seq<nat>)
    requires
        xs.len() == ms.len() + 1,
        xs[0] == 0,
        forall|i: int|
            0 <= i < ms.len() ==> #[trigger] xs[i + 1] == xs[i] + if ms[i].width_px != 0
                && ms[i].height_px != 0 {
                ms[i].width_px as int
            } else {
                0
            },
    ensures
        width_of(ms, ms.len()) == xs.last(),
        fragments(ms).len() == ms.len(),
        forall|i: int|
            0 <= i < ms.len() ==> #[trigger] fragments(ms)[i] == match ms[i].name {
                None => Seq::<char>::empty(),
                Some(name) => if ms[i].width_px != 0 && ms[i].height_px != 0 {
                    "--output "@ + name + " --mode "@ + text::decimal(ms[i].width_px as nat) + "x"@
                        + text::decimal(ms[i].height_px as nat) + " --pos "@ + text::decimal(xs[i])
                        + "x"@ + text::decimal(0)
                } else {
                    "--output "@ + name + " --off"@
                },
            },
{
    assert forall|i: int| 0 <= i <= ms.len() implies width_of(ms, i as nat) == #[trigger] xs[i] by {
        lemma_places(ms, xs, i as nat);
    }
    assert forall|i: int| 0 <= i < ms.len() implies #[trigger] fragments(ms)[i] == match ms[i].name {
        None => Seq::<char>::empty(),
        Some(name) => if ms[i].width_px != 0 && ms[i].height_px != 0 {
            "--output "@ + name + " --mode "@ + text::decimal(ms[i].width_px as nat) + "x"@
                + text::decimal(ms[i].height_px as nat) + " --pos "@ + text::decimal(xs[i]) + "x"@
                + text::decimal(0)
        } else {
            "--output "@ + name + " --off"@
        },
    } by {
        assert(width_of(ms, i as nat) == xs[i]);
    }
}

/// The width of the first monitors is the place at which the next one begins.
proof fn lemma_places(ms: Seq<MonitorView>, xs: Seq<nat>, n: nat)
    requires
        n <= ms.len(),
        xs.len() == ms.len() + 1,
        xs[0] == 0,
        forall|i: int|
            0 <= i < ms.len() ==> #[trigger] xs[i + 1] == xs[i] + if ms[i].width_px != 0
                && ms[i].height_px != 0 {
                ms[i].width_px as int
            } else {
                0
            },
    ensures
        width_of(ms, n) == xs[n as int],
    decreases n,
{
    if n > 0 {
        lemma_places(ms, xs, (n - 1) as nat);
        assert(xs[(n - 1) + 1] == xs[n as int]);
    }
}

} // verus!
