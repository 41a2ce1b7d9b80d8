//! One monitor of a profile: what identifies it, where it goes, and the
//! `xrandr` fragment that puts it there.

use std::cmp::Ordering;
use vstd::prelude::*;
use vstd::string::StringExecFns;

#[allow(unused_imports)]
use crate::text;
use crate::text::{push_decimal, same_text};

verus! {

/// A monitor as a profile describes it. `available` and `name` are filled in
/// when an attached output is recognised as this monitor.
#[derive(Clone, Debug)]
pub struct MonitorDefinition {
    pub sn: Option<String>,
    pub product: Option<String>,
    pub available: bool,
    pub order: u8,
    pub width_px: usize,
    pub height_px: usize,
    pub name: Option<String>,
}

/// The contents of a [`MonitorDefinition`].
pub struct MonitorView {
    pub sn: Option<Seq<char>>,
    pub product: Option<Seq<char>>,
    pub available: bool,
    pub order: u8,
    pub width_px: usize,
    pub height_px: usize,
    pub name: Option<Seq<char>>,
}

impl View for MonitorDefinition {
    type V = MonitorView;

    open spec fn view(&self) -> MonitorView {
        MonitorView {
            sn: self.sn.deep_view(),
            product: self.product.deep_view(),
            available: self.available,
            order: self.order,
            width_px: self.width_px,
            height_px: self.height_px,
            name: self.name.deep_view(),
        }
    }
}

impl DeepView for MonitorDefinition {
    type V = MonitorView;

    open spec fn deep_view(&self) -> MonitorView {
        self@
    }
}

impl MonitorView {
    /// The placeholder for an output that no profile entry describes.
    pub open spec fn placeholder(name: Seq<char>) -> MonitorView {
        MonitorView {
            sn: None,
            product: None,
            available: false,
            order: u8::MAX,
            width_px: 0,
            height_px: 0,
            name: Some(name),
        }
    }

    /// This monitor, once the output called `output` has been recognised as it.
    pub open spec fn claimed_by(self, output: Seq<char>) -> MonitorView {
        MonitorView { available: true, name: Some(output), ..self }
    }

    /// Whether the monitor has a picture to show: neither side is zero.
    pub open spec fn enabled(self) -> bool {
        self.width_px > 0 && self.height_px > 0
    }

    /// The width that the monitor takes on the screen: none where it is not
    /// enabled.
    pub open spec fn own_width(self) -> nat {
        if self.enabled() {
            self.width_px as nat
        } else {
            0
        }
    }

    /// The `xrandr` arguments that turn the monitor's output off, or on at
    /// `(x, y)`. A monitor without an output has none.
    pub open spec fn fragment(self, enable: bool, x: nat, y: nat) -> Seq<char> {
        match self.name {
            None => seq![],
            Some(name) => if enable {
                "--output "@ + name + " --mode "@ + text::decimal(self.width_px as nat) + "x"@
                    + text::decimal(self.height_px as nat) + " --pos "@ + text::decimal(x) + "x"@
                    + text::decimal(y)
            } else {
                "--output "@ + name + " --off"@
            },
        }
    }

    /// Equality of monitors: neither `available` nor `product` counts.
    pub open spec fn same_as(self, other: MonitorView) -> bool {
        &&& self.sn == other.sn
        &&& self.order == other.order
        &&& self.width_px == other.width_px
        &&& self.height_px == other.height_px
        &&& self.name == other.name
    }
}

/// How two monitors stand to each other: as their `order` fields do.
pub open spec fn order_of(a: MonitorView, b: MonitorView) -> Ordering {
    if a.order < b.order {
        Ordering::Less
    } else if a.order == b.order {
        Ordering::Equal
    } else {
        Ordering::Greater
    }
}

impl MonitorDefinition {
    /// A monitor known by its serial number, with no output assigned.
    pub fn from_id(
        id: &str,
        available: bool,
        order: u8,
        width_px: usize,
        height_px: usize,
    ) -> (r: Self)
        ensures
            r@ == (MonitorView {
                sn: Some(id@),
                product: None,
                available,
                order,
                width_px,
                height_px,
                name: None,
            }),
    {
        MonitorDefinition {
            sn: Some(id.to_owned()),
            product: None,
            available,
            order,
            width_px,
            height_px,
            name: None,
        }
    }

    /// The placeholder for an output that no profile entry describes: it has
    /// no size, is not available, and sorts last.
    pub fn empty(name: &str) -> (r: Self)
        ensures
            r@ == MonitorView::placeholder(name@),
    {
        MonitorDefinition {
            sn: None,
            product: None,
            available: false,
            order: u8::MAX,
            width_px: 0,
            height_px: 0,
            name: Some(name.to_owned()),
        }
    }

    /// Whether the monitor has a picture to show: neither side is zero.
    pub fn is_enabled(&self) -> (r: bool)
        ensures
            r == self@.enabled(),
    {
        self.width_px > 0 && self.height_px > 0
    }

    /// The `xrandr` arguments for this monitor's output; empty where it has
    /// no output.
    pub fn xrand(&self, enable: bool, offset_x: usize, offset_y: usize) -> (r: String)
        ensures
            r@ == self@.fragment(enable, offset_x as nat, offset_y as nat),
    {
        let mut out = String::new();
        match &self.name {
            None => {},
            Some(name) => {
                out.append("--output ");
                out.append(name.as_str());
                if enable {
                    out.append(" --mode ");
                    push_decimal(&mut out, self.width_px as u64);
                    out.append("x");
                    push_decimal(&mut out, self.height_px as u64);
                    out.append(" --pos ");
                    push_decimal(&mut out, offset_x as u64);
                    out.append("x");
                    push_decimal(&mut out, offset_y as u64);
                } else {
                    out.append(" --off");
                }
            },
        }
        out
    }

    /// Compares two monitors by their `order` alone.
    pub fn cmp(&self, other: &Self) -> (r: Ordering)
        ensures
            r == order_of(self@, other@),
    {
        if self.order < other.order {
            Ordering::Less
        } else if self.order == other.order {
            Ordering::Equal
        } else {
            Ordering::Greater
        }
    }
}

impl PartialEq for MonitorDefinition {
    fn eq(&self, other: &Self) -> (r: bool) {
        same_text(&self.sn, &other.sn) && self.order == other.order && self.width_px
            == other.width_px && self.height_px == other.height_px && same_text(
            &self.name,
            &other.name,
        )
    }
}

impl vstd::std_specs::cmp::PartialEqSpecImpl for MonitorDefinition {
    open spec fn obeys_eq_spec() -> bool {
        true
    }

    open spec fn eq_spec(&self, other: &Self) -> bool {
        self@.same_as(other@)
    }
}

impl Eq for MonitorDefinition {

}

impl PartialOrd for MonitorDefinition {
    fn partial_cmp(&self, other: &Self) -> (r: Option<Ordering>) {
        Some(self.cmp(other))
    }
}

impl vstd::std_specs::cmp::PartialOrdSpecImpl for MonitorDefinition {
    open spec fn obeys_partial_cmp_spec() -> bool {
        true
    }

    open spec fn partial_cmp_spec(&self, other: &Self) -> Option<Ordering> {
        Some(order_of(self@, other@))
    }
}

/// Equality is reflexive, symmetric and transitive.
pub proof fn equality_is_an_equivalence(a: MonitorView, b: MonitorView, c: MonitorView)
    ensures
        a.same_as(a),
        a.same_as(b) ==> b.same_as(a),
        a.same_as(b) && b.same_as(c) ==> a.same_as(c),
{
}

/// Whether a monitor is available, and which product it is, never decides
/// equality.
pub proof fn equality_ignores_availability_and_product(
    a: MonitorView,
    b: MonitorView,
    available: bool,
    product: Option<Seq<char>>,
)
    ensures
        (MonitorView { available, product, ..a }).same_as(b) == a.same_as(b),
{
}

/// Monitors that are equal stand at the same place in the order. The order is
/// total and transitive, and turning a comparison round reverses its outcome.
pub proof fn order_is_a_total_preorder(a: MonitorView, b: MonitorView, c: MonitorView)
    ensures
        a.same_as(b) ==> order_of(a, b) == Ordering::Equal,
        order_of(a, b) == Ordering::Less <==> order_of(b, a) == Ordering::Greater,
        order_of(a, b) != Ordering::Greater && order_of(b, c) != Ordering::Greater ==> order_of(
            a,
            c,
        ) != Ordering::Greater,
{
}

/// Monitors are equal exactly where they agree in serial number, `order`, both
/// sides and output.
pub proof fn equality_compares_five_fields(a: MonitorView, b: MonitorView)
    ensures
        a.same_as(b) <==> a.sn == b.sn && a.order == b.order && a.width_px == b.width_px
            && a.height_px == b.height_px && a.name == b.name,
{
}

/// Monitors stand to each other as the numbers in their `order` fields do.
pub proof fn order_compares_the_numbers(a: MonitorView, b: MonitorView)
    ensures
        order_of(a, b) == Ordering::Less <==> a.order < b.order,
        order_of(a, b) == Ordering::Equal <==> a.order == b.order,
        order_of(a, b) == Ordering::Greater <==> a.order > b.order,
{
}

/// A monitor that an output claims is available and on that output, and stays as
/// the profile describes it.
pub proof fn a_claim_changes_nothing_but_the_output(m: MonitorView, output: Seq<char>)
    ensures
        m.claimed_by(output).available,
        m.claimed_by(output).name == Some(output),
        m.claimed_by(output).sn == m.sn,
        m.claimed_by(output).product == m.product,
        m.claimed_by(output).order == m.order,
        m.claimed_by(output).width_px == m.width_px,
        m.claimed_by(output).height_px == m.height_px,
{
}

/// A placeholder names its output and nothing else: nothing identifies it, it is
/// not available, it has no size, and no `order` is greater than its own.
pub proof fn a_placeholder_only_names_its_output(name: Seq<char>, order: u8)
    ensures
        MonitorView::placeholder(name).name == Some(name),
        MonitorView::placeholder(name).sn is None,
        MonitorView::placeholder(name).product is None,
        !MonitorView::placeholder(name).available,
        MonitorView::placeholder(name).width_px == 0,
        MonitorView::placeholder(name).height_px == 0,
        order <= MonitorView::placeholder(name).order,
{
}

/// A monitor has a picture exactly where both its sides are more than zero, and
/// takes its width on the screen exactly then.
pub proof fn a_picture_has_two_sides(m: MonitorView)
    ensures
        m.enabled() <==> m.width_px != 0 && m.height_px != 0,
        m.width_px != 0 && m.height_px != 0 ==> m.own_width() == m.width_px,
        m.width_px == 0 || m.height_px == 0 ==> m.own_width() == 0,
{
}

/// The arguments of a monitor on an output name that output, and give the mode
/// and then the place, or turn it off; a monitor on no output has none.
pub proof fn arguments_name_output_mode_and_place(m: MonitorView, x: nat, y: nat)
    ensures
        m.name is None ==> m.fragment(true, x, y).len() == 0 && m.fragment(false, x, y).len() == 0,
        m.name matches Some(name) ==> m.fragment(false, x, y) == "--output "@ + name + " --off"@,
        m.name matches Some(name) ==> m.fragment(true, x, y) == "--output "@ + name + " --mode "@
            + text::decimal(m.width_px as nat) + "x"@ + text::decimal(m.height_px as nat)
            + " --pos "@ + text::decimal(x) + "x"@ + text::decimal(y),
{
}

} // verus!
