//! What a monitor says of itself: the descriptors in its EDID, and the
//! identification that the search for a profile entry goes by.

use edid::Descriptor;
use vstd::prelude::*;

verus! {

/// A descriptor of an EDID block, with what this crate reads of it.
#[derive(Clone, Debug)]
pub enum EdidDescriptor {
    /// Active pixels of a line, active lines, and the pixel clock.
    DetailedTiming(u16, u16, u32),
    SerialNumber(String),
    UnspecifiedText(String),
    RangeLimits,
    ProductName(String),
    Other,
}

/// The contents of an [`EdidDescriptor`].
pub enum DescriptorView {
    DetailedTiming(u16, u16, u32),
    SerialNumber(Seq<char>),
    UnspecifiedText(Seq<char>),
    RangeLimits,
    ProductName(Seq<char>),
    Other,
}

impl View for EdidDescriptor {
    type V = DescriptorView;

    open spec fn view(&self) -> DescriptorView {
        match *self {
            EdidDescriptor::DetailedTiming(w, h, clock) => DescriptorView::DetailedTiming(
                w,
                h,
                clock,
            ),
            EdidDescriptor::SerialNumber(s) => DescriptorView::SerialNumber(s@),
            EdidDescriptor::UnspecifiedText(s) => DescriptorView::UnspecifiedText(s@),
            EdidDescriptor::RangeLimits => DescriptorView::RangeLimits,
            EdidDescriptor::ProductName(s) => DescriptorView::ProductName(s@),
            EdidDescriptor::Other => DescriptorView::Other,
        }
    }
}

impl DeepView for EdidDescriptor {
    type V = DescriptorView;

    open spec fn deep_view(&self) -> DescriptorView {
        self@
    }
}

/// What identifies an attached monitor: its serial number, its product name.
#[derive(Clone, Debug)]
pub struct SearchDescriptors {
    pub sn: Option<String>,
    pub product: Option<String>,
}

/// The contents of [`SearchDescriptors`].
pub struct SearchView {
    pub sn: Option<Seq<char>>,
    pub product: Option<Seq<char>>,
}

impl View for SearchDescriptors {
    type V = SearchView;

    open spec fn view(&self) -> SearchView {
        SearchView { sn: self.sn.deep_view(), product: self.product.deep_view() }
    }
}

impl DeepView for SearchDescriptors {
    type V = SearchView;

    open spec fn deep_view(&self) -> SearchView {
        self@
    }
}

/// The descriptors that `edid::parse` finds in a block of bytes, in their
/// order, or `None` where it does not accept the block.
pub uninterp spec fn edid_descriptors(bytes: Seq<u8>) -> Option<Seq<DescriptorView>>;

/// Calls `edid::parse`. Claimed of it: whether it accepts the bytes, and which
/// descriptors it then returns, depends on the bytes alone. It takes every
/// slice without panicking.
#[verifier::external_body]
pub(crate) fn parse_edid(bytes: &Vec<u8>) -> (r: Option<Vec<EdidDescriptor>>)
    ensures
        r.deep_view() == edid_descriptors(bytes@),
{
    match edid::parse(bytes) {
        nom::IResult::Done(_, info) => Some(info.descriptors.into_iter().map(|d| match d {
            Descriptor::DetailedTiming(t) => EdidDescriptor::DetailedTiming(
                t.horizontal_active_pixels, t.vertical_active_lines, t.pixel_clock),
            Descriptor::SerialNumber(s) => EdidDescriptor::SerialNumber(s),
            Descriptor::UnspecifiedText(s) => EdidDescriptor::UnspecifiedText(s),
            Descriptor::RangeLimits => EdidDescriptor::RangeLimits,
            Descriptor::ProductName(s) => EdidDescriptor::ProductName(s),
            _ => EdidDescriptor::Other,
        }).collect()),
        _ => None,
    }
}

/// The serial number that the first serial number descriptor holds.
pub open spec fn first_serial(ds: Seq<DescriptorView>) -> Option<Seq<char>>
    decreases ds.len(),
{
    if ds.len() == 0 {
        None
    } else {
        match ds[0] {
            DescriptorView::SerialNumber(s) => Some(s),
            _ => first_serial(ds.skip(1)),
        }
    }
}

/// The product name that the first product name descriptor holds.
pub open spec fn first_product(ds: Seq<DescriptorView>) -> Option<Seq<char>>
    decreases ds.len(),
{
    if ds.len() == 0 {
        None
    } else {
        match ds[0] {
            DescriptorView::ProductName(s) => Some(s),
            _ => first_product(ds.skip(1)),
        }
    }
}

/// What a list of descriptors identifies a monitor by: nothing, unless it
/// gives a serial number or a product name.
pub open spec fn identification(ds: Seq<DescriptorView>) -> Option<SearchView> {
    if first_serial(ds) is Some || first_product(ds) is Some {
        Some(SearchView { sn: first_serial(ds), product: first_product(ds) })
    } else {
        None
    }
}

/// What an optional EDID block identifies a monitor by.
pub open spec fn edid_identification(edid: Option<Seq<u8>>) -> Option<SearchView> {
    match edid {
        None => None,
        Some(bytes) => match edid_descriptors(bytes) {
            None => None,
            Some(ds) => identification(ds),
        },
    }
}

/// The serial number that the first serial number descriptor holds.
fn find_serial(descriptors: &Vec<EdidDescriptor>) -> (r: Option<String>)
    ensures
        r.deep_view() == first_serial(descriptors.deep_view()),
{
    let ghost ds = descriptors.deep_view();
    assert(ds.skip(0) =~= ds);
    let mut i: usize = 0;
    while i < descriptors.len()
        invariant
            i <= descriptors.len(),
            ds == descriptors.deep_view(),
            first_serial(ds) == first_serial(ds.skip(i as int)),
        decreases descriptors.len() - i,
    {
        assert(ds.skip(i as int).skip(1) =~= ds.skip(i + 1));
        assert(ds.skip(i as int)[0] == descriptors[i as int]@);
        match &descriptors[i] {
            EdidDescriptor::SerialNumber(s) => {
                return Some(s.clone());
            },
            _ => {},
        }
        i += 1;
    }
    None
}

/// The product name that the first product name descriptor holds.
fn find_product(descriptors: &Vec<EdidDescriptor>) -> (r: Option<String>)
    ensures
        r.deep_view() == first_product(descriptors.deep_view()),
{
    let ghost ds = descriptors.deep_view();
    assert(ds.skip(0) =~= ds);
    let mut i: usize = 0;
    while i < descriptors.len()
        invariant
            i <= descriptors.len(),
            ds == descriptors.deep_view(),
            first_product(ds) == first_product(ds.skip(i as int)),
        decreases descriptors.len() - i,
    {
        assert(ds.skip(i as int).skip(1) =~= ds.skip(i + 1));
        assert(ds.skip(i as int)[0] == descriptors[i as int]@);
        match &descriptors[i] {
            EdidDescriptor::ProductName(s) => {
                return Some(s.clone());
            },
            _ => {},
        }
        i += 1;
    }
    None
}

/// What a list of descriptors identifies a monitor by.
pub fn identify(descriptors: &Vec<EdidDescriptor>) -> (r: Option<SearchDescriptors>)
    ensures
        r.deep_view() == identification(descriptors.deep_view()),
{
    let sn = find_serial(descriptors);
    let product = find_product(descriptors);
    if sn.is_some() || product.is_some() {
        Some(SearchDescriptors { sn, product })
    } else {
        None
    }
}

/// A monitor is identified by the first serial number and the first product name
/// among its descriptors, wherever they stand, and by nothing only where there is
/// neither.
pub proof fn the_first_of_each_kind_identifies(ds: Seq<DescriptorView>)
    ensures
        match identification(ds) {
            Some(id) => {
                &&& id.sn is Some || id.product is Some
                &&& match id.sn {
                    Some(sn) => exists|i: int|
                        0 <= i < ds.len() && #[trigger] ds[i] == DescriptorView::SerialNumber(sn)
                            && forall|j: int| 0 <= j < i ==> !((#[trigger] ds[j]) is SerialNumber),
                    None => forall|j: int|
                        0 <= j < ds.len() ==> !((#[trigger] ds[j]) is SerialNumber),
                }
                &&& match id.product {
                    Some(product) => exists|i: int|
                        0 <= i < ds.len() && #[trigger] ds[i] == DescriptorView::ProductName(
                            product,
                        ) && forall|j: int| 0 <= j < i ==> !((#[trigger] ds[j]) is ProductName),
                    None => forall|j: int|
                        0 <= j < ds.len() ==> !((#[trigger] ds[j]) is ProductName),
                }
            },
            None => forall|j: int|
                0 <= j < ds.len() ==> !((#[trigger] ds[j]) is SerialNumber)
                    && !(ds[j] is ProductName),
        },
{
    lemma_first_serial(ds);
    lemma_first_product(ds);
}

/// `first_serial` looks for the first serial number.
proof fn lemma_first_serial(ds: Seq<DescriptorView>)
    ensures
        match first_serial(ds) {
            Some(sn) => exists|i: int|
                0 <= i < ds.len() && #[trigger] ds[i] == DescriptorView::SerialNumber(sn)
                    && forall|j: int| 0 <= j < i ==> !((#[trigger] ds[j]) is SerialNumber),
            None => forall|j: int| 0 <= j < ds.len() ==> !((#[trigger] ds[j]) is SerialNumber),
        },
    decreases ds.len(),
{
    if ds.len() > 0 && !(ds[0] is SerialNumber) {
        let tail = ds.skip(1);
        lemma_first_serial(tail);
        assert(forall|j: int| 0 < j < ds.len() ==> #[trigger] ds[j] == tail[j - 1]);
        if let Some(sn) = first_serial(tail) {
            let i = choose|i: int|
                0 <= i < tail.len() && #[trigger] tail[i] == DescriptorView::SerialNumber(sn)
                    && forall|j: int| 0 <= j < i ==> !((#[trigger] tail[j]) is SerialNumber);
            assert(ds[i + 1] == DescriptorView::SerialNumber(sn));
        }
    }
}

/// `first_product` looks for the first product name.
proof fn lemma_first_product(ds: Seq<DescriptorView>)
    ensures
        match first_product(ds) {
            Some(product) => exists|i: int|
                0 <= i < ds.len() && #[trigger] ds[i] == DescriptorView::ProductName(product)
                    && forall|j: int| 0 <= j < i ==> !((#[trigger] ds[j]) is ProductName),
            None => forall|j: int| 0 <= j < ds.len() ==> !((#[trigger] ds[j]) is ProductName),
        },
    decreases ds.len(),
{
    if ds.len() > 0 && !(ds[0] is ProductName) {
        let tail = ds.skip(1);
        lemma_first_product(tail);
        assert(forall|j: int| 0 < j < ds.len() ==> #[trigger] ds[j] == tail[j - 1]);
        if let Some(product) = first_product(tail) {
            let i = choose|i: int|
                0 <= i < tail.len() && #[trigger] tail[i] == DescriptorView::ProductName(product)
                    && forall|j: int| 0 <= j < i ==> !((#[trigger] tail[j]) is ProductName);
            assert(ds[i + 1] == DescriptorView::ProductName(product));
        }
    }
}

/// A monitor without an EDID block, or with one that cannot be read, is not
/// identified; with one that can be read, its descriptors identify it.
pub proof fn a_block_that_is_read_identifies(bytes: Seq<u8>)
    ensures
        edid_identification(None) is None,
        match edid_descriptors(bytes) {
            None => edid_identification(Some(bytes)) is None,
            Some(ds) => edid_identification(Some(bytes)) == identification(ds),
        },
{
}

} // verus!
