//! What an X server reports of its outputs and modes, and what is said of
//! them to the user.

use vstd::prelude::*;
use vstd::string::StringExecFns;

#[allow(unused_imports)]
use crate::descriptors;
use crate::descriptors::{
    identify, parse_edid, DescriptorView, EdidDescriptor, SearchDescriptors, SearchView,
};
#[allow(unused_imports)]
use crate::search;
#[allow(unused_imports)]
use crate::text;
use crate::text::{join_texts, push_decimal, push_signed};

verus! {

/// A mode that the screen knows.
#[derive(Clone, Copy, Debug, PartialEq, Eq, Structural)]
pub struct Mode {
    pub xid: u64,
    pub width: u32,
    pub height: u32,
}

/// An output of the screen. `edid` is the EDID block of the monitor attached
/// to it, and `modes` are the ids of the modes that it supports.
#[derive(Clone, Debug)]
pub struct Output {
    pub name: String,
    pub connected: bool,
    pub current_mode: Option<u64>,
    pub modes: Vec<u64>,
    pub mm_width: u64,
    pub mm_height: u64,
    pub edid: Option<Vec<u8>>,
}

/// The contents of an [`Output`].
pub struct OutputView {
    pub name: Seq<char>,
    pub connected: bool,
    pub current_mode: Option<u64>,
    pub modes: Seq<u64>,
    pub mm_width: u64,
    pub mm_height: u64,
    pub edid: Option<Seq<u8>>,
}

impl View for Output {
    type V = OutputView;

    open spec fn view(&self) -> OutputView {
        OutputView {
            name: self.name@,
            connected: self.connected,
            current_mode: self.current_mode,
            modes: self.modes@,
            mm_width: self.mm_width,
            mm_height: self.mm_height,
            edid: match self.edid {
                Some(bytes) => Some(bytes@),
                None => None,
            },
        }
    }
}

impl DeepView for Output {
    type V = OutputView;

    open spec fn deep_view(&self) -> OutputView {
        self@
    }
}

/// A part of the screen that is in use, and the outputs that show it.
#[derive(Clone, Debug)]
pub struct ActiveMonitor {
    pub x: i32,
    pub y: i32,
    pub width_px: i32,
    pub height_px: i32,
    pub outputs: Vec<String>,
}

/// The contents of an [`ActiveMonitor`].
pub struct ActiveView {
    pub x: int,
    pub y: int,
    pub width_px: int,
    pub height_px: int,
    pub outputs: Seq<Seq<char>>,
}

impl View for ActiveMonitor {
    type V = ActiveView;

    open spec fn view(&self) -> ActiveView {
        ActiveView {
            x: self.x as int,
            y: self.y as int,
            width_px: self.width_px as int,
            height_px: self.height_px as int,
            outputs: self.outputs.deep_view(),
        }
    }
}

impl DeepView for ActiveMonitor {
    type V = ActiveView;

    open spec fn deep_view(&self) -> ActiveView {
        self@
    }
}

/// Whether a mode has the given id.
pub open spec fn has_xid(xid: u64) -> spec_fn(Mode) -> bool {
    |m: Mode| m.xid == xid
}

/// The mode that an id stands for, among the modes that the screen knows.
pub open spec fn known_mode(modes: Seq<Mode>) -> spec_fn(u64) -> Option<Mode> {
    |xid: u64| search::first_where(modes, has_xid(xid))
}

/// The modes that a list of ids stands for; an id of no known mode is left out.
pub open spec fn known_modes(modes: Seq<Mode>, ids: Seq<u64>) -> Seq<Mode> {
    ids.filter_map(known_mode(modes))
}

/// Whether a mode is exactly this large.
pub open spec fn of_size(width: int, height: int) -> spec_fn(Mode) -> bool {
    |m: Mode| m.width == width && m.height == height
}

/// How many pixels a mode shows.
pub open spec fn area(m: Mode) -> int {
    m.width * m.height
}

/// The mode of `ms` with the most pixels, the last of them where several have
/// equally many.
pub open spec fn largest(ms: Seq<Mode>) -> Option<Mode>
    decreases ms.len(),
{
    if ms.len() == 0 {
        None
    } else {
        match largest(ms.drop_last()) {
            Some(m) if area(m) > area(ms.last()) => Some(m),
            _ => Some(ms.last()),
        }
    }
}

/// `largest` is a mode of `ms`, no mode shows more pixels, and every mode
/// after its last occurrence shows fewer. It is missing only of no modes.
pub proof fn largest_is_the_last_maximum(ms: Seq<Mode>)
    ensures
        match largest(ms) {
            Some(m) => exists|i: int|
                0 <= i < ms.len() && #[trigger] ms[i] == m && (forall|j: int|
                    0 <= j < ms.len() ==> area(#[trigger] ms[j]) <= area(m)) && (forall|j: int|
                    i < j < ms.len() ==> area(#[trigger] ms[j]) < area(m)),
            None => ms.len() == 0,
        },
    decreases ms.len(),
{
    if ms.len() > 0 {
        let init = ms.drop_last();
        largest_is_the_last_maximum(init);
        assert(forall|j: int| 0 <= j < init.len() ==> init[j] == #[trigger] ms[j]);
        match largest(init) {
            Some(m) if area(m) > area(ms.last()) => {
                let i = choose|i: int|
                    0 <= i < init.len() && #[trigger] init[i] == m && (forall|j: int|
                        0 <= j < init.len() ==> area(#[trigger] init[j]) <= area(m)) && (forall|
                        j: int,
                    |
                        i < j < init.len() ==> area(#[trigger] init[j]) < area(m));
                assert(ms[i] == m);
            },
            _ => {
                assert(ms[ms.len() - 1] == ms.last());
            },
        }
    }
}

/// The mode with the given id, among the modes that the screen knows.
pub fn mode_by_id(modes: &Vec<Mode>, xid: u64) -> (r: Option<Mode>)
    ensures
        r == search::first_where(modes@, has_xid(xid)),
{
    let ghost p = has_xid(xid);
    let mut i: usize = 0;
    while i < modes.len()
        invariant
            i <= modes.len(),
            p == has_xid(xid),
            forall|j: int| 0 <= j < i ==> !p(#[trigger] modes@[j]),
        decreases modes.len() - i,
    {
        if modes[i].xid == xid {
            proof {
                search::lemma_first_index_found(modes@, p, i as int);
            }
            return Some(modes[i]);
        }
        i += 1;
    }
    proof {
        search::lemma_first_index_absent(modes@, p);
    }
    None
}

/// The first mode that the output supports and that is exactly this large.
pub fn find_mode(modes: &Vec<Mode>, output: &Output, width: usize, height: usize) -> (r: Option<
    Mode,
>)
    ensures
        r == search::first_where(
            known_modes(modes@, output@.modes),
            of_size(width as int, height as int),
        ),
{
    let ghost ids = output@.modes;
    let ghost f = known_mode(modes@);
    let ghost p = of_size(width as int, height as int);
    let ghost all = ids.filter_map(f);
    let mut i: usize = 0;
    assert(ids.take(0).filter_map(f) =~= seq![]);
    while i < output.modes.len()
        invariant
            i <= output.modes.len(),
            ids == output.modes@,
            f == known_mode(modes@),
            p == of_size(width as int, height as int),
            all == ids.filter_map(f),
            forall|j: int|
                0 <= j < ids.take(i as int).filter_map(f).len() ==> !p(
                    #[trigger] ids.take(i as int).filter_map(f)[j],
                ),
        decreases output.modes.len() - i,
    {
        let found = mode_by_id(modes, output.modes[i]);
        let ghost seen = ids.take(i as int).filter_map(f);
        proof {
            search::lemma_filter_map_step(ids, f, i as int);
            search::lemma_filter_map_prefix(ids, f, i as int);
            search::lemma_filter_map_prefix(ids, f, i + 1);
        }
        if let Some(m) = found {
            if m.width as u64 == width as u64 && m.height as u64 == height as u64 {
                proof {
                    assert(seen.push(m)[seen.len() as int] == m);
                    assert(all[seen.len() as int] == m);
                    assert forall|j: int| 0 <= j < seen.len() implies !p(#[trigger] all[j]) by {
                        assert(seen[j] == all[j]);
                    }
                    search::lemma_first_index_found(all, p, seen.len() as int);
                }
                return Some(m);
            }
        }
        i += 1;
    }
    proof {
        assert(ids.take(i as int) =~= ids);
        search::lemma_first_index_absent(all, p);
    }
    None
}

/// The supported mode of an output with the most pixels, the last of them
/// where several have equally many.
pub fn largest_mode(modes: &Vec<Mode>, output: &Output) -> (r: Option<Mode>)
    ensures
        r == largest(known_modes(modes@, output@.modes)),
{
    let ghost ids = output@.modes;
    let ghost f = known_mode(modes@);
    let mut best: Option<Mode> = None;
    let mut i: usize = 0;
    assert(ids.take(0).filter_map(f) =~= seq![]);
    while i < output.modes.len()
        invariant
            i <= output.modes.len(),
            ids == output.modes@,
            f == known_mode(modes@),
            best == largest(ids.take(i as int).filter_map(f)),
        decreases output.modes.len() - i,
    {
        let found = mode_by_id(modes, output.modes[i]);
        let ghost seen = ids.take(i as int).filter_map(f);
        proof {
            search::lemma_filter_map_step(ids, f, i as int);
        }
        if let Some(m) = found {
            assert(seen.push(m).drop_last() =~= seen);
            let keep = match best {
                Some(b) => pixels(b) > pixels(m),
                None => false,
            };
            if !keep {
                best = Some(m);
            }
        }
        i += 1;
    }
    assert(ids.take(i as int) =~= ids);
    best
}

/// How many pixels a mode shows.
fn pixels(m: Mode) -> (r: u64)
    ensures
        r == area(m),
{
    let w: u64 = m.width as u64;
    let h: u64 = m.height as u64;
    assert(w * h <= 0xffff_ffff * 0xffff_ffff) by (nonlinear_arith)
        requires
            w <= 0xffff_ffff,
            h <= 0xffff_ffff,
    ;
    w * h
}

/// What the EDID block of an output identifies its monitor by: nothing, where
/// there is no block, it cannot be read, or it gives neither a serial number
/// nor a product name.
pub fn extract_descriptors(output: &Output) -> (r: Option<SearchDescriptors>)
    ensures
        r.deep_view() == descriptors::edid_identification(output@.edid),
{
    match &output.edid {
        None => None,
        Some(bytes) => match parse_edid(bytes) {
            None => None,
            Some(found) => identify(&found),
        },
    }
}

/// A text, or `UNKNOWN` where there is none.
pub open spec fn or_unknown(t: Option<Seq<char>>) -> Seq<char> {
    match t {
        Some(s) => s,
        None => "UNKNOWN"@,
    }
}

/// The line that describes an attached output, given what identifies its
/// monitor and the largest mode that it supports.
pub open spec fn output_line(
    output: OutputView,
    id: Option<SearchView>,
    highest: Option<Mode>,
) -> Seq<char> {
    let sn = match id {
        Some(d) => d.sn,
        None => None,
    };
    let product = match id {
        Some(d) => d.product,
        None => None,
    };
    let (w, h) = match highest {
        Some(m) => (m.width as nat, m.height as nat),
        None => (0nat, 0nat),
    };
    output.name + "  serial="@ + or_unknown(sn) + "  product="@ + or_unknown(product) + "  max="@
        + text::decimal(w) + "x"@ + text::decimal(h) + "  size="@ + text::decimal(
        output.mm_width as nat,
    ) + "x"@ + text::decimal(output.mm_height as nat) + "mm"@
}

/// The line that describes an attached output, given what identifies its
/// monitor.
pub fn describe_output(
    output: &Output,
    id: &Option<SearchDescriptors>,
    modes: &Vec<Mode>,
) -> (r: String)
    ensures
        r@ == output_line(
            output@,
            id.deep_view(),
            largest(known_modes(modes@, output@.modes)),
        ),
{
    let mut out = output.name.clone();
    out.append("  serial=");
    match id {
        Some(SearchDescriptors { sn: Some(sn), .. }) => out.append(sn.as_str()),
        _ => out.append("UNKNOWN"),
    }
    out.append("  product=");
    match id {
        Some(SearchDescriptors { product: Some(product), .. }) => out.append(product.as_str()),
        _ => out.append("UNKNOWN"),
    }
    let (w, h): (u32, u32) = match largest_mode(modes, output) {
        Some(m) => (m.width, m.height),
        None => (0, 0),
    };
    out.append("  max=");
    push_decimal(&mut out, w as u64);
    out.append("x");
    push_decimal(&mut out, h as u64);
    out.append("  size=");
    push_decimal(&mut out, output.mm_width);
    out.append("x");
    push_decimal(&mut out, output.mm_height);
    out.append("mm");
    out
}

/// The line that describes an attached output.
pub fn available_line(output: &Output, modes: &Vec<Mode>) -> (r: String)
    ensures
        r@ == output_line(
            output@,
            descriptors::edid_identification(output@.edid),
            largest(known_modes(modes@, output@.modes)),
        ),
{
    let id = extract_descriptors(output);
    describe_output(output, &id, modes)
}

/// What is reported of an attached output: the line that describes it, and the
/// descriptors that are to be shown with it.
#[derive(Debug)]
pub struct OutputReport {
    pub line: String,
    pub details: Vec<EdidDescriptor>,
}

/// The contents of an [`OutputReport`].
pub struct ReportView {
    pub line: Seq<char>,
    pub details: Seq<DescriptorView>,
}

impl View for OutputReport {
    type V = ReportView;

    open spec fn view(&self) -> ReportView {
        ReportView { line: self.line@, details: self.details.deep_view() }
    }
}

impl DeepView for OutputReport {
    type V = ReportView;

    open spec fn deep_view(&self) -> ReportView {
        self@
    }
}

/// The descriptors of an optional EDID block; none where it cannot be read.
pub open spec fn edid_details(edid: Option<Seq<u8>>) -> Seq<DescriptorView> {
    match edid {
        None => seq![],
        Some(bytes) => match descriptors::edid_descriptors(bytes) {
            None => seq![],
            Some(ds) => ds,
        },
    }
}

/// What is reported of an output, where it is connected: the descriptors of its
/// monitor are part of it where the report is `verbose`.
pub open spec fn reported(modes: Seq<Mode>, verbose: bool) -> spec_fn(OutputView) -> Option<
    ReportView,
> {
    |o: OutputView|
        if o.connected {
            Some(
                ReportView {
                    line: output_line(
                        o,
                        descriptors::edid_identification(o.edid),
                        largest(known_modes(modes, o.modes)),
                    ),
                    details: if verbose {
                        edid_details(o.edid)
                    } else {
                        seq![]
                    },
                },
            )
        } else {
            None
        }
}

/// The descriptors of the monitor on an output; none where they cannot be read.
fn read_details(output: &Output) -> (r: Vec<EdidDescriptor>)
    ensures
        r.deep_view() == edid_details(output@.edid),
{
    if let Some(bytes) = &output.edid {
        if let Some(found) = parse_edid(bytes) {
            return found;
        }
    }
    let none: Vec<EdidDescriptor> = Vec::new();
    assert(none.deep_view() =~= seq![]);
    none
}

/// Reports on every connected output, in their order.
pub fn available_outputs(outputs: &Vec<Output>, modes: &Vec<Mode>, verbose: bool) -> (r: Vec<
    OutputReport,
>)
    ensures
        r.deep_view() == outputs.deep_view().filter_map(reported(modes@, verbose)),
{
    let ghost all = outputs.deep_view();
    let ghost f = reported(modes@, verbose);
    let mut reports: Vec<OutputReport> = Vec::new();
    let mut i: usize = 0;
    assert(reports.deep_view() =~= all.take(0).filter_map(f));
    while i < outputs.len()
        invariant
            i <= outputs.len(),
            all == outputs.deep_view(),
            f == reported(modes@, verbose),
            reports.deep_view() == all.take(i as int).filter_map(f),
        decreases outputs.len() - i,
    {
        let o = &outputs[i];
        assert(all[i as int] == o@);
        proof {
            search::lemma_filter_map_step(all, f, i as int);
        }
        if o.connected {
            let details: Vec<EdidDescriptor> = if verbose {
                read_details(o)
            } else {
                Vec::new()
            };
            assert(!verbose ==> details.deep_view() =~= seq![]);
            let ghost before = reports.deep_view();
            let report = OutputReport { line: available_line(o, modes), details };
            reports.push(report);
            assert(reports.deep_view() =~= before.push(report@));
        }
        i += 1;
    }
    assert(all.take(i as int) =~= all);
    reports
}

/// The line that describes a descriptor, where it is one that is shown.
/// `clock` is the pixel clock of a timing as it is to be read.
pub open spec fn descriptor_text(d: DescriptorView, clock: Seq<char>) -> Option<Seq<char>> {
    match d {
        DescriptorView::ProductName(name) => Some("  product: "@ + name),
        DescriptorView::SerialNumber(sn) => Some("  serial: "@ + sn),
        DescriptorView::UnspecifiedText(t) => Some("  text: "@ + t),
        DescriptorView::DetailedTiming(w, h, _) => Some(
            "  timing: "@ + text::decimal(w as nat) + "x"@ + text::decimal(h as nat) + " @"@ + clock
                + "MHz"@,
        ),
        DescriptorView::RangeLimits => Some("  range-limits: yes"@),
        DescriptorView::Other => None,
    }
}

/// The line that describes a descriptor, where it is one that is shown.
/// `clock` is the pixel clock of a timing as it is to be read.
pub fn descriptor_line(d: &EdidDescriptor, clock: &str) -> (r: Option<String>)
    ensures
        r.deep_view() == descriptor_text(d@, clock@),
{
    let mut out = String::new();
    match d {
        EdidDescriptor::ProductName(name) => {
            out.append("  product: ");
            out.append(name.as_str());
        },
        EdidDescriptor::SerialNumber(sn) => {
            out.append("  serial: ");
            out.append(sn.as_str());
        },
        EdidDescriptor::UnspecifiedText(t) => {
            out.append("  text: ");
            out.append(t.as_str());
        },
        EdidDescriptor::DetailedTiming(w, h, _) => {
            out.append("  timing: ");
            push_decimal(&mut out, *w as u64);
            out.append("x");
            push_decimal(&mut out, *h as u64);
            out.append(" @");
            out.append(clock);
            out.append("MHz");
        },
        EdidDescriptor::RangeLimits => {
            out.append("  range-limits: yes");
        },
        EdidDescriptor::Other => {
            return None;
        },
    }
    assert(out@ =~= descriptor_text(d@, clock@)->0);
    Some(out)
}

impl ActiveView {
    /// The `xrandr` arguments that put an output where this monitor is.
    pub open spec fn fragment(self, output: Seq<char>) -> Seq<char> {
        "--output "@ + output + " --mode "@ + text::signed_decimal(self.width_px) + "x"@
            + text::signed_decimal(self.height_px) + " --pos "@ + text::signed_decimal(self.x)
            + "x"@ + text::signed_decimal(self.y)
    }

    /// The `xrandr` arguments of each of its first `n` outputs.
    pub open spec fn fragments(self, n: nat) -> Seq<Seq<char>> {
        Seq::new(n, |i: int| self.fragment(self.outputs[i]))
    }
}

/// The `xrandr` arguments of each output of the first `n` monitors.
pub open spec fn active_fragments(ms: Seq<ActiveView>, n: nat) -> Seq<Seq<char>>
    decreases n,
{
    if n == 0 {
        seq![]
    } else {
        active_fragments(ms, (n - 1) as nat) + ms[n - 1].fragments(ms[n - 1].outputs.len())
    }
}

/// The `xrandr` arguments that put one output of `m` where `m` is.
fn active_fragment(m: &ActiveMonitor, output: &String) -> (r: String)
    ensures
        r@ == m@.fragment(output@),
{
    let mut out = String::new();
    out.append("--output ");
    out.append(output.as_str());
    out.append(" --mode ");
    push_signed(&mut out, m.width_px);
    out.append("x");
    push_signed(&mut out, m.height_px);
    out.append(" --pos ");
    push_signed(&mut out, m.x);
    out.append("x");
    push_signed(&mut out, m.y);
    out
}

/// The `xrandr` command that gives the layout that `monitors` show now.
pub fn current_command(monitors: &Vec<ActiveMonitor>) -> (r: String)
    ensures
        r@ == "xrandr "@ + text::join(
            active_fragments(monitors.deep_view(), monitors@.len()),
            " "@,
        ),
{
    let ghost ms = monitors.deep_view();
    let mut parts: Vec<String> = Vec::new();
    let mut i: usize = 0;
    assert(parts.deep_view() =~= seq![]);
    while i < monitors.len()
        invariant
            i <= monitors.len(),
            ms == monitors.deep_view(),
            parts.deep_view() == active_fragments(ms, i as nat),
        decreases monitors.len() - i,
    {
        let m = &monitors[i];
        assert(ms[i as int] == m@);
        let mut k: usize = 0;
        let ghost before = parts.deep_view();
        assert(before + m@.fragments(0) =~= before);
        while k < m.outputs.len()
            invariant
                k <= m.outputs.len(),
                parts.deep_view() == before + m@.fragments(k as nat),
            decreases m.outputs.len() - k,
        {
            let ghost sofar = parts.deep_view();
            let part = active_fragment(m, &m.outputs[k]);
            assert(m@.outputs[k as int] == m.outputs[k as int]@);
            parts.push(part);
            assert(parts.deep_view() =~= sofar.push(part@));
            assert(sofar.push(part@) =~= before + m@.fragments((k + 1) as nat));
            k += 1;
        }
        i += 1;
    }
    let mut out = String::new();
    out.append("xrandr ");
    let tail = join_texts(&parts, " ");
    out.append(tail.as_str());
    out
}

/// An id stands for the first mode that has it. The supported modes of an output
/// are those that its ids stand for, in their sequence; an id that no mode has is
/// passed over.
pub proof fn an_id_stands_for_the_first_mode_that_has_it(
    modes: Seq<Mode>,
    ids: Seq<u64>,
    xid: u64,
    q: int,
)
    ensures
        known_modes(modes, seq![]).len() == 0,
        0 <= q < modes.len() && modes[q].xid == xid && (forall|r: int|
            0 <= r < q ==> (#[trigger] modes[r]).xid != xid) ==> {
            &&& search::first_where(modes, has_xid(xid)) == Some(modes[q])
            &&& known_modes(modes, ids.push(xid)) == known_modes(modes, ids).push(modes[q])
        },
        (forall|r: int| 0 <= r < modes.len() ==> (#[trigger] modes[r]).xid != xid) ==> {
            &&& search::first_where(modes, has_xid(xid)) is None
            &&& known_modes(modes, ids.push(xid)) == known_modes(modes, ids)
        },
{
    let all = ids.push(xid);
    let p = has_xid(xid);
    search::lemma_filter_map_step(all, known_mode(modes), ids.len() as int);
    assert(all.take(ids.len() as int) =~= ids);
    assert(all.take(all.len() as int) =~= all);
    if 0 <= q < modes.len() && modes[q].xid == xid && (forall|r: int|
        0 <= r < q ==> (#[trigger] modes[r]).xid != xid) {
        search::lemma_first_index_found(modes, p, q);
    }
    if forall|r: int| 0 <= r < modes.len() ==> (#[trigger] modes[r]).xid != xid {
        search::lemma_first_index_absent(modes, p);
    }
}

/// The mode found for a size is exactly that large, in width and in height. It is
/// the first such mode in the sequence of the ids that the output supports, and is
/// missing only where none of them stands for one.
pub proof fn the_first_supported_mode_of_a_size_is_found(
    modes: Seq<Mode>,
    ids: Seq<u64>,
    width: int,
    height: int,
)
    ensures
        match search::first_where(known_modes(modes, ids), of_size(width, height)) {
            Some(m) => {
                &&& m.width == width
                &&& m.height == height
                &&& exists|p: int, q: int|
                    #![trigger ids[p], modes[q]]
                    {
                        &&& 0 <= p < ids.len()
                        &&& 0 <= q < modes.len()
                        &&& modes[q] == m
                        &&& ids[p] == m.xid
                        &&& forall|r: int| 0 <= r < q ==> (#[trigger] modes[r]).xid != m.xid
                        &&& forall|e: int, r: int|
                            #![trigger ids[e], modes[r]]
                            0 <= e < p && 0 <= r < modes.len() && modes[r].xid == ids[e] && (forall|
                                s: int,
                            |
                                0 <= s < r ==> (#[trigger] modes[s]).xid != modes[r].xid)
                                ==> modes[r].width != width || modes[r].height != height
                    }
            },
            None => forall|e: int, r: int|
                #![trigger ids[e], modes[r]]
                0 <= e < ids.len() && 0 <= r < modes.len() && modes[r].xid == ids[e] && (forall|
                    s: int,
                |
                    0 <= s < r ==> (#[trigger] modes[s]).xid != modes[r].xid) ==> modes[r].width
                    != width || modes[r].height != height,
        },
    decreases ids.len(),
{
    let fits = of_size(width, height);
    if ids.len() == 0 {
        assert(known_modes(modes, ids) =~= seq![]);
    } else {
        let init = ids.drop_last();
        let xid = ids.last();
        let before = known_modes(modes, init);
        let after = known_modes(modes, ids);
        the_first_supported_mode_of_a_size_is_found(modes, init, width, height);
        assert(ids =~= init.push(xid));
        assert(forall|e: int| 0 <= e < init.len() ==> #[trigger] ids[e] == init[e]);
        search::first_index_is_first(modes, has_xid(xid));
        let found = search::first_index(modes, has_xid(xid));
        an_id_stands_for_the_first_mode_that_has_it(
            modes,
            init,
            xid,
            if found is Some {
                found->0
            } else {
                0
            },
        );
        if found is None {
            assert forall|r: int| 0 <= r < modes.len() implies (#[trigger] modes[r]).xid != xid by {
                assert(!has_xid(xid)(modes[r]));
            }
            assert(after == before);
        } else {
            let q = found->0;
            assert forall|r: int| 0 <= r < q implies (#[trigger] modes[r]).xid != xid by {
                assert(!has_xid(xid)(modes[r]));
            }
            assert(after == before.push(modes[q]));
            assert(after.drop_last() =~= before);
            assert(ids[ids.len() - 1] == xid);
            assert forall|r: int|
                0 <= r < modes.len() && (#[trigger] modes[r]).xid == xid && (forall|s: int|
                    0 <= s < r ==> (#[trigger] modes[s]).xid != modes[r].xid) implies r == q by {
                if q < r {
                    assert(modes[q].xid != modes[r].xid);
                }
            }
        }
        if let Some(i) = search::first_index(before, fits) {
            search::first_index_is_first(before, fits);
            let m = before[i];
            assert(search::first_where(before, fits) == Some(m));
            assert(search::first_where(after, fits) == Some(m));
            let (p, q) = choose|p: int, q: int|
                #![trigger init[p], modes[q]]
                {
                    &&& 0 <= p < init.len()
                    &&& 0 <= q < modes.len()
                    &&& modes[q] == m
                    &&& init[p] == m.xid
                    &&& forall|r: int| 0 <= r < q ==> (#[trigger] modes[r]).xid != m.xid
                    &&& forall|e: int, r: int|
                        #![trigger init[e], modes[r]]
                        0 <= e < p && 0 <= r < modes.len() && modes[r].xid == init[e] && (forall|
                            s: int,
                        |
                            0 <= s < r ==> (#[trigger] modes[s]).xid != modes[r].xid)
                            ==> modes[r].width != width || modes[r].height != height
                };
            assert(ids[p] == init[p] && modes[q] == m);
            assert forall|e: int, r: int|
                #![trigger ids[e], modes[r]]
                0 <= e < p && 0 <= r < modes.len() && modes[r].xid == ids[e] && (forall|s: int|
                    0 <= s < r ==> (#[trigger] modes[s]).xid != modes[r].xid) implies modes[r].width
                != width || modes[r].height != height by {
                assert(init[e] == ids[e]);
            }
        } else {
            assert forall|e: int, r: int|
                #![trigger ids[e], modes[r]]
                0 <= e < init.len() && 0 <= r < modes.len() && modes[r].xid == ids[e] && (forall|
                    s: int,
                |
                    0 <= s < r ==> (#[trigger] modes[s]).xid != modes[r].xid) implies modes[r].width
                != width || modes[r].height != height by {
                assert(init[e] == ids[e]);
            }
        }
    }
}

/// The largest mode is one of the modes. None has a greater product of width and
/// height, and every mode behind it has a smaller one; there is none only of none.
pub proof fn the_largest_mode_has_the_most_pixels(ms: Seq<Mode>)
    ensures
        match largest(ms) {
            Some(m) => exists|i: int|
                {
                    &&& 0 <= i < ms.len()
                    &&& #[trigger] ms[i] == m
                    &&& forall|j: int|
                        0 <= j < ms.len() ==> (#[trigger] ms[j]).width * ms[j].height <= m.width
                            * m.height
                    &&& forall|j: int|
                        i < j < ms.len() ==> (#[trigger] ms[j]).width * ms[j].height < m.width
                            * m.height
                },
            None => ms.len() == 0,
        },
{
    largest_is_the_last_maximum(ms);
    if let Some(m) = largest(ms) {
        let i = choose|i: int|
            0 <= i < ms.len() && #[trigger] ms[i] == m && (forall|j: int|
                0 <= j < ms.len() ==> area(#[trigger] ms[j]) <= area(m)) && (forall|j: int|
                i < j < ms.len() ==> area(#[trigger] ms[j]) < area(m));
        assert(ms[i] == m);
        assert forall|j: int| 0 <= j < ms.len() implies (#[trigger] ms[j]).width * ms[j].height
            <= m.width * m.height by {
            assert(area(ms[j]) <= area(m));
        }
        assert forall|j: int| i < j < ms.len() implies (#[trigger] ms[j]).width * ms[j].height
            < m.width * m.height by {
            assert(area(ms[j]) < area(m));
        }
    }
}

/// The line on an output gives its name; the serial number and the product of its
/// monitor, each unknown where it is not given; its largest mode, of no size where
/// there is none; and how large it is.
pub proof fn a_line_describes_output_and_monitor(
    o: OutputView,
    sn: Option<Seq<char>>,
    product: Option<Seq<char>>,
    highest: Option<Mode>,
)
    ensures
        ({
            let serial_text = match sn {
                Some(s) => s,
                None => "UNKNOWN"@,
            };
            let product_text = match product {
                Some(s) => s,
                None => "UNKNOWN"@,
            };
            let (w, h): (nat, nat) = match highest {
                Some(m) => (m.width as nat, m.height as nat),
                None => (0, 0),
            };
            let line = o.name + "  serial="@ + serial_text + "  product="@ + product_text
                + "  max="@ + text::decimal(w) + "x"@ + text::decimal(h) + "  size="@
                + text::decimal(o.mm_width as nat) + "x"@ + text::decimal(o.mm_height as nat)
                + "mm"@;
            &&& output_line(o, Some(SearchView { sn, product }), highest) == line
            &&& sn is None && product is None ==> output_line(o, None, highest) == line
        }),
{
}

/// One more output adds its line to the report where it is connected, with the
/// descriptors that can be read from it where the report is to be verbose; one that
/// is not connected adds nothing.
pub proof fn every_connected_output_is_listed(
    outputs: Seq<OutputView>,
    o: OutputView,
    modes: Seq<Mode>,
    verbose: bool,
)
    ensures
        Seq::<OutputView>::empty().filter_map(reported(modes, verbose)).len() == 0,
        outputs.push(o).filter_map(reported(modes, verbose)) == if !o.connected {
            outputs.filter_map(reported(modes, verbose))
        } else {
            outputs.filter_map(reported(modes, verbose)).push(
                (ReportView {
                    line: output_line(
                        o,
                        descriptors::edid_identification(o.edid),
                        largest(known_modes(modes, o.modes)),
                    ),
                    details: match o.edid {
                        Some(bytes) if verbose => match descriptors::edid_descriptors(bytes) {
                            Some(ds) => ds,
                            None => seq![],
                        },
                        _ => seq![],
                    },
                }),
            )
        },
{
    let all = outputs.push(o);
    search::lemma_filter_map_step(all, reported(modes, verbose), outputs.len() as int);
    assert(all.take(outputs.len() as int) =~= outputs);
    assert(all.take(all.len() as int) =~= all);
}

/// Every kind of descriptor that is known has a line of its own, with what it
/// holds; any other has none.
pub proof fn a_descriptor_is_shown_by_its_kind(
    t: Seq<char>,
    w: u16,
    h: u16,
    pixel_clock: u32,
    clock: Seq<char>,
)
    ensures
        descriptor_text(DescriptorView::ProductName(t), clock) == Some("  product: "@ + t),
        descriptor_text(DescriptorView::SerialNumber(t), clock) == Some("  serial: "@ + t),
        descriptor_text(DescriptorView::UnspecifiedText(t), clock) == Some("  text: "@ + t),
        descriptor_text(DescriptorView::DetailedTiming(w, h, pixel_clock), clock) == Some(
            "  timing: "@ + text::decimal(w as nat) + "x"@ + text::decimal(h as nat) + " @"@ + clock
                + "MHz"@,
        ),
        descriptor_text(DescriptorView::RangeLimits, clock) == Some("  range-limits: yes"@),
        descriptor_text(DescriptorView::Other, clock) is None,
{
}

/// One more monitor in use adds arguments for each of its outputs, behind those of
/// the others: the output, the size of the monitor as its mode, and its place.
pub proof fn every_output_in_use_is_listed(ms: Seq<ActiveView>, m: ActiveView)
    ensures
        active_fragments(seq![], 0).len() == 0,
        active_fragments(ms.push(m), ms.len() + 1) == active_fragments(ms, ms.len()) + Seq::new(
            m.outputs.len(),
            |i: int|
                "--output "@ + m.outputs[i] + " --mode "@ + text::signed_decimal(m.width_px) + "x"@
                    + text::signed_decimal(m.height_px) + " --pos "@ + text::signed_decimal(m.x)
                    + "x"@ + text::signed_decimal(m.y),
        ),
{
    lemma_active_prefix(ms, m, ms.len());
    assert(m.fragments(m.outputs.len()) =~= Seq::new(
        m.outputs.len(),
        |i: int|
            "--output "@ + m.outputs[i] + " --mode "@ + text::signed_decimal(m.width_px) + "x"@
                + text::signed_decimal(m.height_px) + " --pos "@ + text::signed_decimal(m.x) + "x"@
                + text::signed_decimal(m.y),
    ));
}

/// The arguments of the first monitors do not depend on those behind them.
proof fn lemma_active_prefix(ms: Seq<ActiveView>, m: ActiveView, n: nat)
    requires
        n <= ms.len(),
    ensures
        active_fragments(ms.push(m), n) == active_fragments(ms, n),
    decreases n,
{
    if n > 0 {
        lemma_active_prefix(ms, m, (n - 1) as nat);
    }
}

} // verus!
