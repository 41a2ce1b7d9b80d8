use mon_mapper::apply::{Action, ApplyRun, Event};
use mon_mapper::assignment::{
    arrange, set_config, set_config_reported, IdentifiedOutput, MatchReport, Outcome,
};
use mon_mapper::config::ConfigError;
use mon_mapper::descriptors::{identify, EdidDescriptor, SearchDescriptors};
use mon_mapper::displays::DisplaysConfiguration;
use mon_mapper::monitor::MonitorDefinition;
use mon_mapper::plan::{choose_mode, plan_layout, plan_power, PlanError, Step};
use mon_mapper::screen::{
    available_line, available_outputs, current_command, descriptor_line, describe_output,
    extract_descriptors, find_mode, largest_mode, mode_by_id, ActiveMonitor, Mode, Output,
};
use mon_mapper::text::{join_texts, push_decimal, push_signed};

fn text_block(kind: u8, text: &str) -> Vec<u8> {
    let mut block: Vec<u8> = vec![0, 0, 0, kind, 0];
    block.extend_from_slice(text.as_bytes());
    if block.len() < 18 {
        block.push(0x0a);
    }
    block.resize(18, 0x20);
    block
}

fn serial_block(sn: &str) -> Vec<u8> {
    text_block(0xff, sn)
}

fn product_block(name: &str) -> Vec<u8> {
    text_block(0xfc, name)
}

fn timing_block() -> Vec<u8> {
    vec![
        0x21, 0x39, 0x90, 0x30, 0x62, 0x1a, 0x27, 0x40, 0x68, 0xb0, 0x36, 0x00, 0xda, 0x28, 0x11,
        0x00, 0x00, 0x1c,
    ]
}

fn edid_of(blocks: Vec<Vec<u8>>) -> Vec<u8> {
    let mut edid: Vec<u8> = vec![0x00, 0xff, 0xff, 0xff, 0xff, 0xff, 0xff, 0x00];
    edid.resize(54, 1);
    for block in &blocks {
        edid.extend_from_slice(block);
    }
    while edid.len() < 126 {
        edid.extend_from_slice(&text_block(0x10, ""));
    }
    edid.push(0);
    edid.push(0);
    edid
}

fn output(name: &str, current: Option<u64>, edid: Option<Vec<u8>>) -> Output {
    Output {
        name: name.into(),
        connected: true,
        current_mode: current,
        modes: vec![10, 99, 11, 12],
        mm_width: 600,
        mm_height: 340,
        edid,
    }
}

fn modes() -> Vec<Mode> {
    vec![
        Mode { xid: 10, width: 1920, height: 1080 },
        Mode { xid: 11, width: 2560, height: 1440 },
        Mode { xid: 12, width: 2560, height: 1440 },
        Mode { xid: 13, width: 3840, height: 2160 },
    ]
}

fn entry(sn: &str, order: u8, w: usize, h: usize) -> MonitorDefinition {
    MonitorDefinition::from_id(sn, false, order, w, h)
}

fn on_output(order: u8, w: usize, h: usize, name: &str) -> MonitorDefinition {
    let mut m = MonitorDefinition::from_id("S", true, order, w, h);
    m.name = Some(name.into());
    m
}

fn config_of(displays: Vec<MonitorDefinition>) -> DisplaysConfiguration {
    DisplaysConfiguration { displays, profile: "test".into() }
}

fn identified(name: &str, sn: &str) -> IdentifiedOutput {
    IdentifiedOutput {
        name: name.into(),
        id: SearchDescriptors { sn: Some(sn.into()), product: None },
    }
}

#[test]
fn numbers_are_written_in_decimal() {
    let mut out = String::new();
    for n in [0, 7, 10, 99, 100, 1080, u64::MAX] {
        push_decimal(&mut out, n);
        out.push(' ');
    }
    assert_eq!(out, "0 7 10 99 100 1080 18446744073709551615 ");
    let mut signed = String::new();
    for n in [0, -1, 42, -1920, i32::MIN, i32::MAX] {
        push_signed(&mut signed, n);
        signed.push(' ');
    }
    assert_eq!(signed, "0 -1 42 -1920 -2147483648 2147483647 ");
}

#[test]
fn texts_are_joined() {
    assert_eq!(join_texts(&vec![], ", "), "");
    assert_eq!(join_texts(&vec!["a".into()], ", "), "a");
    assert_eq!(join_texts(&vec!["a".into(), "".into(), "b".into()], ", "), "a, , b");
}

#[test]
fn edid_gives_serial_and_product() {
    let o = output("DP-1", None, Some(edid_of(vec![
        timing_block(),
        product_block("SyncMaster"),
        serial_block("HS3P701105"),
        serial_block("SECOND"),
    ])));
    let id = extract_descriptors(&o).unwrap();
    assert_eq!(id.sn.as_deref(), Some("HS3P701105"));
    assert_eq!(id.product.as_deref(), Some("SyncMaster"));
}

#[test]
fn edid_with_product_alone() {
    let o = output("DP-1", None, Some(edid_of(vec![product_block("G236HL")])));
    let id = extract_descriptors(&o).unwrap();
    assert_eq!(id.sn, None);
    assert_eq!(id.product.as_deref(), Some("G236HL"));
}

#[test]
fn edid_without_names_identifies_nothing() {
    let plain = output("DP-1", None, Some(edid_of(vec![timing_block()])));
    let cut = output("DP-1", None, Some(edid_of(vec![serial_block("S")])[..100].to_vec()));
    let noise = output("DP-1", None, Some(vec![1; 128]));
    let none = output("DP-1", None, None);
    assert!(extract_descriptors(&plain).is_none());
    assert!(extract_descriptors(&cut).is_none());
    assert!(extract_descriptors(&noise).is_none());
    assert!(extract_descriptors(&none).is_none());
}

#[test]
fn first_descriptor_of_a_kind_identifies() {
    let id = identify(&vec![
        EdidDescriptor::Other,
        EdidDescriptor::UnspecifiedText("T".into()),
        EdidDescriptor::ProductName("P1".into()),
        EdidDescriptor::SerialNumber("S1".into()),
        EdidDescriptor::SerialNumber("S2".into()),
        EdidDescriptor::ProductName("P2".into()),
    ])
    .unwrap();
    assert_eq!(id.sn.as_deref(), Some("S1"));
    assert_eq!(id.product.as_deref(), Some("P1"));
    assert!(identify(&vec![EdidDescriptor::RangeLimits]).is_none());
    assert!(identify(&vec![]).is_none());
}

#[test]
fn modes_are_found_by_id_and_size() {
    let o = output("DP-1", None, None);
    assert_eq!(mode_by_id(&modes(), 11), Some(modes()[1]));
    assert_eq!(mode_by_id(&modes(), 99), None);
    assert_eq!(find_mode(&modes(), &o, 2560, 1440), Some(modes()[1]));
    assert_eq!(find_mode(&modes(), &o, 3840, 2160), None);
    assert_eq!(find_mode(&modes(), &o, 2560, 1080), None);
}

#[test]
fn largest_mode_is_the_last_of_equals() {
    let mut o = output("DP-1", None, None);
    assert_eq!(largest_mode(&modes(), &o).map(|m| m.xid), Some(12));
    o.modes = vec![12, 11, 10];
    assert_eq!(largest_mode(&modes(), &o).map(|m| m.xid), Some(11));
    o.modes = vec![99];
    assert_eq!(largest_mode(&modes(), &o), None);
    let huge = vec![Mode { xid: 1, width: u32::MAX, height: u32::MAX }, modes()[0]];
    o.modes = vec![1, 10];
    assert_eq!(largest_mode(&huge, &o).map(|m| m.xid), Some(1));
}

#[test]
fn available_output_is_described() {
    let known = output("DP-1", None, Some(edid_of(vec![
        product_block("SyncMaster"),
        serial_block("HS3P701105"),
    ])));
    assert_eq!(
        available_line(&known, &modes()),
        "DP-1  serial=HS3P701105  product=SyncMaster  max=2560x1440  size=600x340mm"
    );
    let unknown = output("HDMI-1", None, None);
    assert_eq!(
        available_line(&unknown, &vec![]),
        "HDMI-1  serial=UNKNOWN  product=UNKNOWN  max=0x0  size=600x340mm"
    );
    let half = Some(SearchDescriptors { sn: Some("S".into()), product: None });
    assert_eq!(
        describe_output(&unknown, &half, &modes()),
        "HDMI-1  serial=S  product=UNKNOWN  max=2560x1440  size=600x340mm"
    );
}

#[test]
fn only_connected_outputs_are_reported() {
    let mut off = output("DP-2", None, None);
    off.connected = false;
    let outputs = vec![
        off,
        output("DP-1", None, Some(edid_of(vec![timing_block(), serial_block("S")]))),
        output("DP-3", None, None),
    ];
    let brief = available_outputs(&outputs, &modes(), false);
    assert_eq!(brief.len(), 2);
    assert!(brief[0].line.starts_with("DP-1  serial=S"));
    assert!(brief[0].details.is_empty());
    let full = available_outputs(&outputs, &modes(), true);
    assert_eq!(full.len(), 2);
    assert_eq!(full[0].details.len(), 4);
    assert!(full[1].details.is_empty());
    let lines: Vec<String> =
        full[0].details.iter().filter_map(|d| descriptor_line(d, "1462")).collect();
    assert_eq!(lines, ["  timing: 1680x1050 @1462MHz", "  serial: S"]);
    assert!(matches!(full[0].details[0], EdidDescriptor::DetailedTiming(1680, 1050, 146250)));
}

#[test]
fn descriptors_are_described() {
    let line = |d: EdidDescriptor| descriptor_line(&d, "148");
    assert_eq!(line(EdidDescriptor::ProductName("P".into())).unwrap(), "  product: P");
    assert_eq!(line(EdidDescriptor::SerialNumber("S".into())).unwrap(), "  serial: S");
    assert_eq!(line(EdidDescriptor::UnspecifiedText("T".into())).unwrap(), "  text: T");
    assert_eq!(line(EdidDescriptor::RangeLimits).unwrap(), "  range-limits: yes");
    assert_eq!(
        line(EdidDescriptor::DetailedTiming(1920, 1080, 14850)).unwrap(),
        "  timing: 1920x1080 @148MHz"
    );
    assert_eq!(line(EdidDescriptor::Other), None);
}

#[test]
fn edid_text_and_range_descriptors_are_read() {
    let outputs = vec![output("DP-1", None, Some(edid_of(vec![
        text_block(0xfe, "hello"),
        text_block(0xfd, ""),
        text_block(0x42, "?"),
    ])))];
    let full = available_outputs(&outputs, &modes(), true);
    let lines: Vec<String> =
        full[0].details.iter().filter_map(|d| descriptor_line(d, "")).collect();
    assert_eq!(lines, ["  text: hello", "  range-limits: yes"]);
}

#[test]
fn current_layout_as_a_command() {
    let monitors = vec![
        ActiveMonitor {
            x: 0,
            y: 0,
            width_px: 1920,
            height_px: 1080,
            outputs: vec!["DP-1".into(), "DP-2".into()],
        },
        ActiveMonitor { x: 5, y: 5, width_px: 1, height_px: 1, outputs: vec![] },
        ActiveMonitor {
            x: 1920,
            y: -100,
            width_px: 2560,
            height_px: 1440,
            outputs: vec!["HDMI-1".into()],
        },
    ];
    assert_eq!(
        current_command(&monitors),
        "xrandr --output DP-1 --mode 1920x1080 --pos 0x0 --output DP-2 --mode 1920x1080 --pos 0x0 \
         --output HDMI-1 --mode 2560x1440 --pos 1920x-100"
    );
    assert_eq!(current_command(&vec![]), "xrandr ");
}

fn told(report: &MatchReport) -> String {
    let outcome = match &report.outcome {
        Outcome::Skipped => "skipped".to_string(),
        Outcome::BySerial(sn) => format!("serial {sn}"),
        Outcome::ByProduct(product) => format!("product {product}"),
        Outcome::Refused(id, error) => format!("{:?} {:?} {}", id.sn, id.product, error.message()),
    };
    format!("{}: {outcome}", report.output)
}

#[test]
fn every_connected_output_is_reported_on() {
    let mut one = entry("S1", 0, 1920, 1080);
    one.product = Some("P".into());
    let mut two = entry("", 1, 1920, 1080);
    two.sn = None;
    two.product = Some("Q".into());
    let mut unplugged = output("DP-9", None, Some(edid_of(vec![serial_block("S1")])));
    unplugged.connected = false;
    let outputs = vec![
        unplugged,
        output("DP-1", None, Some(edid_of(vec![serial_block("S1"), product_block("P")]))),
        output("DP-2", None, None),
        output("DP-3", None, Some(edid_of(vec![serial_block("S3"), product_block("Q")]))),
        output("DP-4", None, Some(edid_of(vec![product_block("Q")]))),
    ];
    let (reports, fitted) = set_config_reported(config_of(vec![one, two]), &outputs);
    let lines: Vec<String> = reports.iter().map(told).collect();
    assert_eq!(
        lines,
        [
            "DP-1: serial S1",
            "DP-2: skipped",
            "DP-3: product Q",
            "DP-4: None Some(\"Q\") no config match for Q",
        ]
    );
    let names: Vec<Option<String>> = fitted.unwrap().displays.into_iter().map(|m| m.name).collect();
    assert_eq!(names, [Some("DP-1".into()), Some("DP-3".into()), Some("DP-4".into())]);
}

#[test]
fn refusals_are_reported_where_no_monitor_is_available() {
    let mut a = entry("", 0, 1, 1);
    a.sn = None;
    a.product = Some("P".into());
    let b = a.clone();
    let outputs = vec![output("DP-1", None, Some(edid_of(vec![product_block("P")])))];
    let (reports, fitted) = set_config_reported(config_of(vec![a, b]), &outputs);
    assert!(matches!(fitted, Err(ConfigError::NoAvailableMonitor)));
    assert_eq!(
        told(&reports[0]),
        "DP-1: None Some(\"P\") Ambiguous product match 'P' for output DP-1: 2 config entries match. \
         Use serial numbers instead."
    );
}

#[test]
fn taking_in_an_output_says_what_became_of_it() {
    let mut config = config_of(vec![entry("S1", 0, 1920, 1080)]);
    let first = config.take_in(&identified("DP-1", "S1"));
    assert!(matches!(first, Outcome::BySerial(sn) if sn == "S1"));
    let second = config.take_in(&identified("DP-2", "S2"));
    assert!(matches!(second, Outcome::Refused(id, _) if id.sn.as_deref() == Some("S2")));
    assert_eq!(config.displays[1], MonitorDefinition::empty("DP-2"));
}

#[test]
fn profile_is_fitted_to_the_outputs() {
    let preset = config_of(vec![
        entry("S2", 2, 1920, 1080),
        entry("S1", 1, 2560, 1440),
        entry("S0", 0, 1280, 720),
    ]);
    let outputs = vec![
        output("DP-1", None, Some(edid_of(vec![serial_block("S1")]))),
        output("DP-2", None, Some(edid_of(vec![serial_block("STRANGER")]))),
        output("DP-3", None, None),
        output("DP-4", None, Some(edid_of(vec![serial_block("S2")]))),
    ];
    let fitted = set_config(preset, &outputs).unwrap();
    assert_eq!(fitted.profile, "test");
    let names: Vec<Option<&str>> = fitted.displays.iter().map(|m| m.name.as_deref()).collect();
    assert_eq!(names, [None, Some("DP-1"), Some("DP-4"), Some("DP-2")]);
    let available: Vec<bool> = fitted.displays.iter().map(|m| m.available).collect();
    assert_eq!(available, [false, true, true, false]);
    assert_eq!(fitted.displays[3], MonitorDefinition::empty("DP-2"));
    assert_eq!(
        fitted.xrandr(),
        " --output DP-1 --mode 2560x1440 --pos 1280x0 \
         --output DP-4 --mode 1920x1080 --pos 3840x0 --output DP-2 --off"
    );
}

#[test]
fn placeholders_follow_entries_of_the_last_order() {
    let preset = config_of(vec![entry("S255", 255, 800, 600), entry("S1", 1, 1920, 1080)]);
    let outputs = vec![
        identified("DP-1", "STRANGER"),
        identified("DP-2", "S255"),
        identified("DP-3", "OTHER"),
        identified("DP-4", "S1"),
    ];
    let fitted = arrange(preset, &outputs).unwrap();
    let names: Vec<Option<&str>> = fitted.displays.iter().map(|m| m.name.as_deref()).collect();
    assert_eq!(names, [Some("DP-4"), Some("DP-2"), Some("DP-1"), Some("DP-3")]);
    let enabled: Vec<bool> = fitted.displays.iter().map(|m| m.is_enabled()).collect();
    assert_eq!(enabled, [true, true, false, false]);
}

#[test]
fn profile_without_attached_monitors_is_an_error() {
    let preset = config_of(vec![entry("S1", 0, 1920, 1080)]);
    let err = arrange(preset.clone(), &vec![identified("DP-1", "STRANGER")]).unwrap_err();
    assert!(matches!(err, ConfigError::NoAvailableMonitor));
    assert_eq!(err.message(), "No available monitor");
    assert!(arrange(preset.clone(), &vec![]).is_err());
    assert!(set_config(preset.clone(), &vec![]).is_err());
    assert!(arrange(preset, &vec![identified("DP-1", "S1")]).is_ok());
}

#[test]
fn entries_keep_what_describes_them() {
    let mut preset = config_of(vec![entry("S1", 3, 1920, 1080), entry("S2", 1, 800, 600)]);
    preset.assign_outputs(&vec![identified("DP-1", "S2"), identified("DP-2", "S9")]);
    assert_eq!(preset.displays.len(), 3);
    assert_eq!(preset.displays[0], entry("S1", 3, 1920, 1080));
    assert_eq!(preset.displays[1].sn.as_deref(), Some("S2"));
    assert_eq!((preset.displays[1].order, preset.displays[1].width_px), (1, 800));
    assert_eq!(preset.displays[2], MonitorDefinition::empty("DP-2"));
    assert!(preset.any_available());
}

#[test]
fn outputs_go_off_and_on() {
    let config = config_of(vec![
        on_output(0, 1920, 1080, "DP-1"),
        on_output(1, 1920, 1080, "DP-2"),
        on_output(2, 1920, 1080, "GONE"),
    ]);
    let mut unplugged = output("DP-4", Some(10), None);
    unplugged.connected = false;
    let outputs = vec![
        output("DP-2", None, None),
        output("DP-3", Some(10), None),
        unplugged,
        output("DP-1", Some(10), None),
        output("DP-5", None, None),
    ];
    let plan = plan_power(&config, &outputs);
    assert_eq!(plan.steps, [Step::Disable(1), Step::Enable(0)]);
    assert!(plan.error.is_none());
}

#[test]
fn unavailable_monitor_keeps_no_output_on() {
    let mut m = on_output(0, 1920, 1080, "DP-1");
    m.available = false;
    let plan = plan_power(&config_of(vec![m]), &vec![output("DP-1", Some(10), None)]);
    assert_eq!(plan.steps, [Step::Disable(0)]);
}

#[test]
fn available_monitor_without_output_stops_the_plan() {
    let mut m = on_output(0, 1920, 1080, "DP-1");
    m.name = None;
    m.product = Some("P".into());
    let config = config_of(vec![m, on_output(1, 1920, 1080, "DP-2")]);
    let outputs = vec![output("DP-1", Some(10), None), output("DP-2", None, None)];
    let plan = plan_power(&config, &outputs);
    assert_eq!(plan.steps, [Step::Disable(0)]);
    let error = plan.error.unwrap();
    assert!(matches!(&error, PlanError::NoOutputName { sn: Some(s), .. } if s == "S"));
    assert_eq!(error.message("x/y"), "No output name for monitor x/y");
    let layout = plan_layout(&config, &modes(), &outputs);
    assert!(layout.steps.is_empty());
    assert!(matches!(layout.error, Some(PlanError::NoOutputName { .. })));
}

#[test]
fn layout_sets_modes_and_places_side_by_side() {
    let config = config_of(vec![
        on_output(0, 2560, 1440, "DP-1"),
        entry("OFF", 1, 800, 600),
        on_output(2, 1920, 1080, "DP-2"),
        on_output(3, 2560, 1440, "DP-3"),
    ]);
    let outputs = vec![
        output("DP-3", None, None),
        output("DP-1", Some(10), None),
        output("DP-2", Some(10), None),
    ];
    let plan = plan_layout(&config, &modes(), &outputs);
    assert_eq!(
        plan.steps,
        [
            Step::SetMode(1, modes()[1]),
            Step::PlaceRightOf(2, 1),
            Step::PlaceRightOf(0, 2),
        ]
    );
    assert!(plan.error.is_none());
}

#[test]
fn layout_errors() {
    let one = |w: usize, h: usize, name: &str| config_of(vec![
        on_output(0, 1920, 1080, "DP-1"),
        on_output(1, w, h, name),
    ]);
    let outputs = vec![output("DP-1", Some(11), None), output("DP-2", Some(77), None)];
    let gone = plan_layout(&one(1920, 1080, "DP-9"), &modes(), &outputs);
    assert_eq!(gone.steps, [Step::SetMode(0, modes()[0])]);
    assert!(matches!(&gone.error, Some(PlanError::OutputNotFound(n)) if n == "DP-9"));
    assert_eq!(gone.error.unwrap().message(""), "Output 'DP-9' not found");
    let strange = plan_layout(&one(1920, 1080, "DP-2"), &modes(), &outputs);
    assert!(matches!(strange.error, Some(PlanError::UnknownMode(77))));
    assert_eq!(strange.error.unwrap().message(""), "No mode found with xid 77");
    let large = plan_layout(&config_of(vec![on_output(0, 3840, 2160, "DP-1")]), &modes(), &outputs);
    assert!(matches!(
        large.error,
        Some(PlanError::NoSuchMode { width: 3840, height: 2160, .. })
    ));
    assert_eq!(large.error.unwrap().message(""), "No mode 3840x2160 available for DP-1");
}

#[test]
fn mode_is_changed_only_where_the_size_differs() {
    let m = on_output(0, 2560, 1440, "DP-1");
    let mode = |current: Option<u64>| choose_mode(&modes(), &output("DP-1", current, None), &m);
    assert_eq!(mode(None).unwrap(), None);
    assert_eq!(mode(Some(12)).unwrap(), None);
    assert_eq!(mode(Some(10)).unwrap(), Some(modes()[1]));
}

fn answer(action: &Action, fresh: &Vec<Output>) -> Option<Event> {
    match action {
        Action::Make(_) => Some(Event::Ready),
        Action::FetchOutputs => Some(Event::Outputs(fresh.clone())),
        _ => None,
    }
}

fn run_to_the_end(run: &mut ApplyRun, fresh: Vec<Output>) -> Vec<String> {
    let mut seen: Vec<String> = Vec::new();
    let mut event = Event::Ready;
    loop {
        let action = run.advance(event);
        seen.push(match &action {
            Action::Make(step) => format!("{step:?}"),
            Action::FetchOutputs => "fetch".into(),
            Action::Finish => "finish".into(),
            Action::Fail(error) => error.message(""),
            Action::Abort => "abort".into(),
        });
        match answer(&action, &fresh) {
            Some(next) => event = next,
            None => return seen,
        }
    }
}

#[test]
fn run_fetches_outputs_after_a_change() {
    let config = config_of(vec![
        on_output(0, 2560, 1440, "DP-1"),
        on_output(1, 1920, 1080, "DP-2"),
    ]);
    let before = vec![output("DP-1", None, None), output("DP-2", Some(10), None)];
    let after = vec![output("DP-1", Some(10), None), output("DP-2", Some(10), None)];
    let mut run = ApplyRun::start(config, modes(), before);
    assert_eq!(
        run_to_the_end(&mut run, after),
        [
            "Enable(0)",
            "fetch",
            "SetMode(0, Mode { xid: 11, width: 2560, height: 1440 })",
            "PlaceRightOf(1, 0)",
            "finish",
        ]
    );
    assert!(matches!(run.advance(Event::Ready), Action::Abort));
}

#[test]
fn settled_screen_is_only_placed() {
    let config = config_of(vec![
        on_output(0, 2560, 1440, "DP-1"),
        on_output(1, 1920, 1080, "DP-2"),
    ]);
    let outputs = vec![output("DP-1", Some(11), None), output("DP-2", Some(10), None)];
    let mut run = ApplyRun::start(config, modes(), outputs);
    assert_eq!(run_to_the_end(&mut run, vec![]), ["PlaceRightOf(1, 0)", "finish"]);
}

#[test]
fn run_ends_with_the_first_failure() {
    let config = config_of(vec![on_output(0, 2560, 1440, "DP-1")]);
    let outputs = vec![output("DP-1", None, None), output("DP-2", Some(10), None)];
    let mut run = ApplyRun::start(config, modes(), outputs);
    assert!(matches!(run.advance(Event::Ready), Action::Make(Step::Disable(1))));
    assert!(matches!(run.advance(Event::Failed), Action::Abort));
    assert!(matches!(run.advance(Event::Ready), Action::Abort));
    assert!(matches!(run.advance(Event::Outputs(vec![])), Action::Abort));
}

#[test]
fn run_fails_where_the_plan_does() {
    let config = config_of(vec![on_output(0, 800, 600, "DP-1")]);
    let outputs = vec![output("DP-1", Some(10), None)];
    let mut run = ApplyRun::start(config, modes(), outputs);
    assert_eq!(run_to_the_end(&mut run, vec![]), ["No mode 800x600 available for DP-1"]);
    assert!(matches!(run.advance(Event::Ready), Action::Abort));
}

#[test]
fn run_asks_again_until_outputs_come() {
    let config = config_of(vec![on_output(0, 1920, 1080, "DP-1")]);
    let mut run = ApplyRun::start(config, modes(), vec![output("DP-1", None, None)]);
    assert!(matches!(run.advance(Event::Ready), Action::Make(Step::Enable(0))));
    assert!(matches!(run.advance(Event::Ready), Action::FetchOutputs));
    assert!(matches!(run.advance(Event::Ready), Action::FetchOutputs));
    let fresh = vec![output("DP-1", Some(10), None)];
    assert!(matches!(run.advance(Event::Outputs(fresh)), Action::Finish));
}
