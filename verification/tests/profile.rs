use mon_mapper::descriptors::SearchDescriptors;
use mon_mapper::displays::{DisplaysConfiguration, MatchError};
use mon_mapper::monitor::MonitorDefinition;
use mon_mapper::ordering::sort_monitors;
use std::cmp::Ordering;

fn make_monitor(sn: &str, order: u8, w: usize, h: usize, name: Option<&str>) -> MonitorDefinition {
    let mut m = MonitorDefinition::from_id(sn, name.is_some(), order, w, h);
    m.name = name.map(String::from);
    m
}

fn build_config(count: usize) -> DisplaysConfiguration {
    let mut cfg = DisplaysConfiguration::new();
    for i in 0..count {
        cfg.add(make_monitor(
            &format!("SN{i}"),
            i as u8,
            1920 + (i * 640),
            1080,
            Some(&format!("DP-{i}")),
        ));
    }
    cfg
}

fn by_serial(sn: &str) -> SearchDescriptors {
    SearchDescriptors { sn: Some(sn.into()), product: None }
}

fn by_product(product: &str) -> SearchDescriptors {
    SearchDescriptors { sn: None, product: Some(product.into()) }
}

fn of_product(product: &str, order: u8) -> MonitorDefinition {
    let mut m = MonitorDefinition::from_id("X", false, order, 2560, 1440);
    m.sn = None;
    m.product = Some(product.into());
    m
}

#[test]
fn xrand_enabled_output() {
    let m = make_monitor("ABC", 0, 2560, 1440, Some("DP-1"));
    assert_eq!(
        m.xrand(true, 0, 0),
        "--output DP-1 --mode 2560x1440 --pos 0x0"
    );
}

#[test]
fn xrand_enabled_with_offset() {
    let m = make_monitor("ABC", 0, 2560, 1440, Some("DP-2"));
    assert_eq!(
        m.xrand(true, 2560, 0),
        "--output DP-2 --mode 2560x1440 --pos 2560x0"
    );
}

#[test]
fn xrand_disabled_output() {
    let m = make_monitor("ABC", 0, 2560, 1440, Some("HDMI-1"));
    assert_eq!(m.xrand(false, 0, 0), "--output HDMI-1 --off");
}

#[test]
fn xrand_missing_name_returns_empty() {
    let m = MonitorDefinition::from_id("ABC", false, 0, 2560, 1440);
    assert_eq!(m.xrand(true, 0, 0), "");
}

#[test]
fn empty_monitor_has_zero_dimensions() {
    let m = MonitorDefinition::empty("DP-3");
    assert_eq!(m.width_px, 0);
    assert_eq!(m.height_px, 0);
    assert_eq!(m.name, Some(String::from("DP-3")));
    assert!(!m.available);
}

#[test]
fn empty_monitor_sorts_last_and_is_anonymous() {
    let m = MonitorDefinition::empty("DP-3");
    assert_eq!(m.order, u8::MAX);
    assert_eq!(m.sn, None);
    assert_eq!(m.product, None);
}

#[test]
fn xrandr_zero_monitors() {
    let cfg = build_config(0);
    assert_eq!(cfg.xrandr(), "");
}

#[test]
fn xrandr_single_monitor() {
    let cfg = build_config(1);
    assert_eq!(cfg.xrandr(), "--output DP-0 --mode 1920x1080 --pos 0x0");
}

#[test]
fn xrandr_two_monitors_offsets_accumulate() {
    let cfg = build_config(2);
    let cmd = cfg.xrandr();
    assert!(cmd.contains("--output DP-0 --mode 1920x1080 --pos 0x0"));
    assert!(cmd.contains("--output DP-1 --mode 2560x1080 --pos 1920x0"));
}

#[test]
fn xrandr_two_monitors_exact() {
    assert_eq!(
        build_config(2).xrandr(),
        "--output DP-0 --mode 1920x1080 --pos 0x0 --output DP-1 --mode 2560x1080 --pos 1920x0"
    );
}

#[test]
fn xrandr_six_monitors_all_present() {
    let cfg = build_config(6);
    let cmd = cfg.xrandr();
    for i in 0..6 {
        assert!(cmd.contains(&format!("--output DP-{i}")), "missing DP-{i}");
    }
    let fragment_count = cmd.matches("--output").count();
    assert_eq!(fragment_count, 6);
}

#[test]
fn xrandr_offsets_accumulate_correctly() {
    let mut cfg = DisplaysConfiguration::new();
    let widths = [1920, 2560, 3840];
    for (i, &w) in widths.iter().enumerate() {
        cfg.add(make_monitor(
            &format!("SN{i}"),
            i as u8,
            w,
            1080,
            Some(&format!("DP-{i}")),
        ));
    }
    let cmd = cfg.xrandr();
    assert!(cmd.contains("--pos 0x0"));
    assert!(cmd.contains("--pos 1920x0"));
    assert!(cmd.contains("--pos 4480x0"));
}

#[test]
fn xrandr_disabled_monitors_dont_add_offset() {
    let mut cfg = DisplaysConfiguration::new();
    cfg.add(make_monitor("A", 0, 2560, 1440, Some("DP-1")));
    cfg.add(MonitorDefinition::empty("DP-2"));
    cfg.add(make_monitor("C", 2, 1920, 1080, Some("DP-3")));
    let cmd = cfg.xrandr();
    assert!(cmd.contains("--output DP-1 --mode 2560x1440 --pos 0x0"));
    assert!(cmd.contains("--output DP-2 --off"));
    assert!(cmd.contains("--output DP-3 --mode 1920x1080 --pos 2560x0"));
}

#[test]
fn xrandr_monitor_without_height_is_off_and_takes_no_width() {
    let mut cfg = DisplaysConfiguration::new();
    cfg.add(make_monitor("A", 0, 800, 0, Some("DP-1")));
    cfg.add(make_monitor("B", 1, 1920, 1080, Some("DP-2")));
    cfg.add(make_monitor("C", 2, 1280, 720, Some("DP-3")));
    assert_eq!(
        cfg.xrandr(),
        "--output DP-1 --off --output DP-2 --mode 1920x1080 --pos 0x0 \
         --output DP-3 --mode 1280x720 --pos 1920x0"
    );
    assert_eq!(cfg.total_width(), Some(1920 + 1280));
}

#[test]
fn xrandr_monitor_without_output_leaves_an_empty_part() {
    let mut cfg = DisplaysConfiguration::new();
    cfg.add(make_monitor("A", 0, 1920, 1080, None));
    cfg.add(make_monitor("B", 1, 1280, 720, Some("DP-2")));
    assert_eq!(cfg.xrandr(), " --output DP-2 --mode 1280x720 --pos 1920x0");
}

#[test]
fn total_width_adds_up_or_overflows() {
    assert_eq!(build_config(2).total_width(), Some(1920 + 2560));
    let mut cfg = DisplaysConfiguration::new();
    cfg.add(make_monitor("A", 0, usize::MAX, 1, None));
    assert_eq!(cfg.total_width(), Some(usize::MAX));
    cfg.add(make_monitor("OFF", 1, 1, 0, None));
    assert_eq!(cfg.total_width(), Some(usize::MAX));
    cfg.add(make_monitor("B", 2, 1, 1, None));
    assert_eq!(cfg.total_width(), None);
}

#[test]
fn match_by_sn() {
    let mut cfg = DisplaysConfiguration::new();
    cfg.add(MonitorDefinition::from_id("SN123", false, 0, 2560, 1440));
    let desc = SearchDescriptors { sn: Some("SN123".into()), product: None };
    cfg.update_from_descriptors(&desc, "DP-1").unwrap();
    assert_eq!(cfg.displays[0].name, Some(String::from("DP-1")));
    assert!(cfg.displays[0].available);
}

#[test]
fn match_by_product() {
    let mut cfg = DisplaysConfiguration::new();
    let mut mon = MonitorDefinition::from_id("OTHER", false, 0, 2560, 1440);
    mon.sn = None;
    mon.product = Some("LG IPS".into());
    cfg.add(mon);
    let desc = SearchDescriptors { sn: None, product: Some("LG IPS".into()) };
    cfg.update_from_descriptors(&desc, "DP-1").unwrap();
    assert_eq!(cfg.displays[0].name, Some(String::from("DP-1")));
    assert!(cfg.displays[0].available);
}

#[test]
fn match_unknown_returns_err() {
    let mut cfg = DisplaysConfiguration::new();
    cfg.add(MonitorDefinition::from_id("SN123", false, 0, 2560, 1440));
    let desc = SearchDescriptors { sn: Some("UNKNOWN".into()), product: None };
    assert!(cfg.update_from_descriptors(&desc, "DP-1").is_err());
}

#[test]
fn match_sn_with_multiple_monitors() {
    let mut cfg = build_config(4);
    for m in &mut cfg.displays {
        m.name = None;
        m.available = false;
    }
    let desc = SearchDescriptors { sn: Some("SN2".into()), product: None };
    cfg.update_from_descriptors(&desc, "HDMI-1").unwrap();
    assert_eq!(cfg.displays[2].name, Some(String::from("HDMI-1")));
    assert!(cfg.displays[2].available);
    assert!(cfg.displays[0].name.is_none());
    assert!(cfg.displays[1].name.is_none());
}

#[test]
fn match_ambiguous_product_errors() {
    let mut cfg = DisplaysConfiguration::new();
    let mut m1 = MonitorDefinition::from_id("X", false, 0, 2560, 1440);
    m1.sn = None;
    m1.product = Some("Same Product".into());
    let mut m2 = MonitorDefinition::from_id("Y", false, 1, 2560, 1440);
    m2.sn = None;
    m2.product = Some("Same Product".into());
    cfg.add(m1);
    cfg.add(m2);
    let desc = SearchDescriptors { sn: None, product: Some("Same Product".into()) };
    assert!(cfg.update_from_descriptors(&desc, "DP-1").is_err());
}

#[test]
fn ambiguous_match_changes_nothing_and_says_why() {
    let mut cfg = DisplaysConfiguration::new();
    cfg.add(of_product("P", 0));
    cfg.add(of_product("P", 1));
    let err = cfg.update_from_descriptors(&by_product("P"), "DP-1").unwrap_err();
    assert!(matches!(err, MatchError::Ambiguous { count: 2, .. }));
    assert_eq!(
        err.message(),
        "Ambiguous product match 'P' for output DP-1: 2 config entries match. Use serial numbers instead."
    );
    assert!(cfg.displays.iter().all(|m| m.name.is_none() && !m.available));
}

#[test]
fn missing_match_names_the_monitor() {
    let mut cfg = DisplaysConfiguration::new();
    let both = SearchDescriptors { sn: Some("S".into()), product: Some("P".into()) };
    let neither = SearchDescriptors { sn: None, product: None };
    let e1 = cfg.update_from_descriptors(&both, "DP-1").unwrap_err();
    let e2 = cfg.update_from_descriptors(&by_product("P"), "DP-1").unwrap_err();
    let e3 = cfg.update_from_descriptors(&neither, "DP-1").unwrap_err();
    assert!(matches!(e1, MatchError::Missing { .. }));
    assert_eq!(e1.message(), "no config match for S");
    assert_eq!(e2.message(), "no config match for P");
    assert_eq!(e3.message(), "no config match for unknown");
}

#[test]
fn serial_number_wins_over_product() {
    let mut cfg = DisplaysConfiguration::new();
    cfg.add(of_product("P", 0));
    cfg.add(MonitorDefinition::from_id("S", false, 1, 1920, 1080));
    let both = SearchDescriptors { sn: Some("S".into()), product: Some("P".into()) };
    cfg.update_from_descriptors(&both, "DP-1").unwrap();
    assert!(!cfg.displays[0].available);
    assert!(cfg.displays[1].available);
}

#[test]
fn unknown_serial_number_falls_back_to_product() {
    let mut cfg = DisplaysConfiguration::new();
    cfg.add(of_product("P", 0));
    let both = SearchDescriptors { sn: Some("S".into()), product: Some("P".into()) };
    cfg.update_from_descriptors(&both, "DP-1").unwrap();
    assert_eq!(cfg.displays[0].name.as_deref(), Some("DP-1"));
}

#[test]
fn claimed_product_is_not_matched_again() {
    let mut cfg = DisplaysConfiguration::new();
    cfg.add(of_product("P", 0));
    cfg.add(of_product("P", 1));
    cfg.displays[0].available = true;
    cfg.update_from_descriptors(&by_product("P"), "DP-1").unwrap();
    assert_eq!(cfg.displays[1].name.as_deref(), Some("DP-1"));
    assert!(cfg.update_from_descriptors(&by_product("P"), "DP-2").is_err());
}

#[test]
fn claimed_serial_number_is_matched_again() {
    let mut cfg = DisplaysConfiguration::new();
    cfg.add(MonitorDefinition::from_id("S", false, 0, 1920, 1080));
    cfg.update_from_descriptors(&by_serial("S"), "DP-1").unwrap();
    cfg.update_from_descriptors(&by_serial("S"), "DP-2").unwrap();
    assert_eq!(cfg.displays[0].name.as_deref(), Some("DP-2"));
}

#[test]
fn sort_by_order_with_varying_counts() {
    for count in 0..=6 {
        let mut cfg = DisplaysConfiguration::new();
        for i in (0..count).rev() {
            cfg.add(make_monitor(
                &format!("SN{i}"),
                i as u8,
                1920,
                1080,
                Some(&format!("DP-{i}")),
            ));
        }
        cfg.sort_by_order();
        let orders: Vec<u8> = cfg.displays.iter().map(|m| m.order).collect();
        let expected: Vec<u8> = (0..count as u8).collect();
        assert_eq!(orders, expected, "failed for count={count}");
    }
}

#[test]
fn sort_by_order_is_stable() {
    let mut cfg = DisplaysConfiguration::new();
    for (sn, order) in [("a", 2), ("b", 1), ("c", 2), ("d", 0), ("e", 1), ("f", 255)] {
        cfg.add(make_monitor(sn, order, 1, 1, None));
    }
    cfg.sort_by_order();
    let serials: Vec<&str> = cfg.displays.iter().filter_map(|m| m.sn.as_deref()).collect();
    assert_eq!(serials, ["d", "b", "e", "a", "c", "f"]);
    cfg.sort_by_order();
    let again: Vec<&str> = cfg.displays.iter().filter_map(|m| m.sn.as_deref()).collect();
    assert_eq!(again, ["d", "b", "e", "a", "c", "f"]);
}

#[test]
fn sort_monitors_agrees_with_the_standard_sort() {
    let mut state: u32 = 7;
    for len in 0..40usize {
        let mut ours: Vec<MonitorDefinition> = Vec::new();
        for i in 0..len {
            state = state.wrapping_mul(1664525).wrapping_add(1013904223);
            ours.push(make_monitor(&format!("SN{i}"), (state >> 28) as u8, 1, 1, None));
        }
        let mut theirs = ours.clone();
        theirs.sort_by_key(|m| m.order);
        sort_monitors(&mut ours);
        assert_eq!(ours, theirs);
    }
}

#[test]
fn monitor_ordering() {
    let a = make_monitor("A", 0, 2560, 1440, None);
    let b = make_monitor("B", 1, 2560, 1440, None);
    let c = make_monitor("C", 2, 2560, 1440, None);
    assert!(a < b);
    assert!(b < c);
}

#[test]
fn monitor_ordering_looks_at_order_alone() {
    let a = make_monitor("A", 1, 2560, 1440, None);
    let b = make_monitor("B", 1, 1, 1, Some("DP-1"));
    let c = make_monitor("A", 2, 2560, 1440, None);
    assert_eq!(a.cmp(&b), Ordering::Equal);
    assert_eq!(a.cmp(&c), Ordering::Less);
    assert_eq!(c.cmp(&a), Ordering::Greater);
    assert_eq!(a.partial_cmp(&b), Some(Ordering::Equal));
    assert_ne!(a, b);
}

#[test]
fn monitor_equality_ignores_available() {
    let mut a = make_monitor("A", 0, 2560, 1440, Some("DP-1"));
    let b = make_monitor("A", 0, 2560, 1440, Some("DP-1"));
    a.available = true;
    assert_eq!(a, b);
}

#[test]
fn monitor_equality_ignores_product_and_sees_the_rest() {
    let a = make_monitor("A", 0, 2560, 1440, Some("DP-1"));
    let mut b = a.clone();
    b.product = Some("P".into());
    b.available = false;
    assert_eq!(a, b);
    assert_ne!(a, make_monitor("B", 0, 2560, 1440, Some("DP-1")));
    assert_ne!(a, make_monitor("A", 1, 2560, 1440, Some("DP-1")));
    assert_ne!(a, make_monitor("A", 0, 2561, 1440, Some("DP-1")));
    assert_ne!(a, make_monitor("A", 0, 2560, 1441, Some("DP-1")));
    assert_ne!(a, make_monitor("A", 0, 2560, 1440, Some("DP-2")));
    assert_ne!(a, make_monitor("A", 0, 2560, 1440, None));
}
