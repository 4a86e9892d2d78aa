use kitsuvm::config::instance::{get_self_test_instances, Instance, Instances, Mode};
use kitsuvm::config::vip::{Item as ItemConfig, VIP as VipConfig};
use kitsuvm::config::{check_i_v_compat, check_i_v_d_compat, get_name_from_file_path};
use kitsuvm::diagnostic::{Diagnostic, Severity};
use kitsuvm::dut::utils::{Port, PortDirection, PortProperties, DUT};
use kitsuvm::render::vip::{get_render_vips, set_vips_port_dir, Item, ParseVIPError, VIP};

fn inst(name: &str, conn: &[&str], id: Option<u32>, mode: Mode) -> Instance {
    Instance {
        vip_name: name.to_string(),
        connected_to: conn.iter().map(|c| c.to_string()).collect(),
        id,
        mode,
    }
}

fn port(name: &str) -> Port {
    Port {
        name: name.to_string(),
        properties: PortProperties { direction: PortDirection::INOUT, dimensions: vec![] },
    }
}

fn vip(name: &str, ports: &[&str]) -> VIP {
    VIP {
        name: name.to_string(),
        ports: ports.iter().map(|p| port(p)).collect(),
        clock: None,
        reset: None,
        use_clock_block: true,
        item: Item { members: vec![], constraints: vec![] },
    }
}

fn vip_config(name: &str, ports: &[&str]) -> VipConfig {
    VipConfig {
        name: Some(name.to_string()),
        ports: ports.iter().map(|p| p.to_string()).collect(),
        clock: None,
        reset: None,
        use_clock_block: true,
        item: ItemConfig { members: vec![], constraints: vec![] },
    }
}

fn dut(ports: &[(&str, PortDirection)]) -> DUT {
    let mut d = DUT::new("top_dut".to_string());
    for (n, dir) in ports {
        d.insert_port(n.to_string(), PortProperties { direction: *dir, dimensions: vec![(7, 0)] });
    }
    d
}

fn ids(instances: &Instances) -> Vec<Option<u32>> {
    instances.instances.iter().map(|i| i.id).collect()
}

#[test]
fn auto_ids_skip_explicit_ones() {
    let mut instances = Instances::from(vec![
        inst("vipA", &[], None, Mode::Controller),
        inst("vipA", &[], Some(0), Mode::Controller),
        inst("vipA", &[], None, Mode::Controller),
    ]);
    let reports = instances.estimate_ids();
    assert!(reports.is_empty());
    assert_eq!(ids(&instances), vec![Some(1), Some(0), Some(2)]);
}

#[test]
fn duplicate_explicit_ids_are_reported_and_kept() {
    let mut instances = Instances::from(vec![
        inst("vipA", &[], Some(3), Mode::Controller),
        inst("vipA", &[], Some(3), Mode::Controller),
    ]);
    let reports = instances.estimate_ids();
    assert_eq!(reports, vec![Diagnostic::DuplicateId { instance: 1 }]);
    assert_eq!(reports[0].severity(), Severity::Error);
    assert_eq!(ids(&instances), vec![Some(3), Some(3)]);
}

#[test]
fn buckets_are_template_and_mode() {
    let mut instances = Instances::from(vec![
        inst("vipA", &[], None, Mode::Controller),
        inst("vipA", &[], None, Mode::Responder),
        inst("vipB", &[], None, Mode::Controller),
        inst("vipA", &[], Some(1), Mode::Responder),
        inst("vipA", &[], None, Mode::Responder),
        inst("vipA", &[], Some(3), Mode::Controller),
        inst("vipA", &[], None, Mode::Controller),
        inst("vipA", &[], None, Mode::Controller),
        inst("vipA", &[], None, Mode::Controller),
    ]);
    let reports = instances.estimate_ids();
    assert!(reports.is_empty());
    assert_eq!(
        ids(&instances),
        vec![Some(0), Some(0), Some(0), Some(1), Some(2), Some(3), Some(1), Some(2), Some(4)]
    );
}

#[test]
fn same_id_in_other_bucket_is_no_duplicate() {
    let instances = Instances::from(vec![
        inst("vipA", &[], Some(0), Mode::Controller),
        inst("vipA", &[], Some(0), Mode::Passive),
        inst("vipB", &[], Some(0), Mode::Controller),
        inst("vipA", &[], Some(0), Mode::Controller),
    ]);
    let (used, reports) = instances.get_already_used_ids();
    assert_eq!(reports, vec![Diagnostic::DuplicateId { instance: 3 }]);
    assert_eq!(used.entries.len(), 3);
}

#[test]
fn identified_instances_are_left_alone() {
    let mut instances = Instances::from(vec![
        inst("vipA", &["x"], Some(4), Mode::Controller),
        inst("vipA", &["y"], Some(0), Mode::Controller),
        inst("vipA", &["z"], Some(4), Mode::Responder),
    ]);
    let before = ids(&instances);
    assert!(instances.estimate_ids().is_empty());
    assert_eq!(ids(&instances), before);
}

#[test]
fn allocation_run_twice_changes_nothing() {
    let mut instances = Instances::from(vec![
        inst("vipA", &[], None, Mode::Controller),
        inst("vipA", &[], Some(1), Mode::Controller),
        inst("vipA", &[], None, Mode::Controller),
        inst("vipB", &[], None, Mode::Passive),
    ]);
    assert!(instances.estimate_ids().is_empty());
    let first = ids(&instances);
    assert_eq!(first, vec![Some(0), Some(1), Some(2), Some(0)]);
    assert!(instances.estimate_ids().is_empty());
    assert_eq!(ids(&instances), first);
}

#[test]
fn arity_is_checked_against_the_template() {
    let vips = vec![vip_config("v", &["a", "b"])];
    let instances = Instances::from(vec![
        inst("v", &["x", "y", "z"], Some(0), Mode::Controller),
        inst("v", &["x"], Some(1), Mode::Controller),
        inst("v", &["x", "y"], Some(2), Mode::Controller),
        inst("w", &[], Some(0), Mode::Controller),
    ]);
    let reports = check_i_v_compat(&instances, &vips);
    assert_eq!(
        reports,
        vec![
            Diagnostic::MoreConnections { instance: 0, declared: 2, connected: 3 },
            Diagnostic::FewerConnections { instance: 1, declared: 2, connected: 1 },
            Diagnostic::UnknownTemplate { instance: 3 },
        ]
    );
    assert_eq!(reports[0].severity(), Severity::Error);
    assert_eq!(reports[1].severity(), Severity::Warning);
    assert_eq!(reports[2].severity(), Severity::Warning);
}

#[test]
fn three_declared_two_connected_is_a_warning() {
    let vips = vec![vip_config("v", &["a", "b", "c"])];
    let instances = Instances::from(vec![inst("v", &["x", "y"], None, Mode::Responder)]);
    let reports = check_i_v_compat(&instances, &vips);
    assert_eq!(
        reports,
        vec![Diagnostic::FewerConnections { instance: 0, declared: 3, connected: 2 }]
    );
    assert_eq!(reports[0].severity(), Severity::Warning);
}

#[test]
fn last_template_of_a_name_counts() {
    let vips = vec![vip_config("v", &["a"]), vip_config("v", &["a", "b"])];
    let instances = Instances::from(vec![inst("v", &["x", "y"], None, Mode::Responder)]);
    assert!(check_i_v_compat(&instances, &vips).is_empty());
}

#[test]
fn hardware_ports_must_exist_and_be_claimed_once() {
    let d = dut(&[("x", PortDirection::INPUT), ("y", PortDirection::OUTPUT)]);
    let instances = Instances::from(vec![
        inst("v", &["x", "nope"], Some(0), Mode::Controller),
        inst("v", &["y", "x"], Some(1), Mode::Controller),
        inst("v", &["nope"], Some(2), Mode::Passive),
    ]);
    let reports = check_i_v_d_compat(&instances, &vec![], &d);
    assert_eq!(
        reports,
        vec![
            Diagnostic::UnknownHardwarePort { instance: 0, connection: 1 },
            Diagnostic::AlreadyConnected { instance: 1, connection: 1 },
            Diagnostic::UnknownHardwarePort { instance: 2, connection: 0 },
        ]
    );
}

#[test]
fn directions_follow_the_hardware_and_the_mode() {
    let d = dut(&[("x", PortDirection::OUTPUT), ("w", PortDirection::INPUT)]);
    let mut vips = vec![vip("v", &["p", "q"])];
    let instances = Instances::from(vec![
        inst("v", &["x"], Some(0), Mode::Controller),
        inst("v", &["w", "x"], Some(0), Mode::Responder),
        inst("v", &["x", "x"], Some(1), Mode::Controller),
    ]);
    let reports = set_vips_port_dir(&mut vips, &instances, &d);
    assert_eq!(vips[0].ports[0].properties.direction, PortDirection::INPUT);
    assert_eq!(vips[0].ports[1].properties.direction, PortDirection::OUTPUT);
    assert_eq!(reports, vec![Diagnostic::DirectionMismatch { vip: 0, port: 1, instance: 2 }]);
}

#[test]
fn passive_and_foreign_instances_do_not_resolve() {
    let d = dut(&[("x", PortDirection::INPUT), ("y", PortDirection::INOUT)]);
    let mut vips = vec![vip("v", &["p", "q", "r"]), vip("u", &["s"])];
    let instances = Instances::from(vec![
        inst("v", &["x", "y"], Some(0), Mode::Passive),
        inst("u", &["x"], Some(0), Mode::Controller),
        inst("v", &["y"], Some(0), Mode::Controller),
    ]);
    let reports = set_vips_port_dir(&mut vips, &instances, &d);
    assert_eq!(vips[0].ports[0].properties.direction, PortDirection::INOUT);
    assert_eq!(vips[1].ports[0].properties.direction, PortDirection::OUTPUT);
    assert_eq!(
        reports,
        vec![
            Diagnostic::DirectionNotSet { vip: 0, port: 1 },
            Diagnostic::DirectionNotSet { vip: 0, port: 2 },
        ]
    );
    assert_eq!(reports[0].severity(), Severity::Warning);
}

#[test]
fn responder_takes_the_hardware_direction() {
    let d = dut(&[("a", PortDirection::INPUT)]);
    let mut vips = vec![vip("v", &["p"])];
    let instances = Instances::from(vec![inst("v", &["a"], None, Mode::Responder)]);
    assert!(set_vips_port_dir(&mut vips, &instances, &d).is_empty());
    assert_eq!(vips[0].ports[0].properties.direction, PortDirection::INPUT);
}

#[test]
fn resolution_run_twice_changes_nothing() {
    let d = dut(&[("x", PortDirection::OUTPUT), ("y", PortDirection::INPUT)]);
    let mut vips = vec![vip("v", &["p", "q"])];
    let instances = Instances::from(vec![
        inst("v", &["x", "y"], Some(0), Mode::Controller),
        inst("v", &["y", "x"], Some(0), Mode::Responder),
    ]);
    assert!(set_vips_port_dir(&mut vips, &instances, &d).is_empty());
    let first: Vec<PortDirection> = vips[0].ports.iter().map(|p| p.properties.direction).collect();
    assert_eq!(first, vec![PortDirection::INPUT, PortDirection::OUTPUT]);
    assert!(set_vips_port_dir(&mut vips, &instances, &d).is_empty());
    let second: Vec<PortDirection> =
        vips[0].ports.iter().map(|p| p.properties.direction).collect();
    assert_eq!(second, first);
}

#[test]
fn self_test_instances_cover_every_mode() {
    let v = vip("v", &["a", "b"]);
    let instances = get_self_test_instances(&v);
    let modes: Vec<Mode> = instances.instances.iter().map(|i| i.mode).collect();
    assert_eq!(modes, vec![Mode::Controller, Mode::Passive, Mode::Responder]);
    for i in &instances.instances {
        assert_eq!(i.vip_name, "v");
        assert_eq!(i.connected_to, vec!["a".to_string(), "b".to_string()]);
        assert_eq!(i.id, Some(0));
    }
}

#[test]
fn templates_are_parsed() {
    let mut cfg = vip_config("v", &["a [3:0]", "b"]);
    cfg.clock = Some("clk".to_string());
    cfg.item.members = vec!["rand bit x".to_string(), "int y".to_string()];
    cfg.item.constraints = vec!["x == 1;".to_string()];
    let v = VIP::try_from(&cfg).unwrap();
    assert_eq!(v.name, "v");
    assert_eq!(v.ports.len(), 2);
    assert_eq!(v.ports[0].properties.dimensions, vec![(3, 0)]);
    assert_eq!(v.clock, Some("clk".to_string()));
    assert_eq!(v.reset, None);
    assert_eq!(v.item.members.len(), 2);
    assert!(v.item.members[0].is_randomized);
    assert_eq!(v.item.members[1].name, "y");
    assert_eq!(v.item.constraints, vec!["x == 1;".to_string()]);
    let all = get_render_vips(&vec![cfg]);
    assert_eq!(all.len(), 1);
    assert_eq!(all[0].ports[1].name, "b");
}

#[test]
fn template_errors_name_the_first_bad_descriptor() {
    let mut cfg = vip_config("v", &["a [3:0]", "b [x:0]"]);
    cfg.item.members = vec!["oops".to_string()];
    assert!(matches!(VIP::try_from(&cfg), Err(ParseVIPError::PortError(_))));
    cfg.ports = vec!["a".to_string()];
    assert!(matches!(VIP::try_from(&cfg), Err(ParseVIPError::MemberError(_))));
}

#[test]
fn names_come_from_file_paths() {
    assert_eq!(get_name_from_file_path("vips/uart.toml".to_string()), "uart");
    assert_eq!(get_name_from_file_path("a.b/c.d.e".to_string()), "c.d");
    assert_eq!(get_name_from_file_path("dir.x/plain".to_string()), "plain");
    assert_eq!(get_name_from_file_path("dut.sv".to_string()), "dut");
    assert_eq!(get_name_from_file_path("noext".to_string()), "noext");
}
