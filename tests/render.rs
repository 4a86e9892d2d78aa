use kitsuvm::cli::Args;
use kitsuvm::config::common::{default_dut_path, default_top_default_sequence};
use kitsuvm::config::instance::Instances;
use kitsuvm::config::project::default_dut;
use kitsuvm::config::template::agent::Agent as AgentConfig;
use kitsuvm::config::template::interface::Interface;
use kitsuvm::config::template::item::Item as TemplateItem;
use kitsuvm::config::template::Template;
use kitsuvm::config::common::Common;
use kitsuvm::dut::utils::{Port, PortDirection, PortProperties};
use kitsuvm::render::top::Top;
use kitsuvm::render::vip::{Item, VIP};
use kitsuvm::render::{get_vips_clk_rst_ports, Mode};
use kitsuvm::text::decimal_string;
use kitsuvm::uvm::tb::build;
use std::collections::HashSet;

fn args() -> Args {
    Args {
        no_top: false,
        no_vips: false,
        no_self_test: false,
        project: "./project.toml".to_string(),
        instances: "./instances.toml".to_string(),
        output: "./out".to_string(),
        templates: "./templates".to_string(),
        vips: vec![],
    }
}

fn vip(name: &str, clock: Option<&str>, reset: Option<&str>) -> VIP {
    VIP {
        name: name.to_string(),
        ports: vec![Port {
            name: "d".to_string(),
            properties: PortProperties { direction: PortDirection::INPUT, dimensions: vec![] },
        }],
        clock: clock.map(|c| c.to_string()),
        reset: reset.map(|r| r.to_string()),
        use_clock_block: true,
        item: Item { members: vec![], constraints: vec![] },
    }
}

fn top() -> Top {
    Top {
        name: "top".to_string(),
        default_sequence_repeat: 5,
        dut_name: "dut".to_string(),
        dut_clk: None,
        dut_rst: None,
    }
}

#[test]
fn vip_output_paths() {
    let m = Mode::VIP(vip("uart", None, None));
    assert_eq!(m.get_components().len(), 10);
    assert_eq!(m.get_components()[4], "if");
    assert_eq!(m.get_output_directory_path(&args()), "./out/vip/uart");
    assert_eq!(m.get_output_filename("driver".to_string()), "uart_driver.sv");
    assert_eq!(m.get_template_path("driver".to_string()), "vip/driver.sv.j2");
}

#[test]
fn top_output_paths() {
    let instances = Instances::from(vec![]);
    let m = Mode::TopTb(top(), vec![], instances.clone());
    assert_eq!(m.get_components(), vec!["tb".to_string(), "th".to_string()]);
    assert_eq!(m.get_output_directory_path(&args()), "./out/top/tb");
    assert_eq!(m.get_output_filename("th".to_string()), "top_th.sv");
    assert_eq!(m.get_template_path("th".to_string()), "top/tb/th.sv.j2");
    let t = Mode::TopTest(top(), vec![], instances.clone());
    assert_eq!(t.get_output_directory_path(&args()), "./out/top/test");
    let b = Mode::Bin(top(), vec![]);
    assert_eq!(b.get_components(), vec!["run".to_string()]);
    assert_eq!(b.get_output_filename("run".to_string()), "run.sh");
    assert_eq!(b.get_template_path("run".to_string()), "bin/run.sh.j2");
    assert_eq!(b.get_output_directory_path(&args()), "./out/bin");
    let e = Mode::Top(top(), vec![], instances);
    assert_eq!(e.get_components()[3], "scoreboard");
    assert_eq!(e.get_template_path("env".to_string()), "top/env.sv.j2");
}

#[test]
fn clocks_resets_and_ports_by_template() {
    let vips = vec![vip("a", Some("clk"), None), vip("b", None, Some("rst_n"))];
    let (clk, rst, ports) = get_vips_clk_rst_ports(&vips);
    assert_eq!(clk, vec![("a".to_string(), "clk".to_string())]);
    assert_eq!(rst, vec![("b".to_string(), "rst_n".to_string())]);
    assert_eq!(ports.len(), 2);
    assert_eq!(ports[1].0, "b");
    assert_eq!(ports[1].1, vec!["d".to_string()]);
}

fn template(name: &str, count: u32, active: bool) -> Template {
    Template {
        agent: AgentConfig { name: name.to_string(), is_active: active, number_of_instances: count },
        interface: Interface {
            ports: HashSet::new(),
            clock: "clk".to_string(),
            reset: "rst".to_string(),
            use_clock_block: true,
        },
        item: TemplateItem {
            name: "tx".to_string(),
            members: HashSet::new(),
            constraints: HashSet::new(),
        },
    }
}

#[test]
fn agents_are_numbered_when_repeated() {
    let common = Common {
        dut_path: default_dut_path(),
        generate_file_header: false,
        top_default_sequence: default_top_default_sequence(),
    };
    let env = build(&common, &vec![template("spi", 3, true), template("i2c", 1, false), template("x", 0, true)]);
    let names: Vec<String> = env.agents.iter().map(|a| a.name.clone()).collect();
    assert_eq!(names, vec!["spi_0", "spi_1", "spi_2", "i2c"]);
    assert!(env.agents[0].config.is_active);
    assert!(!env.agents[3].config.is_active);
    assert_eq!(env.agents[2].sequencer.sequences[0].name, "default");
}

#[test]
fn numbers_in_decimal() {
    assert_eq!(decimal_string(0), "0");
    assert_eq!(decimal_string(12), "12");
    assert_eq!(decimal_string(4294967295), "4294967295");
}

#[test]
fn defaults() {
    let d = default_dut();
    assert_eq!(d.path, "dut.sv");
    assert_eq!(d.name, None);
    assert_eq!(d.clock, None);
    assert_eq!(default_top_default_sequence(), 5);
    assert_eq!(default_dut_path(), "dut.sv");
}
