//! What gets generated: for each kind of output, its components, where
//! their files go, and which templates render them.
pub mod top;
pub mod vip;

use vstd::prelude::*;

use crate::cli::Args;
use crate::config::instance::Instances;
use crate::dut::utils::Port;
use crate::text::{cat, cat3, views};
use top::Top;
use vip::VIP;

verus! {

/// A kind of output, with what its templates are rendered from.
pub enum Mode {
    VIP(VIP),
    Top(Top, Vec<VIP>, Instances),
    TopTest(Top, Vec<VIP>, Instances),
    TopTb(Top, Vec<VIP>, Instances),
    Bin(Top, Vec<VIP>),
}

/// The components that a kind of output is made of, one file each.
pub open spec fn components(m: Mode) -> Seq<Seq<char>> {
    match m {
        Mode::VIP(_) => seq![
            "agent"@,
            "config"@,
            "coverage"@,
            "driver"@,
            "if"@,
            "monitor"@,
            "pkg"@,
            "seq_lib"@,
            "sequencer"@,
            "tx"@,
        ],
        Mode::Top(..) => seq!["config"@, "env"@, "pkg"@, "scoreboard"@, "seq_lib"@],
        Mode::TopTest(..) => seq!["test"@, "test_pkg"@],
        Mode::TopTb(..) => seq!["tb"@, "th"@],
        Mode::Bin(..) => seq!["run"@],
    }
}

/// The directory, under `output`, where a kind of output goes.
pub open spec fn output_directory(m: Mode, output: Seq<char>) -> Seq<char> {
    match m {
        Mode::VIP(vip) => output + "/vip/"@ + vip.name@,
        Mode::Top(..) => output + "/top"@,
        Mode::TopTest(..) => output + "/top/test"@,
        Mode::TopTb(..) => output + "/top/tb"@,
        Mode::Bin(..) => output + "/bin"@,
    }
}

/// The file name of a component.
pub open spec fn output_filename(m: Mode, component: Seq<char>) -> Seq<char> {
    match m {
        Mode::VIP(vip) => vip.name@ + "_"@ + component + ".sv"@,
        Mode::Top(top, ..) => top.name@ + "_"@ + component + ".sv"@,
        Mode::TopTest(top, ..) => top.name@ + "_"@ + component + ".sv"@,
        Mode::TopTb(top, ..) => top.name@ + "_"@ + component + ".sv"@,
        Mode::Bin(..) => component + ".sh"@,
    }
}

/// The template that renders a component.
pub open spec fn template_path(m: Mode, component: Seq<char>) -> Seq<char> {
    match m {
        Mode::VIP(_) => "vip/"@ + component + ".sv.j2"@,
        Mode::Top(..) => "top/"@ + component + ".sv.j2"@,
        Mode::TopTest(..) => "top/test/"@ + component + ".sv.j2"@,
        Mode::TopTb(..) => "top/tb/"@ + component + ".sv.j2"@,
        Mode::Bin(..) => "bin/"@ + component + ".sh.j2"@,
    }
}

fn push_str(v: &mut Vec<String>, s: &str)
    ensures
        views(final(v)@) == views(old(v)@).push(s@),
{
    let ghost before = v@;
    v.push(s.to_owned());
    assert(views(v@) =~= views(before).push(s@));
}

impl Mode {
    pub fn get_components(&self) -> (r: Vec<String>)
        ensures
            views(r@) == components(*self),
    {
        let mut r: Vec<String> = Vec::new();
        match self {
            Mode::VIP(_) => {
                push_str(&mut r, "agent");
                push_str(&mut r, "config");
                push_str(&mut r, "coverage");
                push_str(&mut r, "driver");
                push_str(&mut r, "if");
                push_str(&mut r, "monitor");
                push_str(&mut r, "pkg");
                push_str(&mut r, "seq_lib");
                push_str(&mut r, "sequencer");
                push_str(&mut r, "tx");
            },
            Mode::Top(..) => {
                push_str(&mut r, "config");
                push_str(&mut r, "env");
                push_str(&mut r, "pkg");
                push_str(&mut r, "scoreboard");
                push_str(&mut r, "seq_lib");
            },
            Mode::TopTest(..) => {
                push_str(&mut r, "test");
                push_str(&mut r, "test_pkg");
            },
            Mode::TopTb(..) => {
                push_str(&mut r, "tb");
                push_str(&mut r, "th");
            },
            Mode::Bin(..) => {
                push_str(&mut r, "run");
            },
        }
        assert(views(r@) =~= components(*self));
        r
    }

    pub fn get_output_directory_path(&self, cli: &Args) -> (r: String)
        ensures
            r@ == output_directory(*self, cli.output@),
    {
        let out = cli.output.as_str();
        match self {
            Mode::VIP(vip) => cat3(out, "/vip/", vip.name.as_str()),
            Mode::Top(..) => cat(out, "/top"),
            Mode::TopTest(..) => cat(out, "/top/test"),
            Mode::TopTb(..) => cat(out, "/top/tb"),
            Mode::Bin(..) => cat(out, "/bin"),
        }
    }

    pub fn get_output_filename(&self, component: String) -> (r: String)
        ensures
            r@ == output_filename(*self, component@),
    {
        let c = component.as_str();
        match self {
            Mode::VIP(vip) => cat(cat3(vip.name.as_str(), "_", c).as_str(), ".sv"),
            Mode::Top(top, ..) => cat(cat3(top.name.as_str(), "_", c).as_str(), ".sv"),
            Mode::TopTest(top, ..) => cat(cat3(top.name.as_str(), "_", c).as_str(), ".sv"),
            Mode::TopTb(top, ..) => cat(cat3(top.name.as_str(), "_", c).as_str(), ".sv"),
            Mode::Bin(..) => cat(c, ".sh"),
        }
    }

    pub fn get_template_path(&self, component: String) -> (r: String)
        ensures
            r@ == template_path(*self, component@),
    {
        let c = component.as_str();
        match self {
            Mode::VIP(_) => cat3("vip/", c, ".sv.j2"),
            Mode::Top(..) => cat3("top/", c, ".sv.j2"),
            Mode::TopTest(..) => cat3("top/test/", c, ".sv.j2"),
            Mode::TopTb(..) => cat3("top/tb/", c, ".sv.j2"),
            Mode::Bin(..) => cat3("bin/", c, ".sh.j2"),
        }
    }
}

/// The (template name, signal) pairs of the first `n` templates that name
/// a clock, in order.
pub open spec fn clock_pairs(vs: Seq<VIP>, n: int) -> Seq<(Seq<char>, Seq<char>)>
    decreases n,
{
    if n <= 0 {
        seq![]
    } else {
        clock_pairs(vs, n - 1) + match vs[n - 1].clock {
            Some(c) => seq![(vs[n - 1].name@, c@)],
            None => seq![],
        }
    }
}

/// The (template name, signal) pairs of the first `n` templates that name
/// a reset, in order.
pub open spec fn reset_pairs(vs: Seq<VIP>, n: int) -> Seq<(Seq<char>, Seq<char>)>
    decreases n,
{
    if n <= 0 {
        seq![]
    } else {
        reset_pairs(vs, n - 1) + match vs[n - 1].reset {
            Some(r) => seq![(vs[n - 1].name@, r@)],
            None => seq![],
        }
    }
}

pub open spec fn pair_views(v: Seq<(String, String)>) -> Seq<(Seq<char>, Seq<char>)> {
    v.map_values(|p: (String, String)| (p.0@, p.1@))
}

fn push_pair(v: &mut Vec<(String, String)>, a: &String, b: &String)
    ensures
        pair_views(final(v)@) == pair_views(old(v)@).push((a@, b@)),
{
    let ghost before = v@;
    v.push((a.clone(), b.clone()));
    assert(pair_views(v@) =~= pair_views(before).push((a@, b@)));
}

/// For the test harness: the clock of each template that names one, the
/// reset of each template that names one, and the port names of every
/// template, each keyed by template name, in template order.
pub fn get_vips_clk_rst_ports(vips: &Vec<VIP>) -> (r: (
    Vec<(String, String)>,
    Vec<(String, String)>,
    Vec<(String, Vec<String>)>,
))
    ensures
        pair_views(r.0@) == clock_pairs(vips@, vips@.len() as int),
        pair_views(r.1@) == reset_pairs(vips@, vips@.len() as int),
        r.2@.len() == vips@.len(),
        forall|k: int|
            0 <= k < vips@.len() ==> {
                &&& (#[trigger] r.2@[k]).0@ == vips@[k].name@
                &&& views(r.2@[k].1@) == vips@[k].ports@.map_values(|p: Port| p.name@)
            },
{
    let mut vips_clk: Vec<(String, String)> = Vec::new();
    let mut vips_rst: Vec<(String, String)> = Vec::new();
    let mut vips_ports: Vec<(String, Vec<String>)> = Vec::new();
    let mut i: usize = 0;
    while i < vips.len()
        invariant
            i <= vips@.len(),
            pair_views(vips_clk@) == clock_pairs(vips@, i as int),
            pair_views(vips_rst@) == reset_pairs(vips@, i as int),
            vips_ports@.len() == i,
            forall|k: int|
                0 <= k < i ==> {
                    &&& (#[trigger] vips_ports@[k]).0@ == vips@[k].name@
                    &&& views(vips_ports@[k].1@) == vips@[k].ports@.map_values(|p: Port| p.name@)
                },
        decreases vips@.len() - i,
    {
        let v = &vips[i];
        if let Some(clk) = &v.clock {
            push_pair(&mut vips_clk, &v.name, clk);
        }
        assert(pair_views(vips_clk@) =~= clock_pairs(vips@, i + 1));
        if let Some(rst) = &v.reset {
            push_pair(&mut vips_rst, &v.name, rst);
        }
        assert(pair_views(vips_rst@) =~= reset_pairs(vips@, i + 1));
        let mut ports: Vec<String> = Vec::new();
        let mut k: usize = 0;
        while k < v.ports.len()
            invariant
                k <= v.ports@.len(),
                views(ports@) == v.ports@.take(k as int).map_values(|p: Port| p.name@),
            decreases v.ports@.len() - k,
        {
            let ghost before = ports@;
            ports.push(v.ports[k].name.clone());
            assert(views(ports@) =~= views(before).push(v.ports@[k as int].name@));
            assert(v.ports@.take(k + 1).map_values(|p: Port| p.name@) =~= v.ports@.take(k as int).map_values(|p: Port| p.name@).push(v.ports@[k as int].name@));
            k = k + 1;
        }
        assert(v.ports@.take(v.ports@.len() as int) =~= v.ports@);
        vips_ports.push((v.name.clone(), ports));
        i = i + 1;
    }
    (vips_clk, vips_rst, vips_ports)
}

} // verus!
