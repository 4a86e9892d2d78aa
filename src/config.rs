//! Configuration records, and the topology checks that hold instances
//! against their templates and against the hardware module.
pub mod common;
pub mod instance;
pub mod pinlist;
pub mod project;
pub mod template;
pub mod vip;

use vstd::hash_map::StringHashMap;
use vstd::prelude::*;

use crate::diagnostic::Diagnostic;
use crate::dut::utils::{PortProperties, DUT};
use crate::text::substring;
use instance::{Instance, Instances};
use vip::VIP;

verus! {

/// The position of the last template among the first `n` that carries
/// `name`.
pub open spec fn template_index(vips: Seq<VIP>, name: Seq<char>, n: int) -> Option<int>
    decreases n,
{
    if n <= 0 {
        None
    } else if vips[n - 1].name matches Some(t) && t@ == name {
        Some(n - 1)
    } else {
        template_index(vips, name, n - 1)
    }
}

/// What the arity check reports on instance `i` at position `a`.
pub open spec fn arity_report(i: Instance, a: int, vips: Seq<VIP>) -> Seq<Diagnostic> {
    match template_index(vips, i.vip_name@, vips.len() as int) {
        None => seq![Diagnostic::UnknownTemplate { instance: a as usize }],
        Some(t) => {
            let declared = vips[t].ports@.len();
            let connected = i.connected_to@.len();
            if declared == connected {
                seq![]
            } else if declared > connected {
                seq![
                    Diagnostic::FewerConnections {
                        instance: a as usize,
                        declared: declared as usize,
                        connected: connected as usize,
                    },
                ]
            } else {
                seq![
                    Diagnostic::MoreConnections {
                        instance: a as usize,
                        declared: declared as usize,
                        connected: connected as usize,
                    },
                ]
            }
        },
    }
}

/// What the arity check reports on the first `n` instances, in order.
pub open spec fn arity_reports(insts: Seq<Instance>, vips: Seq<VIP>, n: int) -> Seq<Diagnostic>
    decreases n,
{
    if n <= 0 {
        seq![]
    } else {
        arity_reports(insts, vips, n - 1) + arity_report(insts[n - 1], n - 1, vips)
    }
}

fn find_template(vips: &Vec<VIP>, name: &String) -> (r: Option<usize>)
    ensures
        match r {
            Some(t) => t < vips@.len() && template_index(vips@, name@, vips@.len() as int) == Some(
                t as int,
            ),
            None => template_index(vips@, name@, vips@.len() as int) is None,
        },
{
    let mut n: usize = vips.len();
    while n > 0
        invariant
            n <= vips@.len(),
            template_index(vips@, name@, vips@.len() as int) == template_index(
                vips@,
                name@,
                n as int,
            ),
        decreases n,
    {
        if let Some(t) = &vips[n - 1].name {
            if *t == *name {
                return Some(n - 1);
            }
        }
        n = n - 1;
    }
    None
}

/// Holds each instance against its template: an unknown template, fewer
/// connections than the template has ports, and more connections, are
/// reported. When several templates carry a name, the last one counts.
pub fn check_i_v_compat(instances: &Instances, vips: &Vec<VIP>) -> (r: Vec<Diagnostic>)
    ensures
        r@ == arity_reports(instances.instances@, vips@, instances.instances@.len() as int),
{
    let ghost insts = instances.instances@;
    let mut reports: Vec<Diagnostic> = Vec::new();
    let mut a: usize = 0;
    while a < instances.instances.len()
        invariant
            insts == instances.instances@,
            a <= insts.len(),
            reports@ == arity_reports(insts, vips@, a as int),
        decreases insts.len() - a,
    {
        let i = &instances.instances[a];
        match find_template(vips, &i.vip_name) {
            None => reports.push(Diagnostic::UnknownTemplate { instance: a }),
            Some(t) => {
                let declared = vips[t].ports.len();
                let connected = i.connected_to.len();
                if declared > connected {
                    reports.push(Diagnostic::FewerConnections { instance: a, declared, connected });
                } else if declared < connected {
                    reports.push(Diagnostic::MoreConnections { instance: a, declared, connected });
                }
            },
        }
        assert(reports@ =~= arity_reports(insts, vips@, a + 1));
        a = a + 1;
    }
    reports
}

/// Some connection before connection `k` of instance `a`, in list order,
/// names the hardware port `name`.
pub open spec fn seen_before(insts: Seq<Instance>, a: int, k: int, name: Seq<char>) -> bool {
    exists|b: int, m: int|
        {
            ||| (0 <= b < a && 0 <= m < insts[b].connected_to@.len())
            ||| (b == a && 0 <= m < k)
        } && (#[trigger] insts[b].connected_to@[m])@ == name
}

/// What the hardware check reports on connection `k` of instance `a`.
pub open spec fn link_report(
    insts: Seq<Instance>,
    hw: Map<Seq<char>, PortProperties>,
    a: int,
    k: int,
) -> Seq<Diagnostic> {
    let name = insts[a].connected_to@[k]@;
    if !hw.contains_key(name) {
        seq![Diagnostic::UnknownHardwarePort { instance: a as usize, connection: k as usize }]
    } else if seen_before(insts, a, k, name) {
        seq![Diagnostic::AlreadyConnected { instance: a as usize, connection: k as usize }]
    } else {
        seq![]
    }
}

/// The hardware check's reports on the first `k` connections of instance `a`.
pub open spec fn link_reports_within(
    insts: Seq<Instance>,
    hw: Map<Seq<char>, PortProperties>,
    a: int,
    k: int,
) -> Seq<Diagnostic>
    decreases k,
{
    if k <= 0 {
        seq![]
    } else {
        link_reports_within(insts, hw, a, k - 1) + link_report(insts, hw, a, k - 1)
    }
}

/// The hardware check's reports on the first `n` instances, in order.
pub open spec fn link_reports(
    insts: Seq<Instance>,
    hw: Map<Seq<char>, PortProperties>,
    n: int,
) -> Seq<Diagnostic>
    decreases n,
{
    if n <= 0 {
        seq![]
    } else {
        link_reports(insts, hw, n - 1) + link_reports_within(
            insts,
            hw,
            n - 1,
            insts[n - 1].connected_to@.len() as int,
        )
    }
}

/// Holds every connection against the hardware module: a name the module
/// does not have is reported, and so is a name that an earlier connection,
/// of any instance, already claimed.
pub fn check_i_v_d_compat(instances: &Instances, _vips: &Vec<VIP>, dut: &DUT) -> (r: Vec<
    Diagnostic,
>)
    ensures
        r@ == link_reports(instances.instances@, dut.ports@, instances.instances@.len() as int),
{
    let ghost insts = instances.instances@;
    let ghost hw = dut.ports@;
    let mut claimed: StringHashMap<bool> = StringHashMap::new();
    let mut reports: Vec<Diagnostic> = Vec::new();
    let mut a: usize = 0;
    while a < instances.instances.len()
        invariant
            insts == instances.instances@,
            hw == dut.ports@,
            a <= insts.len(),
            forall|name: Seq<char>|
                #[trigger] claimed@.contains_key(name) == (hw.contains_key(name) && seen_before(
                    insts,
                    a as int,
                    0,
                    name,
                )),
            reports@ == link_reports(insts, hw, a as int),
        decreases insts.len() - a,
    {
        let i = &instances.instances[a];
        let ghost rbase = reports@;
        let mut k: usize = 0;
        while k < i.connected_to.len()
            invariant
                insts == instances.instances@,
                hw == dut.ports@,
                a < insts.len(),
                *i == insts[a as int],
                k <= i.connected_to@.len(),
                forall|name: Seq<char>|
                    #[trigger] claimed@.contains_key(name) == (hw.contains_key(name) && seen_before(
                        insts,
                        a as int,
                        k as int,
                        name,
                    )),
                reports@ == rbase + link_reports_within(insts, hw, a as int, k as int),
            decreases i.connected_to@.len() - k,
        {
            let p = &i.connected_to[k];
            let ghost pn = p@;
            if dut.ports.contains_key(p.as_str()) {
                if claimed.contains_key(p.as_str()) {
                    reports.push(Diagnostic::AlreadyConnected { instance: a, connection: k });
                } else {
                    claimed.insert(p.clone(), true);
                }
            } else {
                reports.push(Diagnostic::UnknownHardwarePort { instance: a, connection: k });
            }
            assert forall|name: Seq<char>|
                #[trigger] claimed@.contains_key(name) == (hw.contains_key(name) && seen_before(
                    insts,
                    a as int,
                    k + 1,
                    name,
                )) by {
                if seen_before(insts, a as int, k + 1, name) && name != pn {
                    let (b, m) = choose|b: int, m: int|
                        {
                            ||| (0 <= b < a && 0 <= m < insts[b].connected_to@.len())
                            ||| (b == a && 0 <= m < k + 1)
                        } && (#[trigger] insts[b].connected_to@[m])@ == name;
                    assert(seen_before(insts, a as int, k as int, name));
                }
                if name == pn {
                    assert(insts[a as int].connected_to@[k as int]@ == name);
                }
            }
            assert(reports@ =~= rbase + link_reports_within(insts, hw, a as int, k + 1));
            k = k + 1;
        }
        assert forall|name: Seq<char>|
            seen_before(insts, a as int, i.connected_to@.len() as int, name) == seen_before(
                insts,
                a + 1,
                0,
                name,
            ) by {
            if seen_before(insts, a + 1, 0, name) {
                let (b, m) = choose|b: int, m: int|
                    {
                        ||| (0 <= b < a + 1 && 0 <= m < insts[b].connected_to@.len())
                        ||| (b == a + 1 && 0 <= m < 0)
                    } && (#[trigger] insts[b].connected_to@[m])@ == name;
                assert(seen_before(insts, a as int, i.connected_to@.len() as int, name));
            }
        }
        assert(reports@ =~= link_reports(insts, hw, a + 1));
        a = a + 1;
    }
    reports
}

proof fn lemma_links_same_wiring(
    ins: Seq<Instance>,
    outs: Seq<Instance>,
    hw: Map<Seq<char>, PortProperties>,
    n: int,
)
    requires
        n <= ins.len(),
        outs.len() == ins.len(),
        forall|j: int| 0 <= j < ins.len() ==> (#[trigger] outs[j]).connected_to == ins[j].connected_to,
    ensures
        link_reports(ins, hw, n) == link_reports(outs, hw, n),
    decreases n,
{
    if n > 0 {
        lemma_links_same_wiring(ins, outs, hw, n - 1);
        let a = n - 1;
        assert(outs[a].connected_to == ins[a].connected_to);
        assert forall|k: int, name: Seq<char>|
            seen_before(ins, a, k, name) == seen_before(outs, a, k, name) by {
            if seen_before(ins, a, k, name) {
                let (b, m) = choose|b: int, m: int|
                    {
                        ||| (0 <= b < a && 0 <= m < ins[b].connected_to@.len())
                        ||| (b == a && 0 <= m < k)
                    } && (#[trigger] ins[b].connected_to@[m])@ == name;
                assert(outs[b].connected_to == ins[b].connected_to);
            }
            if seen_before(outs, a, k, name) {
                let (b, m) = choose|b: int, m: int|
                    {
                        ||| (0 <= b < a && 0 <= m < outs[b].connected_to@.len())
                        ||| (b == a && 0 <= m < k)
                    } && (#[trigger] outs[b].connected_to@[m])@ == name;
                assert(outs[b].connected_to == ins[b].connected_to);
            }
        }
        lemma_links_within_same_wiring(ins, outs, hw, a, ins[a].connected_to@.len() as int);
    }
}

proof fn lemma_links_within_same_wiring(
    ins: Seq<Instance>,
    outs: Seq<Instance>,
    hw: Map<Seq<char>, PortProperties>,
    a: int,
    k: int,
)
    requires
        0 <= a < ins.len(),
        outs.len() == ins.len(),
        outs[a].connected_to == ins[a].connected_to,
        forall|k: int, name: Seq<char>|
            seen_before(ins, a, k, name) == seen_before(outs, a, k, name),
    ensures
        link_reports_within(ins, hw, a, k) == link_reports_within(outs, hw, a, k),
    decreases k,
{
    if k > 0 {
        lemma_links_within_same_wiring(ins, outs, hw, a, k - 1);
    }
}

proof fn lemma_arity_same_wiring(ins: Seq<Instance>, outs: Seq<Instance>, vips: Seq<VIP>, n: int)
    requires
        n <= ins.len(),
        outs.len() == ins.len(),
        forall|j: int|
            0 <= j < ins.len() ==> {
                &&& (#[trigger] outs[j]).connected_to == ins[j].connected_to
                &&& outs[j].vip_name == ins[j].vip_name
            },
    ensures
        arity_reports(ins, vips, n) == arity_reports(outs, vips, n),
    decreases n,
{
    if n > 0 {
        lemma_arity_same_wiring(ins, outs, vips, n - 1);
        assert(outs[n - 1].connected_to == ins[n - 1].connected_to);
    }
}

/// The topology checks read no identifier: after allocation they report
/// exactly what they reported before it, so running them again on
/// allocated instances brings nothing new.
pub proof fn law_topology_ignores_ids(
    ins: Seq<Instance>,
    outs: Seq<Instance>,
    vips: Seq<VIP>,
    hw: Map<Seq<char>, PortProperties>,
)
    requires
        instance::allocated(ins, outs),
    ensures
        arity_reports(outs, vips, outs.len() as int) == arity_reports(ins, vips, ins.len() as int),
        link_reports(outs, hw, outs.len() as int) == link_reports(ins, hw, ins.len() as int),
{
    lemma_arity_same_wiring(ins, outs, vips, ins.len() as int);
    lemma_links_same_wiring(ins, outs, hw, ins.len() as int);
}

/// The bare name of a file: what follows the last `/`, up to its last `.`.
pub open spec fn file_stem(path: Seq<char>) -> Seq<char> {
    let file_name = match path.index_of_last('/') {
        Some(i) => path.skip(i + 1),
        None => path,
    };
    match file_name.index_of_last('.') {
        Some(j) => file_name.take(j),
        None => file_name,
    }
}

/// The position of the last `c` in `s`.
fn last_index_of(s: &str, c: char) -> (r: Option<usize>)
    ensures
        match r {
            Some(i) => i < s@.len() && s@.index_of_last(c) == Some(i as int),
            None => s@.index_of_last(c) is None,
        },
{
    let n = s.unicode_len();
    let mut k: usize = n;
    while k > 0
        invariant
            n == s@.len(),
            k <= n,
            forall|j: int| k <= j < n ==> s@[j] != c,
        decreases k,
    {
        if s.get_char(k - 1) == c {
            proof {
                s@.index_of_last_ensures(c);
            }
            let ghost i = s@.index_of_last(c)->Some_0;
            assert(s@.contains(c));
            assert(!(i < k - 1));
            assert(!(i > k - 1));
            return Some(k - 1);
        }
        k = k - 1;
    }
    proof {
        s@.index_of_last_ensures(c);
    }
    assert(!s@.contains(c));
    None
}

/// The template or module name that a file path gives when the
/// configuration names none.
pub fn get_name_from_file_path(file_path: String) -> (r: String)
    ensures
        r@ == file_stem(file_path@),
{
    let n = file_path.as_str().unicode_len();
    let file_name = match last_index_of(file_path.as_str(), '/') {
        Some(i) => substring(file_path.as_str(), i + 1, n),
        None => substring(file_path.as_str(), 0, n),
    };
    assert(file_name@ =~= match file_path@.index_of_last('/') {
        Some(i) => file_path@.skip(i + 1),
        None => file_path@,
    });
    let m = file_name.as_str().unicode_len();
    let name = match last_index_of(file_name.as_str(), '.') {
        Some(j) => substring(file_name.as_str(), 0, j),
        None => substring(file_name.as_str(), 0, m),
    };
    assert(name@ =~= file_stem(file_path@));
    name
}

} // verus!
