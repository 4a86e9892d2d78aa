//! Resolved component templates: parsed ports and members, and the
//! direction resolver that gives every template port a direction.
use vstd::hash_map::StringHashMap;
use vstd::prelude::*;

use crate::config::instance::{Instance, Instances, Mode};
use crate::config::vip::VIP as VIPcfg;
use crate::diagnostic::Diagnostic;
use crate::dut::utils::{
    complement, port_accepted, port_parse_fits, ParsePortError, Port, PortDirection,
    PortProperties, DUT,
};
use crate::text::{
    clone_opt_string, clone_strings, equals_str, opt_view, split_whitespace, substring, views,
    words,
};

verus! {

#[derive(Clone, Debug)]
pub struct VIP {
    pub name: String,
    pub ports: Vec<Port>,
    pub clock: Option<String>,
    pub reset: Option<String>,
    pub use_clock_block: bool,
    pub item: Item,
}

#[derive(Debug)]
pub enum ParseVIPError {
    PortError(ParsePortError),
    MemberError(ParseMemberError),
}

#[derive(Clone, Debug)]
pub struct Item {
    pub members: Vec<Member>,
    pub constraints: Vec<String>,
}

/// A field of the data item: its name, its type, and whether it is
/// randomized.
#[derive(Clone, Debug)]
pub struct Member {
    pub name: String,
    pub kind: String,
    pub is_randomized: bool,
}

/// Why a member descriptor was refused; each carries the descriptor.
#[derive(Debug)]
pub enum ParseMemberError {
    /// Neither two nor three words.
    InvalidMemberDescription(String),
    /// Two words, the first of them `rand`.
    UnexpectedRand(String),
    /// Three words, the first of them not `rand`.
    RandNotFound(String),
}

pub open spec fn rand_word() -> Seq<char> {
    seq!['r', 'a', 'n', 'd']
}

/// A member descriptor is accepted: two words not led by `rand`, or three
/// words led by `rand`.
pub open spec fn member_accepted(s: Seq<char>) -> bool {
    let ws = words(s);
    (ws.len() == 2 && ws[0] != rand_word()) || (ws.len() == 3 && ws[0] == rand_word())
}

/// What `Member::from_str` returns on the descriptor `s`.
pub open spec fn member_parse_fits(s: Seq<char>, r: Result<Member, ParseMemberError>) -> bool {
    let ws = words(s);
    match r {
        Ok(m) => {
            &&& member_accepted(s)
            &&& m.is_randomized == (ws.len() == 3)
            &&& m.kind@ == ws[ws.len() - 2]
            &&& m.name@ == ws[ws.len() - 1]
        },
        Err(ParseMemberError::UnexpectedRand(t)) => ws.len() == 2 && ws[0] == rand_word() && t@
            == s,
        Err(ParseMemberError::RandNotFound(t)) => ws.len() == 3 && ws[0] != rand_word() && t@
            == s,
        Err(ParseMemberError::InvalidMemberDescription(t)) => ws.len() != 2 && ws.len() != 3
            && t@ == s,
    }
}

fn is_rand(t: &str) -> (r: bool)
    ensures
        r == (t@ == rand_word()),
{
    proof {
        reveal_strlit("rand");
    }
    assert("rand"@ =~= rand_word());
    equals_str(t, "rand")
}

impl Member {
    /// Reads a member descriptor: `<type> <name>`, or `rand <type> <name>`
    /// for a randomized member, separated by whitespace.
    pub fn from_str(s: &str) -> (r: Result<Member, ParseMemberError>)
        ensures
            member_parse_fits(s@, r),
    {
        let split = split_whitespace(s);
        let ghost ws = words(s@);
        assert(ws.len() == split@.len());
        assert(forall|j: int| 0 <= j < ws.len() ==> ws[j] == #[trigger] split@[j]@);
        let whole = substring(s, 0, s.unicode_len());
        assert(whole@ =~= s@);
        if split.len() == 2 {
            if is_rand(split[0].as_str()) {
                Err(ParseMemberError::UnexpectedRand(whole))
            } else {
                Ok(
                    Member {
                        name: split[1].clone(),
                        kind: split[0].clone(),
                        is_randomized: false,
                    },
                )
            }
        } else if split.len() == 3 {
            if is_rand(split[0].as_str()) {
                Ok(
                    Member {
                        name: split[2].clone(),
                        kind: split[1].clone(),
                        is_randomized: true,
                    },
                )
            } else {
                Err(ParseMemberError::RandNotFound(whole))
            }
        } else {
            Err(ParseMemberError::InvalidMemberDescription(whole))
        }
    }
}

/// Every port and member descriptor of the template is accepted.
pub open spec fn vip_accepted(cfg: VIPcfg) -> bool {
    &&& forall|k: int| 0 <= k < cfg.ports@.len() ==> port_accepted(#[trigger] cfg.ports@[k]@)
    &&& forall|k: int|
        0 <= k < cfg.item.members@.len() ==> member_accepted(#[trigger] cfg.item.members@[k]@)
}

/// `v` is the template `cfg` with its descriptors parsed.
pub open spec fn vip_of(cfg: VIPcfg, v: VIP) -> bool {
    &&& cfg.name matches Some(n) && v.name@ == n@
    &&& opt_view(v.clock) == opt_view(cfg.clock)
    &&& opt_view(v.reset) == opt_view(cfg.reset)
    &&& v.use_clock_block == cfg.use_clock_block
    &&& v.ports@.len() == cfg.ports@.len()
    &&& forall|k: int|
        0 <= k < cfg.ports@.len() ==> port_parse_fits(
            cfg.ports@[k]@,
            Ok::<Port, ParsePortError>(#[trigger] v.ports@[k]),
        )
    &&& v.item.members@.len() == cfg.item.members@.len()
    &&& forall|k: int|
        0 <= k < cfg.item.members@.len() ==> member_parse_fits(
            cfg.item.members@[k]@,
            Ok::<Member, ParseMemberError>(#[trigger] v.item.members@[k]),
        )
    &&& views(v.item.constraints@) == views(cfg.item.constraints@)
}

/// What `VIP::try_from` returns on the template `cfg`: the first refused
/// port descriptor, else the first refused member descriptor, else the
/// parsed template.
pub open spec fn vip_parse_fits(cfg: VIPcfg, r: Result<VIP, ParseVIPError>) -> bool {
    match r {
        Ok(v) => vip_accepted(cfg) && vip_of(cfg, v),
        Err(ParseVIPError::PortError(e)) => exists|k: int|
            0 <= k < cfg.ports@.len() && (forall|m: int|
                0 <= m < k ==> port_accepted(#[trigger] cfg.ports@[m]@)) && !port_accepted(
                cfg.ports@[k]@,
            ) && port_parse_fits(cfg.ports@[k]@, Err(e)),
        Err(ParseVIPError::MemberError(e)) => exists|k: int|
            0 <= k < cfg.item.members@.len() && (forall|m: int|
                0 <= m < cfg.ports@.len() ==> port_accepted(#[trigger] cfg.ports@[m]@)) && (forall|
                m: int,
            |
                0 <= m < k ==> member_accepted(#[trigger] cfg.item.members@[m]@))
                && !member_accepted(cfg.item.members@[k]@) && member_parse_fits(
                cfg.item.members@[k]@,
                Err(e),
            ),
    }
}

impl VIP {
    /// Parses the descriptors of a named template.
    pub fn try_from(vip: &VIPcfg) -> (r: Result<VIP, ParseVIPError>)
        requires
            vip.name is Some,
        ensures
            vip_parse_fits(*vip, r),
    {
        let mut ports: Vec<Port> = Vec::new();
        let mut i: usize = 0;
        while i < vip.ports.len()
            invariant
                i <= vip.ports@.len(),
                ports@.len() == i,
                forall|m: int| 0 <= m < i ==> port_accepted(#[trigger] vip.ports@[m]@),
                forall|m: int|
                    0 <= m < i ==> port_parse_fits(
                        vip.ports@[m]@,
                        Ok::<Port, ParsePortError>(#[trigger] ports@[m]),
                    ),
            decreases vip.ports@.len() - i,
        {
            match Port::from_str(vip.ports[i].as_str()) {
                Ok(port) => ports.push(port),
                Err(e) => return Err(ParseVIPError::PortError(e)),
            }
            i = i + 1;
        }
        let mut members: Vec<Member> = Vec::new();
        let mut i: usize = 0;
        while i < vip.item.members.len()
            invariant
                i <= vip.item.members@.len(),
                members@.len() == i,
                forall|m: int| 0 <= m < vip.ports@.len() ==> port_accepted(#[trigger] vip.ports@[m]@),
                forall|m: int| 0 <= m < i ==> member_accepted(#[trigger] vip.item.members@[m]@),
                forall|m: int|
                    0 <= m < i ==> member_parse_fits(
                        vip.item.members@[m]@,
                        Ok::<Member, ParseMemberError>(#[trigger] members@[m]),
                    ),
            decreases vip.item.members@.len() - i,
        {
            match Member::from_str(vip.item.members[i].as_str()) {
                Ok(member) => members.push(member),
                Err(e) => return Err(ParseVIPError::MemberError(e)),
            }
            i = i + 1;
        }
        let item = Item { members, constraints: clone_strings(&vip.item.constraints) };
        let name = match &vip.name {
            Some(n) => n.clone(),
            None => String::new(),
        };
        Ok(
            VIP {
                name,
                ports,
                clock: clone_opt_string(&vip.clock),
                reset: clone_opt_string(&vip.reset),
                use_clock_block: vip.use_clock_block,
                item,
            },
        )
    }
}

/// Parses every template; all of them must be named and accepted.
pub fn get_render_vips(vips: &Vec<VIPcfg>) -> (r: Vec<VIP>)
    requires
        forall|k: int|
            0 <= k < vips@.len() ==> (#[trigger] vips@[k]).name is Some && vip_accepted(vips@[k]),
    ensures
        r@.len() == vips@.len(),
        forall|k: int| 0 <= k < vips@.len() ==> vip_of(vips@[k], #[trigger] r@[k]),
{
    let mut render_vips: Vec<VIP> = Vec::new();
    let mut i: usize = 0;
    while i < vips.len()
        invariant
            i <= vips@.len(),
            render_vips@.len() == i,
            forall|k: int|
                0 <= k < vips@.len() ==> (#[trigger] vips@[k]).name is Some && vip_accepted(
                    vips@[k],
                ),
            forall|k: int| 0 <= k < i ==> vip_of(vips@[k], #[trigger] render_vips@[k]),
        decreases vips@.len() - i,
    {
        match VIP::try_from(&vips[i]) {
            Ok(v) => render_vips.push(v),
            Err(_) => {
                assert(false);
            },
        }
        i = i + 1;
    }
    render_vips
}

/// The instance takes part in resolving the template's directions: it is
/// an instance of the template and is not passive.
pub open spec fn drives(v: VIP, i: Instance) -> bool {
    i.vip_name@ == v.name@ && i.mode != Mode::Passive
}

/// Template port `k` is paired with the instance's connection `k`.
pub open spec fn paired(v: VIP, i: Instance, k: int) -> bool {
    drives(v, i) && 0 <= k < v.ports@.len() && k < i.connected_to@.len()
}

/// The direction that an instance in `mode` implies for a template port
/// wired to a hardware port of direction `hw`.
pub open spec fn implied_direction(mode: Mode, hw: PortDirection) -> PortDirection {
    if mode == Mode::Controller {
        complement(hw)
    } else {
        hw
    }
}

pub open spec fn pair_direction(
    i: Instance,
    k: int,
    hw: Map<Seq<char>, PortProperties>,
) -> PortDirection {
    implied_direction(i.mode, hw[i.connected_to@[k]@].direction)
}

pub open spec fn port_name(v: VIP, k: int) -> Seq<char> {
    v.ports@[k].name@
}

/// The direction table after the first `k` template ports of instance `i`,
/// starting from `base`: a port name not yet recorded gets the direction
/// that its pairing implies.
pub open spec fn table_within(
    v: VIP,
    i: Instance,
    hw: Map<Seq<char>, PortProperties>,
    k: int,
    base: Map<Seq<char>, PortDirection>,
) -> Map<Seq<char>, PortDirection>
    decreases k,
{
    if k <= 0 {
        base
    } else {
        let t = table_within(v, i, hw, k - 1, base);
        if paired(v, i, k - 1) && !t.contains_key(port_name(v, k - 1)) {
            t.insert(port_name(v, k - 1), pair_direction(i, k - 1, hw))
        } else {
            t
        }
    }
}

/// The direction table after the first `a` instances.
pub open spec fn table_before(
    v: VIP,
    insts: Seq<Instance>,
    hw: Map<Seq<char>, PortProperties>,
    a: int,
) -> Map<Seq<char>, PortDirection>
    decreases a,
{
    if a <= 0 {
        Map::empty()
    } else {
        table_within(v, insts[a - 1], hw, v.ports@.len() as int, table_before(v, insts, hw, a - 1))
    }
}

/// The direction table of template `v` once every instance is seen.
pub open spec fn direction_table_of(
    v: VIP,
    insts: Seq<Instance>,
    hw: Map<Seq<char>, PortProperties>,
) -> Map<Seq<char>, PortDirection> {
    table_before(v, insts, hw, insts.len() as int)
}

/// The mismatches found in the first `k` template ports of instance `i`
/// (at position `a`), against the table `base` of the instances before it.
pub open spec fn mismatches_within(
    v: VIP,
    vi: int,
    i: Instance,
    a: int,
    hw: Map<Seq<char>, PortProperties>,
    k: int,
    base: Map<Seq<char>, PortDirection>,
) -> Seq<Diagnostic>
    decreases k,
{
    if k <= 0 {
        seq![]
    } else {
        let t = table_within(v, i, hw, k - 1, base);
        mismatches_within(v, vi, i, a, hw, k - 1, base) + if paired(v, i, k - 1) && t.contains_key(
            port_name(v, k - 1),
        ) && t[port_name(v, k - 1)] != pair_direction(i, k - 1, hw) {
            seq![
                Diagnostic::DirectionMismatch {
                    vip: vi as usize,
                    port: (k - 1) as usize,
                    instance: a as usize,
                },
            ]
        } else {
            seq![]
        }
    }
}

/// The mismatches found in the first `a` instances.
pub open spec fn mismatches_before(
    v: VIP,
    vi: int,
    insts: Seq<Instance>,
    hw: Map<Seq<char>, PortProperties>,
    a: int,
) -> Seq<Diagnostic>
    decreases a,
{
    if a <= 0 {
        seq![]
    } else {
        mismatches_before(v, vi, insts, hw, a - 1) + mismatches_within(
            v,
            vi,
            insts[a - 1],
            a - 1,
            hw,
            v.ports@.len() as int,
            table_before(v, insts, hw, a - 1),
        )
    }
}

/// The reports of the first `p` template ports that the table leaves
/// without a direction.
pub open spec fn unset_reports(
    v: VIP,
    vi: int,
    table: Map<Seq<char>, PortDirection>,
    p: int,
) -> Seq<Diagnostic>
    decreases p,
{
    if p <= 0 {
        seq![]
    } else {
        unset_reports(v, vi, table, p - 1) + if !table.contains_key(port_name(v, p - 1)) {
            seq![Diagnostic::DirectionNotSet { vip: vi as usize, port: (p - 1) as usize }]
        } else {
            seq![]
        }
    }
}

/// What resolving template `v` (at position `vi`) reports.
pub open spec fn vip_reports(
    v: VIP,
    vi: int,
    insts: Seq<Instance>,
    hw: Map<Seq<char>, PortProperties>,
) -> Seq<Diagnostic> {
    mismatches_before(v, vi, insts, hw, insts.len() as int) + unset_reports(
        v,
        vi,
        direction_table_of(v, insts, hw),
        v.ports@.len() as int,
    )
}

/// What resolving the first `n` templates reports, in order.
pub open spec fn resolve_reports(
    vs: Seq<VIP>,
    insts: Seq<Instance>,
    hw: Map<Seq<char>, PortProperties>,
    n: int,
) -> Seq<Diagnostic>
    decreases n,
{
    if n <= 0 {
        seq![]
    } else {
        resolve_reports(vs, insts, hw, n - 1) + vip_reports(vs[n - 1], n - 1, insts, hw)
    }
}

/// Every connection that resolution looks up is a hardware port.
pub open spec fn resolvable(
    vs: Seq<VIP>,
    insts: Seq<Instance>,
    hw: Map<Seq<char>, PortProperties>,
) -> bool {
    forall|vi: int, a: int, k: int|
        0 <= vi < vs.len() && 0 <= a < insts.len() && #[trigger] paired(vs[vi], insts[a], k)
            ==> hw.contains_key(insts[a].connected_to@[k]@)
}

/// The direction that resolution gives template port `p` of `v`: the one in
/// the table, else the one it had.
pub open spec fn resolved_direction(
    v: VIP,
    insts: Seq<Instance>,
    hw: Map<Seq<char>, PortProperties>,
    p: int,
) -> PortDirection {
    let t = direction_table_of(v, insts, hw);
    if t.contains_key(port_name(v, p)) {
        t[port_name(v, p)]
    } else {
        v.ports@[p].properties.direction
    }
}

/// `w` is `v` with the directions of its ports taken from `table`.
pub open spec fn directions_applied(v: VIP, w: VIP, table: Map<Seq<char>, PortDirection>) -> bool {
    &&& w.name == v.name
    &&& w.clock == v.clock
    &&& w.reset == v.reset
    &&& w.use_clock_block == v.use_clock_block
    &&& w.item == v.item
    &&& w.ports@.len() == v.ports@.len()
    &&& forall|p: int|
        0 <= p < v.ports@.len() ==> {
            &&& (#[trigger] w.ports@[p]).name == v.ports@[p].name
            &&& w.ports@[p].properties.dimensions == v.ports@[p].properties.dimensions
            &&& w.ports@[p].properties.direction == if table.contains_key(port_name(v, p)) {
                table[port_name(v, p)]
            } else {
                v.ports@[p].properties.direction
            }
        }
}

/// `w` is `v` resolved against the instances and the hardware ports.
pub open spec fn resolved(
    v: VIP,
    w: VIP,
    insts: Seq<Instance>,
    hw: Map<Seq<char>, PortProperties>,
) -> bool {
    directions_applied(v, w, direction_table_of(v, insts, hw))
}

/// Builds the direction table of template `v` (at position `vi`) and
/// reports the instances that contradict it.
fn direction_table(v: &VIP, vi: usize, instances: &Instances, dut: &DUT) -> (r: (
    StringHashMap<PortDirection>,
    Vec<Diagnostic>,
))
    requires
        forall|a: int, k: int|
            0 <= a < instances.instances@.len() && #[trigger] paired(
                *v,
                instances.instances@[a],
                k,
            ) ==> dut.ports@.contains_key(instances.instances@[a].connected_to@[k]@),
    ensures
        r.0@ == direction_table_of(*v, instances.instances@, dut.ports@),
        r.1@ == mismatches_before(
            *v,
            vi as int,
            instances.instances@,
            dut.ports@,
            instances.instances@.len() as int,
        ),
{
    let ghost insts = instances.instances@;
    let ghost hw = dut.ports@;
    let mut table: StringHashMap<PortDirection> = StringHashMap::new();
    let mut reports: Vec<Diagnostic> = Vec::new();
    let mut a: usize = 0;
    while a < instances.instances.len()
        invariant
            insts == instances.instances@,
            hw == dut.ports@,
            a <= insts.len(),
            forall|a: int, k: int|
                0 <= a < insts.len() && #[trigger] paired(*v, insts[a], k) ==> hw.contains_key(
                    insts[a].connected_to@[k]@,
                ),
            table@ == table_before(*v, insts, hw, a as int),
            reports@ == mismatches_before(*v, vi as int, insts, hw, a as int),
        decreases insts.len() - a,
    {
        let i = &instances.instances[a];
        let takes_part = i.vip_name == v.name && i.mode != Mode::Passive;
        let ghost base = table@;
        let ghost rbase = reports@;
        let mut k: usize = 0;
        while k < v.ports.len()
            invariant
                insts == instances.instances@,
                hw == dut.ports@,
                a < insts.len(),
                *i == insts[a as int],
                takes_part == drives(*v, *i),
                k <= v.ports@.len(),
                forall|k: int| #[trigger] paired(*v, *i, k) ==> hw.contains_key(i.connected_to@[k]@),
                table@ == table_within(*v, *i, hw, k as int, base),
                reports@ == rbase + mismatches_within(*v, vi as int, *i, a as int, hw, k as int, base),
            decreases v.ports@.len() - k,
        {
            if takes_part && k < i.connected_to.len() {
                assert(paired(*v, *i, k as int));
                if let Some(props) = dut.ports.get(i.connected_to[k].as_str()) {
                    let hw_dir = props.direction;
                    let dir = if i.mode == Mode::Controller {
                        hw_dir.not()
                    } else {
                        hw_dir
                    };
                    let name = &v.ports[k].name;
                    match table.get(name.as_str()) {
                        Some(recorded) => {
                            if *recorded != dir {
                                reports.push(
                                    Diagnostic::DirectionMismatch { vip: vi, port: k, instance: a },
                                );
                            }
                        },
                        None => {
                            table.insert(name.clone(), dir);
                        },
                    }
                }
            }
            k = k + 1;
        }
        a = a + 1;
    }
    (table, reports)
}

/// Writes the directions of the table onto the template's ports and
/// reports the ports that the table leaves out; those keep their direction.
fn apply_directions(v: &mut VIP, vi: usize, table: &StringHashMap<PortDirection>) -> (r: Vec<
    Diagnostic,
>)
    ensures
        directions_applied(*old(v), *final(v), table@),
        r@ == unset_reports(*old(v), vi as int, table@, old(v).ports@.len() as int),
{
    let ghost v0 = *v;
    let mut reports: Vec<Diagnostic> = Vec::new();
    let mut p: usize = 0;
    while p < v.ports.len()
        invariant
            v.name == v0.name,
            v.clock == v0.clock,
            v.reset == v0.reset,
            v.use_clock_block == v0.use_clock_block,
            v.item == v0.item,
            v.ports@.len() == v0.ports@.len(),
            p <= v.ports@.len(),
            forall|q: int|
                0 <= q < v0.ports@.len() ==> {
                    &&& (#[trigger] v.ports@[q]).name == v0.ports@[q].name
                    &&& v.ports@[q].properties.dimensions == v0.ports@[q].properties.dimensions
                },
            forall|q: int|
                p <= q < v0.ports@.len() ==> (#[trigger] v.ports@[q]).properties.direction
                    == v0.ports@[q].properties.direction,
            forall|q: int|
                0 <= q < p ==> (#[trigger] v.ports@[q]).properties.direction == if table@.contains_key(
                    port_name(v0, q),
                ) {
                    table@[port_name(v0, q)]
                } else {
                    v0.ports@[q].properties.direction
                },
            reports@ == unset_reports(v0, vi as int, table@, p as int),
        decreases v0.ports@.len() - p,
    {
        match table.get(v.ports[p].name.as_str()) {
            Some(dir) => {
                v.ports[p].properties.direction = *dir;
            },
            None => {
                reports.push(Diagnostic::DirectionNotSet { vip: vi, port: p });
            },
        }
        p = p + 1;
    }
    reports
}

/// Gives every port of every template the direction that the non-passive
/// instances of the template imply for it through the hardware ports they
/// connect: a controller sees the complement of the hardware direction, a
/// responder the direction itself. The first instance to reach a port name
/// decides; a later one that implies another direction is reported, and so
/// is a port that no instance reaches, which keeps its direction.
pub fn set_vips_port_dir(vips: &mut Vec<VIP>, instances: &Instances, dut: &DUT) -> (r: Vec<
    Diagnostic,
>)
    requires
        resolvable(old(vips)@, instances.instances@, dut.ports@),
    ensures
        final(vips)@.len() == old(vips)@.len(),
        forall|vi: int|
            0 <= vi < old(vips)@.len() ==> resolved(
                old(vips)@[vi],
                #[trigger] final(vips)@[vi],
                instances.instances@,
                dut.ports@,
            ),
        r@ == resolve_reports(
            old(vips)@,
            instances.instances@,
            dut.ports@,
            old(vips)@.len() as int,
        ),
{
    let ghost vs = vips@;
    let ghost insts = instances.instances@;
    let ghost hw = dut.ports@;
    let mut reports: Vec<Diagnostic> = Vec::new();
    let mut vi: usize = 0;
    while vi < vips.len()
        invariant
            vips@.len() == vs.len(),
            vi <= vs.len(),
            insts == instances.instances@,
            hw == dut.ports@,
            resolvable(vs, insts, hw),
            forall|w: int| vi <= w < vs.len() ==> #[trigger] vips@[w] == vs[w],
            forall|w: int| 0 <= w < vi ==> resolved(vs[w], #[trigger] vips@[w], insts, hw),
            reports@ == resolve_reports(vs, insts, hw, vi as int),
        decreases vs.len() - vi,
    {
        assert(vips@[vi as int] == vs[vi as int]);
        assert forall|a: int, k: int|
            0 <= a < insts.len() && #[trigger] paired(vs[vi as int], insts[a], k) implies hw.contains_key(
            insts[a].connected_to@[k]@,
        ) by {
            assert(paired(vs[vi as int], insts[a], k));
        }
        let (table, mut found) = direction_table(&vips[vi], vi, instances, dut);
        let mut unset = apply_directions(&mut vips[vi], vi, &table);
        reports.append(&mut found);
        reports.append(&mut unset);
        assert(reports@ =~= resolve_reports(vs, insts, hw, vi + 1));
        vi = vi + 1;
    }
    reports
}

/// Two templates with the same name and the same port names, in order.
pub open spec fn same_shape(v: VIP, w: VIP) -> bool {
    &&& v.name@ == w.name@
    &&& v.ports@.len() == w.ports@.len()
    &&& forall|k: int| 0 <= k < v.ports@.len() ==> port_name(v, k) == port_name(w, k)
}

proof fn lemma_within_same_shape(
    v: VIP,
    w: VIP,
    vi: int,
    i: Instance,
    a: int,
    hw: Map<Seq<char>, PortProperties>,
    k: int,
    base: Map<Seq<char>, PortDirection>,
)
    requires
        same_shape(v, w),
        k <= v.ports@.len(),
    ensures
        table_within(v, i, hw, k, base) == table_within(w, i, hw, k, base),
        mismatches_within(v, vi, i, a, hw, k, base) == mismatches_within(w, vi, i, a, hw, k, base),
    decreases k,
{
    if k > 0 {
        lemma_within_same_shape(v, w, vi, i, a, hw, k - 1, base);
        assert(paired(v, i, k - 1) == paired(w, i, k - 1));
        assert(port_name(v, k - 1) == port_name(w, k - 1));
    }
}

proof fn lemma_before_same_shape(
    v: VIP,
    w: VIP,
    vi: int,
    insts: Seq<Instance>,
    hw: Map<Seq<char>, PortProperties>,
    a: int,
)
    requires
        same_shape(v, w),
        a <= insts.len(),
    ensures
        table_before(v, insts, hw, a) == table_before(w, insts, hw, a),
        mismatches_before(v, vi, insts, hw, a) == mismatches_before(w, vi, insts, hw, a),
    decreases a,
{
    if a > 0 {
        lemma_before_same_shape(v, w, vi, insts, hw, a - 1);
        lemma_within_same_shape(
            v,
            w,
            vi,
            insts[a - 1],
            a - 1,
            hw,
            v.ports@.len() as int,
            table_before(v, insts, hw, a - 1),
        );
    }
}

proof fn lemma_unset_same_shape(
    v: VIP,
    w: VIP,
    vi: int,
    table: Map<Seq<char>, PortDirection>,
    p: int,
)
    requires
        same_shape(v, w),
        p <= v.ports@.len(),
    ensures
        unset_reports(v, vi, table, p) == unset_reports(w, vi, table, p),
    decreases p,
{
    if p > 0 {
        lemma_unset_same_shape(v, w, vi, table, p - 1);
    }
}

/// Resolution reads only a template's name and port names: two templates
/// that agree on them get the same direction table and the same reports.
pub proof fn lemma_resolution_reads_shape(
    v: VIP,
    w: VIP,
    vi: int,
    insts: Seq<Instance>,
    hw: Map<Seq<char>, PortProperties>,
)
    requires
        same_shape(v, w),
    ensures
        direction_table_of(v, insts, hw) == direction_table_of(w, insts, hw),
        vip_reports(v, vi, insts, hw) == vip_reports(w, vi, insts, hw),
{
    lemma_before_same_shape(v, w, vi, insts, hw, insts.len() as int);
    lemma_unset_same_shape(v, w, vi, direction_table_of(v, insts, hw), v.ports@.len() as int);
}

proof fn lemma_resolve_reports_same_shape(
    vs: Seq<VIP>,
    ws: Seq<VIP>,
    insts: Seq<Instance>,
    hw: Map<Seq<char>, PortProperties>,
    n: int,
)
    requires
        n <= vs.len(),
        vs.len() == ws.len(),
        forall|vi: int| 0 <= vi < vs.len() ==> same_shape(vs[vi], #[trigger] ws[vi]),
    ensures
        resolve_reports(vs, insts, hw, n) == resolve_reports(ws, insts, hw, n),
    decreases n,
{
    if n > 0 {
        lemma_resolve_reports_same_shape(vs, ws, insts, hw, n - 1);
        lemma_resolution_reads_shape(vs[n - 1], ws[n - 1], n - 1, insts, hw);
    }
}

/// Resolving again what resolution returned changes no direction and
/// reports exactly what the first resolution reported; so on a consistent
/// set of templates, where the first reported nothing, it reports nothing.
pub proof fn law_resolution_idempotent(
    vs: Seq<VIP>,
    ws: Seq<VIP>,
    again: Seq<VIP>,
    insts: Seq<Instance>,
    hw: Map<Seq<char>, PortProperties>,
)
    requires
        ws.len() == vs.len(),
        again.len() == ws.len(),
        forall|vi: int| 0 <= vi < vs.len() ==> resolved(vs[vi], #[trigger] ws[vi], insts, hw),
        forall|vi: int| 0 <= vi < ws.len() ==> resolved(ws[vi], #[trigger] again[vi], insts, hw),
    ensures
        forall|vi: int, p: int|
            0 <= vi < ws.len() && 0 <= p < ws[vi].ports@.len() ==> (#[trigger] again[vi].ports@[p])
                == ws[vi].ports@[p],
        resolve_reports(ws, insts, hw, ws.len() as int) == resolve_reports(
            vs,
            insts,
            hw,
            vs.len() as int,
        ),
{
    assert forall|vi: int| 0 <= vi < vs.len() implies same_shape(vs[vi], #[trigger] ws[vi]) by {
        assert(resolved(vs[vi], ws[vi], insts, hw));
        assert forall|k: int| 0 <= k < vs[vi].ports@.len() implies port_name(vs[vi], k) == port_name(
            ws[vi],
            k,
        ) by {
            assert(ws[vi].ports@[k].name == vs[vi].ports@[k].name);
        }
    }
    lemma_resolve_reports_same_shape(vs, ws, insts, hw, vs.len() as int);
    assert forall|vi: int, p: int|
        0 <= vi < ws.len() && 0 <= p < ws[vi].ports@.len() implies (#[trigger] again[vi].ports@[p])
        == ws[vi].ports@[p] by {
        let v = vs[vi];
        let w = ws[vi];
        assert(resolved(v, w, insts, hw));
        assert(resolved(w, again[vi], insts, hw));
        lemma_resolution_reads_shape(v, w, vi, insts, hw);
        assert(port_name(v, p) == port_name(w, p)) by {
            assert(w.ports@[p].name == v.ports@[p].name);
        }
        let t = direction_table_of(w, insts, hw);
        let q = again[vi].ports@[p];
        assert(q.name == w.ports@[p].name);
        assert(q.properties.dimensions == w.ports@[p].properties.dimensions);
        assert(q.properties.direction == w.ports@[p].properties.direction);
        assert(q.properties == w.ports@[p].properties);
    }
}

/// A two-word member descriptor whose first word is not `rand` is accepted,
/// and the member is not randomized.
pub proof fn law_two_words_not_randomized(s: Seq<char>, r: Result<Member, ParseMemberError>)
    requires
        words(s).len() == 2,
        words(s)[0] != rand_word(),
        member_parse_fits(s, r),
    ensures
        r matches Ok(m) && !m.is_randomized,
{
}

/// A three-word member descriptor is accepted, as a randomized member,
/// exactly when its first word is `rand`.
pub proof fn law_three_words_randomized(s: Seq<char>, r: Result<Member, ParseMemberError>)
    requires
        words(s).len() == 3,
        member_parse_fits(s, r),
    ensures
        words(s)[0] == rand_word() ==> (r matches Ok(m) && m.is_randomized),
        words(s)[0] != rand_word() ==> r is Err,
{
}

} // verus!
