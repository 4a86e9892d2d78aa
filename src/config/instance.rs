//! Component instances and the allocation of their identifiers.
//!
//! Identifiers are scoped by bucket: the pair (template name, mode). An
//! instance may carry an explicit identifier; the others get the smallest
//! identifiers of their bucket that no explicit identifier claims, in list
//! order.
use vstd::hash_map::StringHashMap;
use vstd::prelude::*;
use vstd::set_lib::{lemma_int_range, lemma_len_subset, lemma_map_size_bound, set_int_range};

use crate::diagnostic::Diagnostic;
use crate::dut::utils::Port;
use crate::render::vip::VIP;
use crate::text::{clone_strings, views};

verus! {

#[derive(Clone, Copy, Debug, Default, PartialEq, Eq, Hash, Structural)]
pub enum Mode {
    #[default]
    Controller,
    Responder,
    Passive,
}

#[derive(Clone, Debug)]
pub struct Instance {
    pub vip_name: String,
    pub connected_to: Vec<String>,
    pub id: Option<u32>,
    pub mode: Mode,
}

#[derive(Clone, Debug)]
pub struct Instances {
    pub instances: Vec<Instance>,
}

pub open spec fn in_bucket(i: Instance, name: Seq<char>, mode: Mode) -> bool {
    i.vip_name@ == name && i.mode == mode
}

/// One of the first `n` instances claims `id` explicitly in the bucket.
pub open spec fn claimed_before(
    insts: Seq<Instance>,
    n: int,
    name: Seq<char>,
    mode: Mode,
    id: u32,
) -> bool {
    exists|j: int| 0 <= j < n && in_bucket(insts[j], name, mode) && insts[j].id == Some(id)
}

/// Some instance claims `id` explicitly in the bucket.
pub open spec fn explicitly_used(insts: Seq<Instance>, name: Seq<char>, mode: Mode, id: u32) -> bool {
    claimed_before(insts, insts.len() as int, name, mode, id)
}

/// The explicit identifier of instance `j` was claimed in its bucket by an
/// earlier instance.
pub open spec fn is_duplicate(insts: Seq<Instance>, j: int) -> bool {
    insts[j].id is Some && claimed_before(insts, j, insts[j].vip_name@, insts[j].mode, insts[j].id->Some_0)
}

/// The duplicate reports of the first `n` instances, in order.
pub open spec fn duplicate_reports(insts: Seq<Instance>, n: int) -> Seq<Diagnostic>
    decreases n,
{
    if n <= 0 {
        seq![]
    } else {
        duplicate_reports(insts, n - 1) + if is_duplicate(insts, n - 1) {
            seq![Diagnostic::DuplicateId { instance: (n - 1) as usize }]
        } else {
            seq![]
        }
    }
}

/// Instance `j` had no identifier before allocation and has none after.
pub open spec fn is_exhausted(ins: Seq<Instance>, outs: Seq<Instance>, j: int) -> bool {
    ins[j].id is None && outs[j].id is None
}

/// The exhaustion reports of the first `n` instances, in order.
pub open spec fn exhausted_reports(ins: Seq<Instance>, outs: Seq<Instance>, n: int) -> Seq<
    Diagnostic,
>
    decreases n,
{
    if n <= 0 {
        seq![]
    } else {
        exhausted_reports(ins, outs, n - 1) + if is_exhausted(ins, outs, n - 1) {
            seq![Diagnostic::IdsExhausted { instance: (n - 1) as usize }]
        } else {
            seq![]
        }
    }
}

/// An instance before `j` that had no identifier was given `id` in the bucket.
pub open spec fn auto_before(
    ins: Seq<Instance>,
    outs: Seq<Instance>,
    j: int,
    name: Seq<char>,
    mode: Mode,
    id: u32,
) -> bool {
    exists|k: int|
        0 <= k < j && ins[k].id is None && in_bucket(ins[k], name, mode) && outs[k].id == Some(id)
}

/// `id` is claimed explicitly in the bucket, or was handed out before `j`.
pub open spec fn taken(
    ins: Seq<Instance>,
    outs: Seq<Instance>,
    j: int,
    name: Seq<char>,
    mode: Mode,
    id: u32,
) -> bool {
    explicitly_used(ins, name, mode, id) || auto_before(ins, outs, j, name, mode, id)
}

/// `outs` is `ins` with identifiers allocated: every instance keeps its
/// template, connections and mode, and its explicit identifier; each other
/// instance gets the smallest identifier of its bucket that is neither
/// claimed explicitly nor handed out to an earlier instance, or none when
/// every `u32` is.
pub open spec fn allocated(ins: Seq<Instance>, outs: Seq<Instance>) -> bool {
    &&& outs.len() == ins.len()
    &&& forall|j: int|
        0 <= j < ins.len() ==> {
            &&& (#[trigger] outs[j]).vip_name == ins[j].vip_name
            &&& outs[j].connected_to == ins[j].connected_to
            &&& outs[j].mode == ins[j].mode
        }
    &&& forall|j: int| 0 <= j < ins.len() && ins[j].id is Some ==> (#[trigger] outs[j]).id == ins[j].id
    &&& forall|j: int|
        0 <= j < ins.len() && ins[j].id is None ==> auto_id_fits(ins, outs, j, #[trigger] outs[j].id)
}

/// What the identifier `got` of instance `j`, which had none, satisfies.
pub open spec fn auto_id_fits(ins: Seq<Instance>, outs: Seq<Instance>, j: int, got: Option<u32>) -> bool {
    let name = ins[j].vip_name@;
    let mode = ins[j].mode;
    match got {
        Some(x) => {
            &&& !taken(ins, outs, j, name, mode, x)
            &&& forall|y: u32| y < x ==> taken(ins, outs, j, name, mode, y)
        },
        None => forall|y: u32| taken(ins, outs, j, name, mode, y),
    }
}

/// The explicit identifiers of the instances, by bucket.
pub struct UsedId {
    pub vip_name: String,
    pub mode: Mode,
    pub id: u32,
}

pub struct UsageTable {
    pub entries: Vec<UsedId>,
}

impl UsageTable {
    pub open spec fn has(&self, name: Seq<char>, mode: Mode, id: u32) -> bool {
        exists|k: int|
            0 <= k < self.entries@.len() && (#[trigger] self.entries@[k]).vip_name@ == name
                && self.entries@[k].mode == mode && self.entries@[k].id == id
    }

    pub fn contains(&self, name: &String, mode: Mode, id: u32) -> (r: bool)
        ensures
            r == self.has(name@, mode, id),
    {
        let mut k: usize = 0;
        while k < self.entries.len()
            invariant
                k <= self.entries@.len(),
                forall|m: int|
                    0 <= m < k ==> !((#[trigger] self.entries@[m]).vip_name@ == name@
                        && self.entries@[m].mode == mode && self.entries@[m].id == id),
            decreases self.entries@.len() - k,
        {
            let e = &self.entries[k];
            if e.id == id && e.mode == mode && e.vip_name == *name {
                return true;
            }
            k = k + 1;
        }
        false
    }
}

/// Per-mode counters of one template.
#[derive(Clone, Copy)]
pub struct ModeCounts {
    pub controller: u64,
    pub responder: u64,
    pub passive: u64,
}

impl ModeCounts {
    pub open spec fn at(self, mode: Mode) -> u64 {
        match mode {
            Mode::Controller => self.controller,
            Mode::Responder => self.responder,
            Mode::Passive => self.passive,
        }
    }

    pub fn get(&self, mode: Mode) -> (r: u64)
        ensures
            r == self.at(mode),
    {
        match mode {
            Mode::Controller => self.controller,
            Mode::Responder => self.responder,
            Mode::Passive => self.passive,
        }
    }

    pub fn with(self, mode: Mode, v: u64) -> (r: ModeCounts)
        ensures
            forall|m: Mode| r.at(m) == if m == mode { v } else { self.at(m) },
    {
        match mode {
            Mode::Controller => ModeCounts { controller: v, ..self },
            Mode::Responder => ModeCounts { responder: v, ..self },
            Mode::Passive => ModeCounts { passive: v, ..self },
        }
    }
}

/// The next candidate identifier of each bucket.
pub struct IdCounters {
    pub per_vip: StringHashMap<ModeCounts>,
}

impl IdCounters {
    pub open spec fn next(&self, name: Seq<char>, mode: Mode) -> nat {
        if self.per_vip@.contains_key(name) {
            self.per_vip@[name].at(mode) as nat
        } else {
            0
        }
    }

    pub fn new() -> (r: IdCounters)
        ensures
            forall|name: Seq<char>, mode: Mode| r.next(name, mode) == 0,
    {
        IdCounters { per_vip: StringHashMap::new() }
    }

    pub fn get(&self, name: &String, mode: Mode) -> (r: u64)
        ensures
            r == self.next(name@, mode),
    {
        match self.per_vip.get(name.as_str()) {
            Some(c) => c.get(mode),
            None => 0,
        }
    }

    pub fn set(&mut self, name: &String, mode: Mode, v: u64)
        ensures
            forall|n: Seq<char>, m: Mode|
                final(self).next(n, m) == if n == name@ && m == mode {
                    v as nat
                } else {
                    old(self).next(n, m)
                },
    {
        let current = match self.per_vip.get(name.as_str()) {
            Some(c) => *c,
            None => ModeCounts { controller: 0, responder: 0, passive: 0 },
        };
        self.per_vip.insert(name.clone(), current.with(mode, v));
    }
}

/// Allocation facts about the instances before `k` depend on the
/// identifiers handed out before `k` alone.
proof fn lemma_prefix_stable(ins: Seq<Instance>, o1: Seq<Instance>, o2: Seq<Instance>, k: int)
    requires
        0 <= k <= ins.len(),
        o1.len() == ins.len(),
        o2.len() == ins.len(),
        forall|i: int| 0 <= i < k ==> o1[i].id == o2[i].id,
    ensures
        forall|j: int, n: Seq<char>, m: Mode, y: u32|
            0 <= j <= k ==> (#[trigger] auto_before(ins, o1, j, n, m, y) == auto_before(
                ins,
                o2,
                j,
                n,
                m,
                y,
            )),
        forall|j: int|
            0 <= j < k ==> (#[trigger] auto_id_fits(ins, o1, j, o1[j].id) == auto_id_fits(
                ins,
                o2,
                j,
                o2[j].id,
            )),
        exhausted_reports(ins, o1, k) == exhausted_reports(ins, o2, k),
    decreases k,
{
    assert forall|j: int, n: Seq<char>, m: Mode, y: u32|
        0 <= j <= k implies (#[trigger] auto_before(ins, o1, j, n, m, y) == auto_before(
            ins,
            o2,
            j,
            n,
            m,
            y,
        )) by {
        if auto_before(ins, o1, j, n, m, y) {
            let w = choose|w: int|
                0 <= w < j && ins[w].id is None && in_bucket(ins[w], n, m) && o1[w].id == Some(y);
            assert(o2[w].id == Some(y));
        }
        if auto_before(ins, o2, j, n, m, y) {
            let w = choose|w: int|
                0 <= w < j && ins[w].id is None && in_bucket(ins[w], n, m) && o2[w].id == Some(y);
            assert(o1[w].id == Some(y));
        }
    }
    assert forall|j: int| 0 <= j < k implies (#[trigger] auto_id_fits(ins, o1, j, o1[j].id)
        == auto_id_fits(ins, o2, j, o2[j].id)) by {
        let n = ins[j].vip_name@;
        let m = ins[j].mode;
        assert forall|y: u32| taken(ins, o1, j, n, m, y) == taken(ins, o2, j, n, m, y) by {
            assert(auto_before(ins, o1, j, n, m, y) == auto_before(ins, o2, j, n, m, y));
        }
    }
    if k > 0 {
        lemma_prefix_stable(ins, o1, o2, k - 1);
    }
}

/// An identifier taken before `k` is still taken before `k + 1`.
proof fn lemma_taken_grows(ins: Seq<Instance>, outs: Seq<Instance>, k: int)
    requires
        0 <= k < ins.len(),
        outs.len() == ins.len(),
    ensures
        forall|n: Seq<char>, m: Mode, y: u32|
            #[trigger] taken(ins, outs, k, n, m, y) ==> taken(ins, outs, k + 1, n, m, y),
{
    assert forall|n: Seq<char>, m: Mode, y: u32|
        #[trigger] taken(ins, outs, k, n, m, y) implies taken(ins, outs, k + 1, n, m, y) by {
        if auto_before(ins, outs, k, n, m, y) {
            let w = choose|w: int|
                0 <= w < k && ins[w].id is None && in_bucket(ins[w], n, m) && outs[w].id == Some(
                    y,
                );
            assert(auto_before(ins, outs, k + 1, n, m, y));
        }
    }
}

proof fn lemma_no_duplicate_reports(insts: Seq<Instance>, n: int)
    requires
        0 <= n <= insts.len(),
        duplicate_reports(insts, n) == Seq::<Diagnostic>::empty(),
    ensures
        forall|j: int| 0 <= j < n ==> !is_duplicate(insts, j),
    decreases n,
{
    if n > 0 {
        let tail = if is_duplicate(insts, n - 1) {
            seq![Diagnostic::DuplicateId { instance: (n - 1) as usize }]
        } else {
            seq![]
        };
        assert(duplicate_reports(insts, n) == duplicate_reports(insts, n - 1) + tail);
        assert(duplicate_reports(insts, n - 1).len() + tail.len() == 0);
        assert(duplicate_reports(insts, n - 1) =~= Seq::<Diagnostic>::empty());
        lemma_no_duplicate_reports(insts, n - 1);
    }
}

proof fn lemma_no_duplicates_no_reports(insts: Seq<Instance>, n: int)
    requires
        0 <= n <= insts.len(),
        forall|j: int| 0 <= j < n ==> !is_duplicate(insts, j),
    ensures
        duplicate_reports(insts, n) == Seq::<Diagnostic>::empty(),
    decreases n,
{
    if n > 0 {
        lemma_no_duplicates_no_reports(insts, n - 1);
        assert(duplicate_reports(insts, n) =~= Seq::<Diagnostic>::empty());
    }
}

proof fn lemma_no_exhausted_reports(ins: Seq<Instance>, outs: Seq<Instance>, n: int)
    requires
        0 <= n <= ins.len(),
        exhausted_reports(ins, outs, n) == Seq::<Diagnostic>::empty(),
    ensures
        forall|j: int| 0 <= j < n ==> !is_exhausted(ins, outs, j),
    decreases n,
{
    if n > 0 {
        let tail = if is_exhausted(ins, outs, n - 1) {
            seq![Diagnostic::IdsExhausted { instance: (n - 1) as usize }]
        } else {
            seq![]
        };
        assert(exhausted_reports(ins, outs, n) == exhausted_reports(ins, outs, n - 1) + tail);
        assert(exhausted_reports(ins, outs, n - 1).len() + tail.len() == 0);
        assert(exhausted_reports(ins, outs, n - 1) =~= Seq::<Diagnostic>::empty());
        lemma_no_exhausted_reports(ins, outs, n - 1);
    }
}

proof fn lemma_all_set_no_exhausted_reports(ins: Seq<Instance>, outs: Seq<Instance>, n: int)
    requires
        0 <= n <= ins.len(),
        forall|j: int| 0 <= j < n ==> (#[trigger] ins[j]).id is Some,
    ensures
        exhausted_reports(ins, outs, n) == Seq::<Diagnostic>::empty(),
    decreases n,
{
    if n > 0 {
        lemma_all_set_no_exhausted_reports(ins, outs, n - 1);
        assert(ins[n - 1].id is Some);
        assert(exhausted_reports(ins, outs, n) =~= Seq::<Diagnostic>::empty());
    }
}

/// Allocation leaves a fully identified instance list whose identifiers are
/// unique within each bucket as it is, and reports nothing.
pub proof fn law_allocation_keeps_identified(ins: Seq<Instance>, outs: Seq<Instance>)
    requires
        forall|j: int| 0 <= j < ins.len() ==> (#[trigger] ins[j]).id is Some,
        forall|j: int| 0 <= j < ins.len() ==> !is_duplicate(ins, j),
        allocated(ins, outs),
    ensures
        forall|j: int|
            0 <= j < ins.len() ==> {
                &&& (#[trigger] outs[j]).id == ins[j].id
                &&& outs[j].vip_name == ins[j].vip_name
                &&& outs[j].connected_to == ins[j].connected_to
                &&& outs[j].mode == ins[j].mode
            },
        duplicate_reports(ins, ins.len() as int) + exhausted_reports(ins, outs, ins.len() as int)
            == Seq::<Diagnostic>::empty(),
{
    lemma_no_duplicates_no_reports(ins, ins.len() as int);
    lemma_all_set_no_exhausted_reports(ins, outs, ins.len() as int);
    assert forall|j: int| 0 <= j < ins.len() implies (#[trigger] outs[j]).id == ins[j].id by {
        assert(ins[j].id is Some);
    }
    assert(Seq::<Diagnostic>::empty() + Seq::<Diagnostic>::empty() =~= Seq::<Diagnostic>::empty());
}

/// Allocating again what an allocation that reported nothing returned
/// changes no identifier and reports nothing: the first allocation leaves
/// every instance identified, uniquely within its bucket.
pub proof fn law_allocation_idempotent(
    ins: Seq<Instance>,
    outs: Seq<Instance>,
    again: Seq<Instance>,
)
    requires
        allocated(ins, outs),
        duplicate_reports(ins, ins.len() as int) + exhausted_reports(ins, outs, ins.len() as int)
            == Seq::<Diagnostic>::empty(),
        allocated(outs, again),
    ensures
        forall|j: int|
            0 <= j < outs.len() ==> {
                &&& (#[trigger] again[j]).id == outs[j].id
                &&& again[j].vip_name == outs[j].vip_name
                &&& again[j].connected_to == outs[j].connected_to
                &&& again[j].mode == outs[j].mode
            },
        duplicate_reports(outs, outs.len() as int) + exhausted_reports(
            outs,
            again,
            outs.len() as int,
        ) == Seq::<Diagnostic>::empty(),
{
    let n = ins.len() as int;
    let d = duplicate_reports(ins, n);
    let e = exhausted_reports(ins, outs, n);
    assert(d.len() + e.len() == 0);
    assert(d =~= Seq::<Diagnostic>::empty());
    assert(e =~= Seq::<Diagnostic>::empty());
    lemma_no_duplicate_reports(ins, n);
    lemma_no_exhausted_reports(ins, outs, n);
    assert forall|j: int| 0 <= j < n implies (#[trigger] outs[j]).id is Some by {
        if ins[j].id is None {
            assert(!is_exhausted(ins, outs, j));
        }
    }
    assert forall|j: int| 0 <= j < n implies !is_duplicate(outs, j) by {
        if is_duplicate(outs, j) {
            let x = outs[j].id->Some_0;
            let name = outs[j].vip_name@;
            let mode = outs[j].mode;
            let w = choose|w: int|
                0 <= w < j && in_bucket(outs[w], name, mode) && outs[w].id == Some(x);
            if ins[j].id is Some {
                if ins[w].id is Some {
                    assert(claimed_before(ins, j, name, mode, x));
                    assert(is_duplicate(ins, j));
                } else {
                    assert(explicitly_used(ins, name, mode, x)) by {
                        assert(in_bucket(ins[j], name, mode));
                    }
                    assert(auto_id_fits(ins, outs, w, outs[w].id));
                }
            } else {
                if ins[w].id is Some {
                    assert(explicitly_used(ins, name, mode, x)) by {
                        assert(in_bucket(ins[w], name, mode));
                    }
                } else {
                    assert(auto_before(ins, outs, j, name, mode, x));
                }
                assert(auto_id_fits(ins, outs, j, outs[j].id));
            }
        }
    }
    law_allocation_keeps_identified(outs, again);
}

/// The identifier that instance `w` holds after allocation, as an integer;
/// -1 when it holds none.
pub open spec fn held_id(ins: Seq<Instance>, outs: Seq<Instance>, w: int) -> int {
    if ins[w].id is Some {
        ins[w].id->Some_0 as int
    } else if outs[w].id is Some {
        outs[w].id->Some_0 as int
    } else {
        -1
    }
}

/// With at most 2^32 instances no bucket runs out of identifiers: every
/// instance ends with one, and allocation reports no exhaustion.
pub proof fn law_identifiers_suffice(ins: Seq<Instance>, outs: Seq<Instance>)
    requires
        allocated(ins, outs),
        ins.len() <= 0x1_0000_0000,
    ensures
        forall|j: int| 0 <= j < ins.len() ==> (#[trigger] outs[j]).id is Some,
        exhausted_reports(ins, outs, ins.len() as int) == Seq::<Diagnostic>::empty(),
{
    let n = ins.len() as int;
    assert forall|j: int| 0 <= j < n implies (#[trigger] outs[j]).id is Some by {
        if outs[j].id is None {
            assert(ins[j].id is None);
            assert(auto_id_fits(ins, outs, j, outs[j].id));
            let name = ins[j].vip_name@;
            let mode = ins[j].mode;
            let f = |w: int| held_id(ins, outs, w);
            let others = set_int_range(0, n).remove(j);
            let values = set_int_range(0, 0x1_0000_0000);
            lemma_int_range(0, n);
            lemma_int_range(0, 0x1_0000_0000);
            lemma_map_size_bound(others, others.map(f), f);
            assert forall|y: int| values.contains(y) implies others.map(f).contains(y) by {
                let x = y as u32;
                assert(taken(ins, outs, j, name, mode, x));
                if explicitly_used(ins, name, mode, x) {
                    let w = choose|w: int|
                        0 <= w < n && in_bucket(ins[w], name, mode) && ins[w].id == Some(x);
                    assert(others.contains(w) && f(w) == y);
                } else {
                    let w = choose|w: int|
                        0 <= w < j && ins[w].id is None && in_bucket(ins[w], name, mode)
                            && outs[w].id == Some(x);
                    assert(others.contains(w) && f(w) == y);
                }
            }
            lemma_len_subset(values, others.map(f));
            assert(false);
        }
    }
    lemma_all_ids_no_exhausted_reports(ins, outs, n);
}

proof fn lemma_all_ids_no_exhausted_reports(ins: Seq<Instance>, outs: Seq<Instance>, n: int)
    requires
        0 <= n <= ins.len(),
        forall|j: int| 0 <= j < n ==> (#[trigger] outs[j]).id is Some,
    ensures
        exhausted_reports(ins, outs, n) == Seq::<Diagnostic>::empty(),
    decreases n,
{
    if n > 0 {
        lemma_all_ids_no_exhausted_reports(ins, outs, n - 1);
        assert(outs[n - 1].id is Some);
        assert(exhausted_reports(ins, outs, n) =~= Seq::<Diagnostic>::empty());
    }
}

impl Instance {
    /// The smallest identifier from `start` on that the usage table does not
    /// hold for this instance's bucket; `None` when no `u32` is left.
    fn get_next_available_id(&self, start: u64, used: &UsageTable) -> (r: Option<u32>)
        requires
            start <= 0x1_0000_0000,
        ensures
            match r {
                Some(x) => {
                    &&& start <= x
                    &&& !used.has(self.vip_name@, self.mode, x)
                    &&& forall|y: u32| start <= y < x ==> used.has(self.vip_name@, self.mode, y)
                },
                None => forall|y: u32| start <= y ==> used.has(self.vip_name@, self.mode, y),
            },
    {
        let mut count: u64 = start;
        while count <= 0xFFFF_FFFF
            invariant
                start <= count <= 0x1_0000_0000,
                forall|y: u32| start <= y < count ==> used.has(self.vip_name@, self.mode, y),
            decreases 0x1_0000_0000 - count,
        {
            if !used.contains(&self.vip_name, self.mode, count as u32) {
                return Some(count as u32);
            }
            count = count + 1;
        }
        None
    }

    /// Gives this instance the next free identifier of its bucket and moves
    /// the bucket's counter past it. When no identifier is left the instance
    /// and the counters stay as they are.
    fn set_next_available_id(&mut self, counts: &mut IdCounters, used: &UsageTable)
        requires
            old(self).id is None,
            forall|n: Seq<char>, m: Mode| old(counts).next(n, m) <= 0x1_0000_0000,
        ensures
            final(self).vip_name == old(self).vip_name,
            final(self).connected_to == old(self).connected_to,
            final(self).mode == old(self).mode,
            ({
                let name = old(self).vip_name@;
                let mode = old(self).mode;
                let c = old(counts).next(name, mode);
                match final(self).id {
                    Some(x) => {
                        &&& c <= x
                        &&& !used.has(name, mode, x)
                        &&& forall|y: u32| c <= y < x ==> used.has(name, mode, y)
                        &&& forall|n: Seq<char>, m: Mode|
                            #[trigger] final(counts).next(n, m) == if n == name && m == mode {
                                (x + 1) as nat
                            } else {
                                old(counts).next(n, m)
                            }
                    },
                    None => {
                        &&& forall|y: u32| c <= y ==> used.has(name, mode, y)
                        &&& forall|n: Seq<char>, m: Mode|
                            #[trigger] final(counts).next(n, m) == old(counts).next(n, m)
                    },
                }
            }),
    {
        let start = counts.get(&self.vip_name, self.mode);
        match self.get_next_available_id(start, used) {
            Some(x) => {
                counts.set(&self.vip_name, self.mode, x as u64 + 1);
                self.id = Some(x);
            },
            None => {
                self.id = None;
            },
        }
    }
}

impl Instances {
    /// Builds the usage table from the explicit identifiers, and reports each
    /// instance whose explicit identifier an earlier instance of its bucket
    /// already claimed.
    pub fn get_already_used_ids(&self) -> (r: (UsageTable, Vec<Diagnostic>))
        ensures
            forall|name: Seq<char>, mode: Mode, id: u32|
                r.0.has(name, mode, id) == explicitly_used(self.instances@, name, mode, id),
            r.1@ == duplicate_reports(self.instances@, self.instances@.len() as int),
    {
        let ghost insts = self.instances@;
        let mut used = UsageTable { entries: Vec::new() };
        let mut reports: Vec<Diagnostic> = Vec::new();
        let mut j: usize = 0;
        while j < self.instances.len()
            invariant
                insts == self.instances@,
                j <= insts.len(),
                forall|name: Seq<char>, mode: Mode, id: u32|
                    #[trigger] used.has(name, mode, id) == claimed_before(insts, j as int, name, mode, id),
                reports@ == duplicate_reports(insts, j as int),
            decreases insts.len() - j,
        {
            let i = &self.instances[j];
            match i.id {
                Some(id) => {
                    if used.contains(&i.vip_name, i.mode, id) {
                        reports.push(Diagnostic::DuplicateId { instance: j });
                        assert forall|name: Seq<char>, mode: Mode, x: u32|
                            #[trigger] used.has(name, mode, x) == claimed_before(
                                insts,
                                j + 1,
                                name,
                                mode,
                                x,
                            ) by {
                            if claimed_before(insts, j + 1, name, mode, x) {
                                let w = choose|w: int|
                                    0 <= w < j + 1 && in_bucket(insts[w], name, mode) && insts[w].id
                                        == Some(x);
                                if w < j {
                                    assert(claimed_before(insts, j as int, name, mode, x));
                                }
                            }
                        }
                    } else {
                        let ghost before = used.entries@;
                        let ghost old_used = used;
                        used.entries.push(UsedId { vip_name: i.vip_name.clone(), mode: i.mode, id });
                        assert(used.entries@.len() == before.len() + 1);
                        assert(forall|k: int| 0 <= k < before.len() ==> used.entries@[k] == before[k]);
                        assert forall|name: Seq<char>, mode: Mode, x: u32|
                            #[trigger] used.has(name, mode, x) == claimed_before(
                                insts,
                                j + 1,
                                name,
                                mode,
                                x,
                            ) by {
                            if claimed_before(insts, j + 1, name, mode, x) {
                                let w = choose|w: int|
                                    0 <= w < j + 1 && in_bucket(insts[w], name, mode) && insts[w].id
                                        == Some(x);
                                if w < j {
                                    assert(claimed_before(insts, j as int, name, mode, x));
                                    assert(old_used.has(name, mode, x));
                                    let k = choose|k: int|
                                        0 <= k < before.len() && (#[trigger] before[k]).vip_name@
                                            == name && before[k].mode == mode && before[k].id == x;
                                    assert(used.entries@[k] == before[k]);
                                } else {
                                    assert(used.entries@[before.len() as int].vip_name@ == name);
                                }
                            }
                            if used.has(name, mode, x) {
                                let k = choose|k: int|
                                    0 <= k < used.entries@.len() && (#[trigger] used.entries@[k]).vip_name@
                                        == name && used.entries@[k].mode == mode
                                        && used.entries@[k].id == x;
                                if k < before.len() {
                                    assert(before[k] == used.entries@[k]);
                                    assert(old_used.has(name, mode, x));
                                    assert(claimed_before(insts, j as int, name, mode, x));
                                }
                            }
                        }
                    }
                },
                None => {
                    assert forall|name: Seq<char>, mode: Mode, x: u32|
                        #[trigger] used.has(name, mode, x) == claimed_before(
                            insts,
                            j + 1,
                            name,
                            mode,
                            x,
                        ) by {
                        if claimed_before(insts, j + 1, name, mode, x) {
                            let w = choose|w: int|
                                0 <= w < j + 1 && in_bucket(insts[w], name, mode) && insts[w].id
                                    == Some(x);
                            assert(w < j);
                        }
                    }
                },
            }
            assert(duplicate_reports(insts, j + 1) == duplicate_reports(insts, j as int) + if is_duplicate(insts, j as int) {
                seq![Diagnostic::DuplicateId { instance: j }]
            } else {
                seq![]
            });
            j = j + 1;
        }
        (used, reports)
    }

    /// Gives every instance without an identifier the smallest identifier of
    /// its bucket that no explicit identifier claims and no earlier instance
    /// was given. Returns the duplicate explicit identifiers, then the
    /// instances for which no `u32` was left.
    pub fn estimate_ids(&mut self) -> (r: Vec<Diagnostic>)
        ensures
            allocated(old(self).instances@, final(self).instances@),
            r@ == duplicate_reports(old(self).instances@, old(self).instances@.len() as int)
                + exhausted_reports(
                old(self).instances@,
                final(self).instances@,
                old(self).instances@.len() as int,
            ),
            old(self).instances@.len() <= 0x1_0000_0000 ==> forall|j: int|
                0 <= j < final(self).instances@.len() ==> (#[trigger] final(self).instances@[j]).id is Some,
    {
        let ghost ins = self.instances@;
        let (used, mut reports) = self.get_already_used_ids();
        let ghost dups = reports@;
        let mut counts = IdCounters::new();
        let mut k: usize = 0;
        while k < self.instances.len()
            invariant
                ins.len() == self.instances@.len(),
                k <= ins.len(),
                dups == duplicate_reports(ins, ins.len() as int),
                forall|n: Seq<char>, m: Mode, id: u32|
                    #[trigger] used.has(n, m, id) == explicitly_used(ins, n, m, id),
                forall|j: int|
                    0 <= j < ins.len() ==> {
                        &&& (#[trigger] self.instances@[j]).vip_name == ins[j].vip_name
                        &&& self.instances@[j].connected_to == ins[j].connected_to
                        &&& self.instances@[j].mode == ins[j].mode
                    },
                forall|j: int| k <= j < ins.len() ==> (#[trigger] self.instances@[j]).id == ins[j].id,
                forall|j: int|
                    0 <= j < k && ins[j].id is Some ==> (#[trigger] self.instances@[j]).id
                        == ins[j].id,
                forall|n: Seq<char>, m: Mode| #[trigger] counts.next(n, m) <= 0x1_0000_0000,
                forall|j: int|
                    0 <= j < k && ins[j].id is None && (#[trigger] self.instances@[j]).id is Some
                        ==> self.instances@[j].id->Some_0 < counts.next(ins[j].vip_name@, ins[j].mode),
                forall|n: Seq<char>, m: Mode, y: u32|
                    y < counts.next(n, m) ==> #[trigger] taken(ins, self.instances@, k as int, n, m, y),
                forall|j: int|
                    0 <= j < k && is_exhausted(ins, self.instances@, j) ==> forall|y: u32|
                        counts.next(ins[j].vip_name@, ins[j].mode) <= y ==> #[trigger] explicitly_used(
                            ins,
                            ins[j].vip_name@,
                            ins[j].mode,
                            y,
                        ),
                forall|j: int|
                    0 <= j < k && ins[j].id is None ==> auto_id_fits(
                        ins,
                        self.instances@,
                        j,
                        #[trigger] self.instances@[j].id,
                    ),
                reports@ == dups + exhausted_reports(ins, self.instances@, k as int),
            decreases ins.len() - k,
        {
            let ghost outs = self.instances@;
            let ghost c = counts;
            proof {
                lemma_taken_grows(ins, outs, k as int);
            }
            if self.instances[k].id.is_none() {
                self.instances[k].set_next_available_id(&mut counts, &used);
                let ghost outs2 = self.instances@;
                let ghost name = ins[k as int].vip_name@;
                let ghost mode = ins[k as int].mode;
                proof {
                    lemma_prefix_stable(ins, outs, outs2, k as int);
                    lemma_taken_grows(ins, outs2, k as int);
                    assert forall|n: Seq<char>, m: Mode, y: u32|
                        y < c.next(n, m) implies #[trigger] taken(ins, outs2, k as int, n, m, y) by {
                        assert(taken(ins, outs, k as int, n, m, y));
                        assert(auto_before(ins, outs, k as int, n, m, y) == auto_before(
                            ins,
                            outs2,
                            k as int,
                            n,
                            m,
                            y,
                        ));
                    }
                    match outs2[k as int].id {
                        Some(x) => {
                            assert(!auto_before(ins, outs2, k as int, name, mode, x)) by {
                                if auto_before(ins, outs2, k as int, name, mode, x) {
                                    let w = choose|w: int|
                                        0 <= w < k && ins[w].id is None && in_bucket(
                                            ins[w],
                                            name,
                                            mode,
                                        ) && outs2[w].id == Some(x);
                                    assert(outs[w].id == Some(x));
                                    assert(outs[w].id->Some_0 < c.next(ins[w].vip_name@, ins[w].mode));
                                }
                            }
                            assert(!used.has(name, mode, x));
                            assert forall|y: u32| y < x implies taken(ins, outs2, k as int, name, mode, y) by {
                                if y < c.next(name, mode) {
                                    assert(taken(ins, outs2, k as int, name, mode, y));
                                } else {
                                    assert(used.has(name, mode, y));
                                }
                            }
                            assert(auto_id_fits(ins, outs2, k as int, outs2[k as int].id));
                            assert forall|n: Seq<char>, m: Mode, y: u32|
                                y < counts.next(n, m) implies #[trigger] taken(
                                ins,
                                outs2,
                                k + 1,
                                n,
                                m,
                                y,
                            ) by {
                                if n == name && m == mode && y >= c.next(n, m) {
                                    if y == x {
                                        assert(auto_before(ins, outs2, k + 1, n, m, y));
                                    } else {
                                        assert(used.has(n, m, y));
                                    }
                                } else {
                                    assert(taken(ins, outs2, k as int, n, m, y));
                                }
                            }
                        },
                        None => {
                            assert forall|y: u32| taken(ins, outs2, k as int, name, mode, y) by {
                                if y < c.next(name, mode) {
                                    assert(taken(ins, outs2, k as int, name, mode, y));
                                } else {
                                    assert(used.has(name, mode, y));
                                }
                            }
                            assert(auto_id_fits(ins, outs2, k as int, outs2[k as int].id));
                            assert forall|n: Seq<char>, m: Mode, y: u32|
                                y < counts.next(n, m) implies #[trigger] taken(
                                ins,
                                outs2,
                                k + 1,
                                n,
                                m,
                                y,
                            ) by {
                                assert(taken(ins, outs2, k as int, n, m, y));
                            }
                        },
                    }
                }
                proof {
                    assert forall|j: int|
                        0 <= j <= k && is_exhausted(ins, outs2, j) implies forall|y: u32|
                            counts.next(ins[j].vip_name@, ins[j].mode) <= y ==> #[trigger] explicitly_used(
                                ins,
                                ins[j].vip_name@,
                                ins[j].mode,
                                y,
                            ) by {
                        if j < k {
                            assert(is_exhausted(ins, outs, j));
                            assert(c.next(ins[j].vip_name@, ins[j].mode) <= counts.next(ins[j].vip_name@, ins[j].mode));
                        } else {
                            assert forall|y: u32| counts.next(ins[j].vip_name@, ins[j].mode) <= y implies #[trigger] explicitly_used(
                                ins,
                                ins[j].vip_name@,
                                ins[j].mode,
                                y,
                            ) by {
                                assert(used.has(name, mode, y));
                            }
                        }
                    }
                }
                if self.instances[k].id.is_none() {
                    reports.push(Diagnostic::IdsExhausted { instance: k });
                }
            } else {
                assert forall|n: Seq<char>, m: Mode, y: u32|
                    y < counts.next(n, m) implies #[trigger] taken(ins, outs, k + 1, n, m, y) by {
                    assert(taken(ins, outs, k as int, n, m, y));
                }
            }
            assert(exhausted_reports(ins, self.instances@, k + 1) == exhausted_reports(ins, self.instances@, k as int) + if is_exhausted(ins, self.instances@, k as int) {
                seq![Diagnostic::IdsExhausted { instance: k }]
            } else {
                seq![]
            });
            k = k + 1;
        }
        proof {
            if ins.len() <= 0x1_0000_0000 {
                law_identifiers_suffice(ins, self.instances@);
            }
        }
        reports
    }
}

impl Instances {
    pub fn from(instances: Vec<Instance>) -> (r: Instances)
        ensures
            r.instances == instances,
    {
        Instances { instances }
    }
}

/// The instances of a template's self-test: one controller, one passive and
/// one responder, each wired port by port to the template's own port names
/// and each with identifier 0.
pub fn get_self_test_instances(vip: &VIP) -> (r: Instances)
    ensures
        r.instances@.len() == 3,
        r.instances@[0].mode == Mode::Controller,
        r.instances@[1].mode == Mode::Passive,
        r.instances@[2].mode == Mode::Responder,
        forall|j: int|
            0 <= j < 3 ==> {
                &&& (#[trigger] r.instances@[j]).vip_name@ == vip.name@
                &&& r.instances@[j].id == Some(0u32)
                &&& views(r.instances@[j].connected_to@) == vip.ports@.map_values(|p: Port| p.name@)
            },
{
    let mut connected_to: Vec<String> = Vec::new();
    let mut k: usize = 0;
    while k < vip.ports.len()
        invariant
            k <= vip.ports@.len(),
            views(connected_to@) == vip.ports@.take(k as int).map_values(|p: Port| p.name@),
        decreases vip.ports@.len() - k,
    {
        let ghost before = connected_to@;
        connected_to.push(vip.ports[k].name.clone());
        assert(views(connected_to@) =~= views(before).push(vip.ports@[k as int].name@));
        assert(vip.ports@.take(k + 1).map_values(|p: Port| p.name@) =~= vip.ports@.take(k as int).map_values(|p: Port| p.name@).push(vip.ports@[k as int].name@));
        k = k + 1;
    }
    assert(vip.ports@.take(vip.ports@.len() as int) =~= vip.ports@);
    let modes = [Mode::Controller, Mode::Passive, Mode::Responder];
    let mut instances: Vec<Instance> = Vec::new();
    let mut m: usize = 0;
    while m < 3
        invariant
            m <= 3,
            instances@.len() == m,
            modes@ == seq![Mode::Controller, Mode::Passive, Mode::Responder],
            views(connected_to@) == vip.ports@.map_values(|p: Port| p.name@),
            forall|j: int|
                0 <= j < m ==> {
                    &&& (#[trigger] instances@[j]).vip_name@ == vip.name@
                    &&& instances@[j].id == Some(0u32)
                    &&& instances@[j].mode == modes@[j]
                    &&& views(instances@[j].connected_to@) == views(connected_to@)
                },
        decreases 3 - m,
    {
        instances.push(
            Instance {
                vip_name: vip.name.clone(),
                connected_to: clone_strings(&connected_to),
                id: Some(0),
                mode: modes[m],
            },
        );
        m = m + 1;
    }
    Instances::from(instances)
}

} // verus!
