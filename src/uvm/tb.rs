//! The testbench environment built from agent templates.
use vstd::prelude::*;

use crate::config::{common, template};
use crate::text::{cat3, decimal, decimal_string};

verus! {

#[derive(Debug)]
pub struct EnvConfig {}

#[derive(Debug)]
pub struct Env {
    pub agents: Vec<Agent>,
    pub config: EnvConfig,
}

#[derive(Debug)]
pub struct AgentConfig {
    pub is_active: bool,
}

#[derive(Debug)]
pub struct Agent {
    pub name: String,
    pub sequencer: Sequencer,
    pub driver: Driver,
    pub monitor: Monitor,
    pub config: AgentConfig,
}

#[derive(Debug)]
pub struct Sequence {
    pub name: String,
}

#[derive(Debug)]
pub struct Sequencer {
    pub sequences: Vec<Sequence>,
}

#[derive(Debug)]
pub struct Driver {}

#[derive(Debug)]
pub struct Monitor {}

/// The name of copy `i` of a template's agent: the agent's name alone when
/// there is one copy, else the name followed by `_` and `i`.
pub open spec fn agent_name(t: template::Template, i: nat) -> Seq<char> {
    if t.agent.number_of_instances == 1 {
        t.agent.name@
    } else {
        t.agent.name@ + "_"@ + decimal(i)
    }
}

/// The (name, activity) of every agent of the first `n` templates, in order.
pub open spec fn agents_of(ts: Seq<template::Template>, n: int) -> Seq<(Seq<char>, bool)>
    decreases n,
{
    if n <= 0 {
        seq![]
    } else {
        agents_of(ts, n - 1) + Seq::new(
            ts[n - 1].agent.number_of_instances as nat,
            |i: int| (agent_name(ts[n - 1], i as nat), ts[n - 1].agent.is_active),
        )
    }
}

pub open spec fn agent_views(v: Seq<Agent>) -> Seq<(Seq<char>, bool)> {
    v.map_values(|a: Agent| (a.name@, a.config.is_active))
}

/// Builds the environment: each template gives as many agents as it asks
/// for, each with one sequencer holding the `default` sequence.
pub fn build(common: &common::Common, templates: &Vec<template::Template>) -> (r: Env)
    ensures
        agent_views(r.agents@) == agents_of(templates@, templates@.len() as int),
        forall|k: int|
            0 <= k < r.agents@.len() ==> {
                &&& (#[trigger] r.agents@[k]).sequencer.sequences@.len() == 1
                &&& r.agents@[k].sequencer.sequences@[0].name@ == "default"@
            },
{
    let mut agents: Vec<Agent> = Vec::new();
    let mut ti: usize = 0;
    while ti < templates.len()
        invariant
            ti <= templates@.len(),
            agent_views(agents@) == agents_of(templates@, ti as int),
            forall|k: int|
                0 <= k < agents@.len() ==> {
                    &&& (#[trigger] agents@[k]).sequencer.sequences@.len() == 1
                    &&& agents@[k].sequencer.sequences@[0].name@ == "default"@
                },
        decreases templates@.len() - ti,
    {
        let t = &templates[ti];
        let count = t.agent.number_of_instances;
        let ghost base = agent_views(agents@);
        let mut i: u32 = 0;
        while i < count
            invariant
                *t == templates@[ti as int],
                count == t.agent.number_of_instances,
                i <= count,
                agent_views(agents@) == base + Seq::new(
                    i as nat,
                    |j: int| (agent_name(*t, j as nat), t.agent.is_active),
                ),
                forall|k: int|
                    0 <= k < agents@.len() ==> {
                        &&& (#[trigger] agents@[k]).sequencer.sequences@.len() == 1
                        &&& agents@[k].sequencer.sequences@[0].name@ == "default"@
                    },
            decreases count - i,
        {
            let name = if count == 1 {
                t.agent.name.clone()
            } else {
                cat3(t.agent.name.as_str(), "_", decimal_string(i).as_str())
            };
            let mut sequences: Vec<Sequence> = Vec::new();
            sequences.push(Sequence { name: "default".to_owned() });
            let agent = Agent {
                name,
                sequencer: Sequencer { sequences },
                driver: Driver {},
                monitor: Monitor {},
                config: AgentConfig { is_active: t.agent.is_active },
            };
            let ghost before = agents@;
            agents.push(agent);
            assert(agent_views(agents@) =~= agent_views(before).push(
                (agent_name(*t, i as nat), t.agent.is_active),
            ));
            assert(base + Seq::new(
                (i + 1) as nat,
                |j: int| (agent_name(*t, j as nat), t.agent.is_active),
            ) =~= (base + Seq::new(
                i as nat,
                |j: int| (agent_name(*t, j as nat), t.agent.is_active),
            )).push((agent_name(*t, i as nat), t.agent.is_active)));
            i = i + 1;
        }
        ti = ti + 1;
    }
    Env { agents, config: EnvConfig {} }
}

} // verus!
