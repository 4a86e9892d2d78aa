//! Agent templates: the agent, its interface and its data item.
pub mod agent;
pub mod interface;
pub mod item;

use vstd::prelude::*;

verus! {

#[derive(Debug)]
pub struct Template {
    pub agent: agent::Agent,
    pub interface: interface::Interface,
    pub item: item::Item,
}

} // verus!
