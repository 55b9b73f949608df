use std::collections::{HashMap, HashSet};

use vstd::prelude::*;

use crate::text;

verus! {

/// What the commands of the client change: the players that are muted, by their uuids with the
/// aliases under which they were muted, and the experimental shaders that are switched on, by
/// their places in the list of the shaders.
#[derive(Debug)]
pub struct GlobalState {
    pub mutelist: HashMap<u128, String>,
    pub experimental_shaders: HashSet<usize>,
}

/// The aliases in a list of muted players.
pub open spec fn aliases(mutelist: Map<u128, String>) -> Map<u128, Seq<char>> {
    mutelist.map_values(|alias: String| alias@)
}

/// The mathematical value of a `GlobalState`.
#[verifier::ext_equal]
pub struct GlobalView {
    pub mutes: Map<u128, Seq<char>>,
    pub shaders: Set<usize>,
}

impl View for GlobalState {
    type V = GlobalView;

    open spec fn view(&self) -> GlobalView {
        GlobalView { mutes: aliases(self.mutelist@), shaders: self.experimental_shaders@ }
    }
}

/// A player who is muted under this alias, if there is one: which of several is left open.
#[verifier::loop_isolation(false)]
pub fn find_muted(mutelist: &HashMap<u128, String>, alias: &str) -> (found: Option<u128>)
    ensures
        match found {
            Some(uuid) => aliases(mutelist@).contains_pair(uuid, alias@),
            None => forall|uuid: u128| !aliases(mutelist@).contains_pair(uuid, alias@),
        },
{
    for (uuid, name) in it: mutelist.iter()
        invariant
            forall|i: int| 0 <= i < it.index() ==> (#[trigger] it.seq()[i]).1@ != alias@,
    {
        if text::same_text(name.as_str(), alias) {
            return Some(*uuid);
        }
    }
    None
}

/// What is said of a state is said of what it holds: every muted player with the alias under
/// which they are listed, and every shader that is switched on.
pub proof fn law_view_of_a_state(state: GlobalState, uuid: u128)
    ensures
        state@.mutes.contains_key(uuid) == state.mutelist@.contains_key(uuid),
        state.mutelist@.contains_key(uuid) ==> state@.mutes[uuid] == state.mutelist@[uuid]@,
        state@.shaders == state.experimental_shaders@,
{
}

} // verus!
