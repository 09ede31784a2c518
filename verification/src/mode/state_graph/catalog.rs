//! The catalog of state graphs.

use crate::collections::{reversed, Table};
use crate::mode::state_graph::declaration::{StateGraphDeclaration, StateGraphId};
use vstd::prelude::*;

verus! {

/// The state graphs that the cluster knows, by identifier. Written only when a
/// committed request is applied.
pub struct StateGraphCatalog(Table<StateGraphId, StateGraphDeclaration>);

impl View for StateGraphCatalog {
    type V = Map<Seq<char>, StateGraphDeclaration>;

    closed spec fn view(&self) -> Map<Seq<char>, StateGraphDeclaration> {
        self.0@
    }
}

impl StateGraphCatalog {
    pub fn new() -> (r: Self)
        ensures
            r@ == Map::<Seq<char>, StateGraphDeclaration>::empty(),
    {
        StateGraphCatalog(Table::new())
    }

    /// Creates or replaces a declaration, and gives back the one replaced.
    pub fn insert(&mut self, id: StateGraphId, declaration: StateGraphDeclaration) -> (r: Option<
        StateGraphDeclaration,
    >)
        ensures
            final(self)@ == old(self)@.insert(id@, declaration),
            old(self)@.dom().finite(),
            final(self)@.dom().finite(),
            r == (if old(self)@.contains_key(id@) {
                Some(old(self)@[id@])
            } else {
                None
            }),
    {
        self.0.insert(id, declaration)
    }

    /// Removes a declaration and gives it back.
    pub fn remove(&mut self, id: &StateGraphId) -> (r: Option<StateGraphDeclaration>)
        ensures
            final(self)@ == old(self)@.remove(id@),
            old(self)@.dom().finite(),
            final(self)@.dom().finite(),
            r == (if old(self)@.contains_key(id@) {
                Some(old(self)@[id@])
            } else {
                None
            }),
    {
        self.0.remove(id)
    }

    /// The declaration of `id`.
    pub fn get(&self, id: &StateGraphId) -> (r: Option<&StateGraphDeclaration>)
        ensures
            r == (if self@.contains_key(id@) {
                Some(&self@[id@])
            } else {
                None
            }),
    {
        self.0.get(id)
    }

    /// All declarations.
    pub fn as_table(&self) -> (r: &Table<StateGraphId, StateGraphDeclaration>)
        ensures
            r@ == self@,
    {
        &self.0
    }
}

/// An entry of the catalog as it is stored.
#[derive(Debug, PartialEq)]
pub struct StoredStateGraph {
    pub id: StateGraphId,
    pub declaration: StateGraphDeclaration,
}

/// The catalog that a list of stored entries makes up: of two entries with the
/// same identifier the later one stands.
pub open spec fn stored_map(stored: Seq<StoredStateGraph>) -> Map<Seq<char>, StateGraphDeclaration>
    decreases stored.len(),
{
    if stored.len() == 0 {
        Map::empty()
    } else {
        stored_map(stored.drop_last()).insert(stored.last().id@, stored.last().declaration)
    }
}

/// The catalog to start with: what the local store holds, or an empty one
/// where it could not be read.
pub fn load_state_graph_catalog_from_store(stored: Option<Vec<StoredStateGraph>>) -> (r:
    StateGraphCatalog)
    ensures
        r@ == (match stored {
            Some(list) => stored_map(list@),
            None => Map::empty(),
        }),
{
    let mut catalog = StateGraphCatalog::new();
    match stored {
        None => catalog,
        Some(list) => {
            let ghost all = list@;
            let mut rest = reversed(list);
            assert(rest@ =~= all.skip(0).reverse());
            while rest.len() > 0
                invariant
                    rest@.len() <= all.len(),
                    catalog@ == stored_map(all.take(all.len() - rest@.len())),
                    rest@ == all.skip(all.len() - rest@.len()).reverse(),
                decreases rest@.len(),
            {
                let ghost done = all.len() - rest@.len();
                match rest.pop() {
                    Some(entry) => {
                        proof {
                            assert(entry == all[done]);
                            assert(rest@ =~= all.skip(done + 1).reverse());
                            assert(all.take(done + 1).drop_last() =~= all.take(done));
                        }
                        let _ = catalog.insert(entry.id, entry.declaration);
                    },
                    None => {},
                }
            }
            assert(all.take(all.len() as int) =~= all);
            catalog
        },
    }
}

/// The declaration that a catalog starts with under an identifier is the last one
/// stored there.
pub proof fn lemma_last_stored_graph_counts(stored: Seq<StoredStateGraph>, i: int)
    requires
        0 <= i < stored.len(),
        forall|j: int| i < j < stored.len() ==> (#[trigger] stored[j]).id@ != stored[i].id@,
    ensures
        stored_map(stored).contains_key(stored[i].id@),
        stored_map(stored)[stored[i].id@] == stored[i].declaration,
    decreases stored.len(),
{
    let front = stored.drop_last();
    if i < stored.len() - 1 {
        let last = stored[stored.len() - 1];
        assert(last.id@ != stored[i].id@);
        assert(front[i] == stored[i]);
        assert forall|j: int| i < j < front.len() implies (#[trigger] front[j]).id@
            != front[i].id@ by {
            let same = stored[j];
        }
        lemma_last_stored_graph_counts(front, i);
    }
}

/// A catalog starts with nothing under an identifier where nothing is stored.
pub proof fn lemma_only_stored_graphs_are_loaded(stored: Seq<StoredStateGraph>, id: Seq<char>)
    requires
        forall|j: int| 0 <= j < stored.len() ==> (#[trigger] stored[j]).id@ != id,
    ensures
        !stored_map(stored).contains_key(id),
    decreases stored.len(),
{
    if stored.len() > 0 {
        let front = stored.drop_last();
        let last = stored[stored.len() - 1];
        assert(last.id@ != id);
        assert forall|j: int| 0 <= j < front.len() implies (#[trigger] front[j]).id@ != id by {
            let same = stored[j];
        }
        lemma_only_stored_graphs_are_loaded(front, id);
    }
}

} // verus!
