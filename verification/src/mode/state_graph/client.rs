//! Access to the catalog of state graphs through the control plane.

use crate::mode::state_graph::declaration::{
    copy_edges, copy_nodes, StateGraphDeclaration, StateGraphId,
};
use crate::mode::state_graph::{coherent, node_map, rejected, StateGraph, StateGraphError};
use crate::text::join2;
use vstd::prelude::*;

verus! {

/// What can go wrong between a client and the catalog.
#[derive(Debug, PartialEq)]
pub enum StateGraphClientError {
    UnknownStateGraph(StateGraphId),
    Network(String),
    /// The declaration is no coherent graph.
    InvalidDeclaration(StateGraphError),
}

impl StateGraphClientError {
    /// The message of the error.
    pub open spec fn text(&self) -> Seq<char> {
        match *self {
            StateGraphClientError::UnknownStateGraph(id) => "graphe d'états inconnu : "@ + id@,
            StateGraphClientError::Network(cause) => "échec réseau : "@ + cause@,
            StateGraphClientError::InvalidDeclaration(error) => "déclaration de graphe invalide : "@
                + error.text(),
        }
    }

    /// The message of the error.
    pub fn message(&self) -> (r: String)
        ensures
            r@ == self.text(),
    {
        match self {
            StateGraphClientError::UnknownStateGraph(id) => join2(
                "graphe d'états inconnu : ",
                id.as_str(),
            ),
            StateGraphClientError::Network(cause) => join2("échec réseau : ", cause.as_str()),
            StateGraphClientError::InvalidDeclaration(error) => join2(
                "déclaration de graphe invalide : ",
                error.message().as_str(),
            ),
        }
    }
}

/// What a client makes of the replies of the control plane.
pub struct StateGraphClient;

impl StateGraphClient {
    /// What a lookup of `id` comes to, given the reply of the control plane: the
    /// declaration it found, nothing, or a failure on the way.
    pub fn get(
        id: StateGraphId,
        reply: Result<Option<StateGraphDeclaration>, String>,
    ) -> (r: Result<StateGraphDeclaration, StateGraphClientError>)
        ensures
            r == (match reply {
                Ok(Some(declaration)) => Ok::<StateGraphDeclaration, StateGraphClientError>(declaration),
                Ok(None) => Err(StateGraphClientError::UnknownStateGraph(id)),
                Err(cause) => Err(StateGraphClientError::Network(cause)),
            }),
    {
        match reply {
            Ok(Some(declaration)) => Ok(declaration),
            Ok(None) => Err(StateGraphClientError::UnknownStateGraph(id)),
            Err(cause) => Err(StateGraphClientError::Network(cause)),
        }
    }

    /// Whether `declaration` may be proposed to the cluster at all: an incoherent
    /// one is refused here, before anything is sent.
    pub fn set(declaration: &StateGraphDeclaration) -> (r: Result<(), StateGraphClientError>)
        ensures
            r is Ok <==> coherent(declaration.nodes@, declaration.edges@, declaration.entry@),
            match r {
                Ok(_) => true,
                Err(StateGraphClientError::InvalidDeclaration(error)) => rejected(
                    declaration.nodes@,
                    declaration.edges@,
                    declaration.entry,
                    error,
                ),
                Err(_) => false,
            },
    {
        match StateGraph::new(
            copy_nodes(&declaration.nodes),
            copy_edges(&declaration.edges),
            declaration.entry.clone(),
        ) {
            Ok(_) => Ok(()),
            Err(error) => Err(StateGraphClientError::InvalidDeclaration(error)),
        }
    }

    /// A fresh graph for the declaration `id`, standing on its entry, given the
    /// reply of the control plane. Every call makes a graph of its own, so two
    /// sessions never share their progress.
    pub fn instantiate(
        id: StateGraphId,
        reply: Result<Option<StateGraphDeclaration>, String>,
    ) -> (r: Result<StateGraph, StateGraphClientError>)
        ensures
            match reply {
                Err(cause) => r == Err::<StateGraph, StateGraphClientError>(
                    StateGraphClientError::Network(cause),
                ),
                Ok(None) => r == Err::<StateGraph, StateGraphClientError>(
                    StateGraphClientError::UnknownStateGraph(id),
                ),
                Ok(Some(d)) => {
                    &&& r is Ok <==> coherent(d.nodes@, d.edges@, d.entry@)
                    &&& match r {
                        Ok(graph) => {
                            &&& graph.nodes@ == node_map(d.nodes@)
                            &&& graph.edges@ == d.edges@
                            &&& graph.entry == d.entry
                            &&& graph.current == d.entry
                            &&& graph.valid()
                        },
                        Err(StateGraphClientError::InvalidDeclaration(error)) => rejected(
                            d.nodes@,
                            d.edges@,
                            d.entry,
                            error,
                        ),
                        Err(_) => false,
                    }
                },
            },
    {
        match StateGraphClient::get(id, reply) {
            Err(error) => Err(error),
            Ok(declaration) => {
                match StateGraph::new(declaration.nodes, declaration.edges, declaration.entry) {
                    Ok(graph) => Ok(graph),
                    Err(error) => Err(StateGraphClientError::InvalidDeclaration(error)),
                }
            },
        }
    }

    /// What a call comes to of which only its own value or failure matters, such
    /// as a list of the catalog or a removal from it.
    pub fn outcome<T>(reply: Result<T, String>) -> (r: Result<T, StateGraphClientError>)
        ensures
            r == (match reply {
                Ok(value) => Ok::<T, StateGraphClientError>(value),
                Err(cause) => Err(StateGraphClientError::Network(cause)),
            }),
    {
        match reply {
            Ok(value) => Ok(value),
            Err(cause) => Err(StateGraphClientError::Network(cause)),
        }
    }
}

/// A declaration that [`StateGraphClient::set`] accepts can always be instantiated.
pub proof fn lemma_accepted_can_be_instantiated(
    d: StateGraphDeclaration,
    error: StateGraphError,
)
    requires
        coherent(d.nodes@, d.edges@, d.entry@),
    ensures
        !rejected(d.nodes@, d.edges@, d.entry, error),
{
}

/// Each error is told with its cause, after what it is.
pub proof fn lemma_error_texts(error: StateGraphClientError)
    ensures
        error matches StateGraphClientError::UnknownStateGraph(id) ==> error.text()
            == "graphe d'états inconnu : "@ + id@,
        error matches StateGraphClientError::Network(cause) ==> error.text() == "échec réseau : "@
            + cause@,
        error matches StateGraphClientError::InvalidDeclaration(cause) ==> error.text()
            == "déclaration de graphe invalide : "@ + cause.text(),
{
}

} // verus!
