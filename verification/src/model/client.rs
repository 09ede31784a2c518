//! Calls of the nodes that serve the catalog of models: which of them is
//! asked, and what its answer means.

use crate::collections::reversed;
use crate::model::declaration::{EncryptedModel, Model};
use crate::model::NS_MODEL;
use crate::network::bootstrap::{is_selected, peers_in, scores_of, BootstrapClient};
use crate::network::peer::PeerId;
use vstd::prelude::*;

verus! {

/// The procedure that gives a model.
pub const RPC_GET: &'static str = "/marie/models/get";

/// The procedure that lists all models.
pub const RPC_LIST: &'static str = "/marie/models/list";

/// The procedure that adds or replaces a model.
pub const RPC_INSERT: &'static str = "/marie/models/insert";

/// The procedure that changes a model.
pub const RPC_UPDATE: &'static str = "/marie/models/update";

/// The procedure that removes a model.
pub const RPC_REMOVE: &'static str = "/marie/models/remove";

/// What can go wrong with a call of the catalog.
#[derive(Debug, PartialEq)]
pub enum ModelClientError {
    /// No node that serves the catalog is known.
    NoCatalogAvailable,
    /// The catalog does not have the model.
    UnknownModel(String),
    /// An API key could not be decrypted.
    SecretError(String),
    /// The call itself failed.
    RpcError(String),
}

/// The first of the keys that could not be decrypted.
pub open spec fn first_failure(opened: Seq<Result<String, String>>) -> Option<String>
    decreases opened.len(),
{
    if opened.len() == 0 {
        None
    } else {
        match first_failure(opened.drop_last()) {
            Some(error) => Some(error),
            None => match opened.last() {
                Ok(_) => None,
                Err(error) => Some(error),
            },
        }
    }
}

/// A client of the catalog.
pub struct ModelClient {
    pub bootstrap: BootstrapClient,
}

impl ModelClient {
    /// The node to ask about the thing `id`: everyone who knows the same nodes
    /// asks the same one.
    pub fn select_catalog(&self, id: &Vec<u8>) -> (r: Result<
        PeerId,
        ModelClientError,
    >)
        ensures
            match r {
                Ok(peer) => exists|i: int| #[trigger]
                    is_selected(scores_of(id@, peers_in(self.bootstrap.members@, NS_MODEL@)), i) && peer
                        == peers_in(self.bootstrap.members@, NS_MODEL@)[i],
                Err(error) => error == ModelClientError::NoCatalogAvailable && peers_in(
                    self.bootstrap.members@,
                    NS_MODEL@,
                ).len() == 0,
            },
    {
        let namespace = NS_MODEL.to_owned();
        match self.bootstrap.select_peer(&namespace, id) {
            Some(peer) => Ok(peer),
            None => Err(ModelClientError::NoCatalogAvailable),
        }
    }

    /// The node to ask for models to read: `key` says whether there is a key to
    /// decrypt their API keys with, without which nobody is asked.
    pub fn select_to_read(&self, key: Result<(), String>, id: &Vec<u8>) -> (r: Result<
        PeerId,
        ModelClientError,
    >)
        ensures
            match key {
                Err(error) => r == Err::<PeerId, ModelClientError>(
                    ModelClientError::SecretError(error),
                ),
                Ok(_) => match r {
                    Ok(peer) => exists|i: int| #[trigger]
                        is_selected(
                            scores_of(id@, peers_in(self.bootstrap.members@, NS_MODEL@)),
                            i,
                        ) && peer == peers_in(self.bootstrap.members@, NS_MODEL@)[i],
                    Err(error) => error == ModelClientError::NoCatalogAvailable && peers_in(
                        self.bootstrap.members@,
                        NS_MODEL@,
                    ).len() == 0,
                },
            },
    {
        match key {
            Err(error) => Err(ModelClientError::SecretError(error)),
            Ok(_) => self.select_catalog(id),
        }
    }

    /// What is left to do with an answer to [`RPC_GET`] for the model `id`:
    /// decrypt the model that it holds.
    pub fn on_get(id: String, reply: Result<Option<EncryptedModel>, String>) -> (r: Result<
        EncryptedModel,
        ModelClientError,
    >)
        ensures
            r == (match reply {
                Ok(Some(model)) => Ok::<EncryptedModel, ModelClientError>(model),
                Ok(None) => Err(ModelClientError::UnknownModel(id)),
                Err(error) => Err(ModelClientError::RpcError(error)),
            }),
    {
        match reply {
            Ok(Some(model)) => Ok(model),
            Ok(None) => Err(ModelClientError::UnknownModel(id)),
            Err(error) => Err(ModelClientError::RpcError(error)),
        }
    }

    /// The model in clear, once its API key was decrypted, or was not.
    pub fn on_opened(model: EncryptedModel, opened: Result<String, String>) -> (r: Result<
        Model,
        ModelClientError,
    >)
        ensures
            r == (match opened {
                Ok(key) => Ok::<Model, ModelClientError>(model.decrypted_with(key)),
                Err(error) => Err(ModelClientError::SecretError(error)),
            }),
    {
        match opened {
            Ok(key) => Ok(model.decrypt(key)),
            Err(error) => Err(ModelClientError::SecretError(error)),
        }
    }

    /// All models in clear, once the API key of each was decrypted, or was not.
    /// The first key that could not be decrypted fails the whole list.
    pub fn on_list(models: Vec<EncryptedModel>, opened: Vec<Result<String, String>>) -> (r: Result<
        Vec<Model>,
        ModelClientError,
    >)
        requires
            opened@.len() == models@.len(),
        ensures
            match r {
                Ok(list) => {
                    &&& first_failure(opened@) is None
                    &&& list@ == Seq::new(
                        models@.len(),
                        |i: int| models@[i].decrypted_with(opened@[i]->Ok_0),
                    )
                },
                Err(error) => match first_failure(opened@) {
                    Some(cause) => error == ModelClientError::SecretError(cause),
                    None => false,
                },
            },
    {
        let ghost all = models@;
        let ghost keys = opened@;
        let mut rest = reversed(models);
        let mut left = reversed(opened);
        let mut list: Vec<Model> = Vec::new();
        assert(rest@ =~= all.skip(0).reverse());
        assert(left@ =~= keys.skip(0).reverse());
        assert(keys.take(0) =~= Seq::empty());
        while rest.len() > 0
            invariant
                all == models@,
                keys == opened@,
                all.len() == keys.len(),
                rest@.len() <= all.len(),
                left@.len() == rest@.len(),
                rest@ == all.skip(all.len() - rest@.len()).reverse(),
                left@ == keys.skip(keys.len() - left@.len()).reverse(),
                list@.len() == all.len() - rest@.len(),
                forall|i: int|
                    0 <= i < list@.len() ==> #[trigger] list@[i] == all[i].decrypted_with(
                        keys[i]->Ok_0,
                    ),
                first_failure(keys.take(list@.len() as int)) is None,
            decreases rest@.len(),
        {
            let ghost done = list@.len() as int;
            proof {
                assert(keys.take(done + 1).drop_last() =~= keys.take(done));
                assert(keys.take(done + 1).last() == keys[done]);
            }
            match (rest.pop(), left.pop()) {
                (Some(model), Some(key)) => {
                    proof {
                        assert(model == all[done]);
                        assert(key == keys[done]);
                        assert(rest@ =~= all.skip(all.len() - rest@.len()).reverse());
                        assert(left@ =~= keys.skip(keys.len() - left@.len()).reverse());
                    }
                    match key {
                        Ok(key) => {
                            list.push(model.decrypt(key));
                        },
                        Err(error) => {
                            proof {
                                lemma_first_failure_prefix(keys, done + 1);
                            }
                            return Err(ModelClientError::SecretError(error));
                        },
                    }
                },
                _ => {
                    assert(false);
                },
            }
        }
        assert(keys.take(list@.len() as int) =~= keys);
        assert(list@ =~= Seq::new(all.len(), |i: int| all[i].decrypted_with(keys[i]->Ok_0)));
        Ok(list)
    }
}

proof fn lemma_first_failure_prefix(opened: Seq<Result<String, String>>, n: int)
    requires
        0 <= n <= opened.len(),
        first_failure(opened.take(n)) is Some,
    ensures
        first_failure(opened) == first_failure(opened.take(n)),
    decreases opened.len() - n,
{
    if n == opened.len() {
        assert(opened.take(n) =~= opened);
    } else {
        assert(opened.take(n + 1).drop_last() =~= opened.take(n));
        lemma_first_failure_prefix(opened, n + 1);
    }
}

/// The failure that is told is the first one; there is none where every key could
/// be opened.
pub proof fn lemma_first_failure_is_told(opened: Seq<Result<String, String>>, i: int)
    requires
        0 <= i <= opened.len(),
        forall|j: int| 0 <= j < i ==> (#[trigger] opened[j]) is Ok,
    ensures
        i < opened.len() && opened[i] is Err ==> first_failure(opened) == Some(opened[i]->Err_0),
        i == opened.len() ==> first_failure(opened) is None,
    decreases opened.len(),
{
    if opened.len() > 0 {
        let front = opened.drop_last();
        assert forall|j: int| 0 <= j < front.len() implies front[j] == opened[j] by {}
        if i == opened.len() {
            lemma_first_failure_is_told(front, i - 1);
        } else {
            lemma_first_failure_is_told(front, i);
        }
    }
}

} // verus!
