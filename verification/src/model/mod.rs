//! The models that agents run on: their declarations, their catalog, and what
//! becomes of a call.

pub mod catalog;
pub mod client;
pub mod declaration;
pub mod execute;
pub mod model;
pub mod server;

use crate::collections::{ascending, lemma_ascending_push};
use crate::model::model::{EncryptedModel, ModelId, SecretRef};
use crate::text::join2;
use vstd::prelude::*;

verus! {

/// The namespace of nodes that serve the catalog of models.
pub const NS_MODEL: &'static str = "/marie/ns/models";

/// The part of the vault that holds the API keys of models.
pub const MODEL_SECRETS: &'static str = "/marie/secrets/models";

/// What can go wrong with a model.
#[derive(Debug, PartialEq)]
pub enum ModelError {
    VaultError(String),
    CatalogError(String),
    OpenAIError(String),
}

impl ModelError {
    /// The message of the error.
    pub open spec fn text(&self) -> Seq<char> {
        match *self {
            ModelError::VaultError(cause) => "erreur lors des opérations du coffre-fort: "@ + cause@,
            ModelError::CatalogError(cause) => "erreur lors des opérations de cataloguage: "@
                + cause@,
            ModelError::OpenAIError(cause) =>
                "erreur lors des appels au service compatible OpenAI: "@ + cause@,
        }
    }

    /// The message of the error.
    pub fn message(&self) -> (r: String)
        ensures
            r@ == self.text(),
    {
        match self {
            ModelError::VaultError(cause) => join2(
                "erreur lors des opérations du coffre-fort: ",
                cause.as_str(),
            ),
            ModelError::CatalogError(cause) => join2(
                "erreur lors des opérations de cataloguage: ",
                cause.as_str(),
            ),
            ModelError::OpenAIError(cause) => join2(
                "erreur lors des appels au service compatible OpenAI: ",
                cause.as_str(),
            ),
        }
    }
}

/// How the catalog of items answers a failed lookup.
#[derive(Debug, PartialEq)]
pub enum CatalogFailure {
    /// There is no such item.
    NotFound,
    /// The lookup itself failed.
    Failed(String),
}

/// A model to create.
#[derive(Debug, PartialEq)]
pub enum CreateModel {
    OpenAICompatible {
        id: ModelId,
        base_url: String,
        client_id: String,
        api_key: String,
        model: String,
        system_prompt: Option<String>,
    },
}

/// A change of a model.
#[derive(Debug, PartialEq)]
pub enum ModelChange {
    SetBaseUrl(String),
    SetClientId(String),
    SetApiKey(String),
    SetModel(String),
    SetSystemPrompt(String),
}

/// Changes of one model, in order.
#[derive(Debug, PartialEq)]
pub struct ModelChangeset {
    pub id: String,
    pub changes: Vec<ModelChange>,
}

/// What the vault and the catalog must do, in this order, to delete a model.
/// An item whose secret is gone is of no use; a secret whose item is gone
/// would still be one.
#[derive(Debug, PartialEq)]
pub struct DeletePlan {
    pub remove_secret_first: SecretRef,
    pub delete_item_after: ModelId,
}

/// The item after one change. A new API key replaces what the vault holds
/// under the same reference, so the item stays as it is.
pub open spec fn changed(item: EncryptedModel, change: ModelChange) -> EncryptedModel {
    match item {
        EncryptedModel::OpenAICompatible {
            id,
            base_url,
            client_id,
            api_key,
            model,
            system_prompt,
        } => match change {
            ModelChange::SetBaseUrl(value) => EncryptedModel::OpenAICompatible {
                id,
                base_url: value,
                client_id,
                api_key,
                model,
                system_prompt,
            },
            ModelChange::SetClientId(value) => EncryptedModel::OpenAICompatible {
                id,
                base_url,
                client_id: value,
                api_key,
                model,
                system_prompt,
            },
            ModelChange::SetApiKey(_) => item,
            ModelChange::SetModel(value) => EncryptedModel::OpenAICompatible {
                id,
                base_url,
                client_id,
                api_key,
                model: value,
                system_prompt,
            },
            ModelChange::SetSystemPrompt(value) => EncryptedModel::OpenAICompatible {
                id,
                base_url,
                client_id,
                api_key,
                model,
                system_prompt: Some(value),
            },
        },
    }
}

/// The item after changes, in order.
pub open spec fn changed_all(item: EncryptedModel, changes: Seq<ModelChange>) -> EncryptedModel
    decreases changes.len(),
{
    if changes.len() == 0 {
        item
    } else {
        changed(changed_all(item, changes.drop_last()), changes.last())
    }
}

/// The new API keys among changes, in order.
pub open spec fn new_keys(changes: Seq<ModelChange>) -> Seq<String>
    decreases changes.len(),
{
    if changes.len() == 0 {
        Seq::empty()
    } else {
        match changes.last() {
            ModelChange::SetApiKey(value) => new_keys(changes.drop_last()).push(value),
            _ => new_keys(changes.drop_last()),
        }
    }
}

/// The models of a cluster: a catalog of items, whose API keys are in a vault.
pub struct Models;

impl Models {
    /// The item of a new model, once its API key is in the vault under `secret`.
    /// The key itself is not part of it.
    pub fn insert(model: CreateModel, secret: SecretRef) -> (r: EncryptedModel)
        ensures
            match model {
                CreateModel::OpenAICompatible {
                    id,
                    base_url,
                    client_id,
                    api_key,
                    model,
                    system_prompt,
                } => r == (EncryptedModel::OpenAICompatible {
                    id,
                    base_url,
                    client_id,
                    api_key: secret,
                    model,
                    system_prompt,
                }),
            },
    {
        match model {
            CreateModel::OpenAICompatible { id, base_url, client_id, model, system_prompt, .. } => {
                EncryptedModel::OpenAICompatible {
                    id,
                    base_url,
                    client_id,
                    api_key: secret,
                    model,
                    system_prompt,
                }
            },
        }
    }

    /// Applies changes to an item: the item to publish, and the new API keys to
    /// put, in order, under the reference that the item already has.
    pub fn change(item: EncryptedModel, changes: &Vec<ModelChange>) -> (r: (
        EncryptedModel,
        Vec<String>,
    ))
        ensures
            r.0 == changed_all(item, changes@),
            r.1@ == new_keys(changes@),
            r.0->api_key == item->api_key,
            r.0->id == item->id,
    {
        let ghost start = item;
        let mut keys: Vec<String> = Vec::new();
        let EncryptedModel::OpenAICompatible {
            id,
            base_url,
            client_id,
            api_key,
            model,
            system_prompt,
        } = item;
        let mut base_url: String = base_url;
        let mut client_id: String = client_id;
        let mut model: String = model;
        let mut system_prompt: Option<String> = system_prompt;
        let mut i: usize = 0;
        assert(changes@.take(0) =~= Seq::<ModelChange>::empty());
        while i < changes.len()
            invariant
                i <= changes@.len(),
                changed_all(start, changes@.take(i as int)) == (EncryptedModel::OpenAICompatible {
                    id,
                    base_url,
                    client_id,
                    api_key,
                    model,
                    system_prompt,
                }),
                keys@ == new_keys(changes@.take(i as int)),
            decreases changes@.len() - i,
        {
            proof {
                assert(changes@.take(i + 1).drop_last() =~= changes@.take(i as int));
                assert(changes@.take(i + 1).last() == changes@[i as int]);
            }
            match &changes[i] {
                ModelChange::SetBaseUrl(value) => {
                    base_url = value.clone();
                },
                ModelChange::SetClientId(value) => {
                    client_id = value.clone();
                },
                ModelChange::SetApiKey(value) => {
                    keys.push(value.clone());
                },
                ModelChange::SetModel(value) => {
                    model = value.clone();
                },
                ModelChange::SetSystemPrompt(value) => {
                    system_prompt = Some(value.clone());
                },
            }
            i = i + 1;
        }
        assert(changes@.take(i as int) =~= changes@);
        (
            EncryptedModel::OpenAICompatible { id, base_url, client_id, api_key, model, system_prompt },
            keys,
        )
    }

    /// What must be done to delete the model `item`.
    pub fn delete(item: &EncryptedModel) -> (r: DeletePlan)
        ensures
            r.remove_secret_first == item->api_key,
            r.delete_item_after == item->id,
    {
        match item {
            EncryptedModel::OpenAICompatible { id, api_key, .. } => DeletePlan {
                remove_secret_first: *api_key,
                delete_item_after: id.clone(),
            },
        }
    }

    /// What a lookup comes to: an item that is not there is no error.
    pub fn latest<T>(reply: Result<T, CatalogFailure>) -> (r: Result<Option<T>, ModelError>)
        ensures
            r == (match reply {
                Ok(item) => Ok::<Option<T>, ModelError>(Some(item)),
                Err(CatalogFailure::NotFound) => Ok(None),
                Err(CatalogFailure::Failed(cause)) => Err(ModelError::CatalogError(cause)),
            }),
    {
        match reply {
            Ok(item) => Ok(Some(item)),
            Err(CatalogFailure::NotFound) => Ok(None),
            Err(CatalogFailure::Failed(cause)) => Err(ModelError::CatalogError(cause)),
        }
    }
}

/// Changing an item never changes what it is, nor where its key is kept: the
/// identifier and the reference of the key stay, whatever the changes.
pub proof fn lemma_change_keeps_identity(item: EncryptedModel, changes: Seq<ModelChange>)
    ensures
        changed_all(item, changes)->id == item->id,
        changed_all(item, changes)->api_key == item->api_key,
    decreases changes.len(),
{
    if changes.len() > 0 {
        lemma_change_keeps_identity(item, changes.drop_last());
    }
}

/// Later changes win: changes in two batches come to the same as in one.
pub proof fn lemma_change_batches(
    item: EncryptedModel,
    first: Seq<ModelChange>,
    second: Seq<ModelChange>,
)
    ensures
        changed_all(changed_all(item, first), second) == changed_all(item, first + second),
    decreases second.len(),
{
    if second.len() == 0 {
        assert(first + second =~= first);
    } else {
        lemma_change_batches(item, first, second.drop_last());
        assert((first + second).drop_last() =~= first + second.drop_last());
    }
}

/// Of the changes of one field the last one counts.
pub proof fn lemma_last_change_counts(item: EncryptedModel, changes: Seq<ModelChange>, i: int)
    requires
        0 <= i < changes.len(),
    ensures
        changes[i] matches ModelChange::SetBaseUrl(text) ==> (forall|j: int|
            i < j < changes.len() ==> !((#[trigger] changes[j]) is SetBaseUrl)) ==> changed_all(
            item,
            changes,
        )->base_url == text,
        changes[i] matches ModelChange::SetClientId(text) ==> (forall|j: int|
            i < j < changes.len() ==> !((#[trigger] changes[j]) is SetClientId)) ==> changed_all(
            item,
            changes,
        )->client_id == text,
        changes[i] matches ModelChange::SetModel(text) ==> (forall|j: int|
            i < j < changes.len() ==> !((#[trigger] changes[j]) is SetModel)) ==> changed_all(
            item,
            changes,
        )->model == text,
        changes[i] matches ModelChange::SetSystemPrompt(text) ==> (forall|j: int|
            i < j < changes.len() ==> !((#[trigger] changes[j]) is SetSystemPrompt)) ==> changed_all(
            item,
            changes,
        )->system_prompt == Some(text),
    decreases changes.len(),
{
    if i < changes.len() - 1 {
        let front = changes.drop_last();
        assert forall|j: int| 0 <= j < front.len() implies front[j] == changes[j] by {}
        lemma_last_change_counts(item, front, i);
    }
}

/// A field that no change sets stays as it is.
pub proof fn lemma_last_change_counts_or_none(item: EncryptedModel, changes: Seq<ModelChange>)
    ensures
        (forall|j: int| 0 <= j < changes.len() ==> !((#[trigger] changes[j]) is SetBaseUrl)) ==> changed_all(
            item,
            changes,
        )->base_url == item->base_url,
        (forall|j: int| 0 <= j < changes.len() ==> !((#[trigger] changes[j]) is SetClientId)) ==> changed_all(
            item,
            changes,
        )->client_id == item->client_id,
        (forall|j: int| 0 <= j < changes.len() ==> !((#[trigger] changes[j]) is SetModel)) ==> changed_all(
            item,
            changes,
        )->model == item->model,
        (forall|j: int| 0 <= j < changes.len() ==> !((#[trigger] changes[j]) is SetSystemPrompt)) ==> changed_all(
            item,
            changes,
        )->system_prompt == item->system_prompt,
    decreases changes.len(),
{
    if changes.len() > 0 {
        let front = changes.drop_last();
        assert forall|j: int| 0 <= j < front.len() implies front[j] == changes[j] by {}
        lemma_last_change_counts_or_none(item, front);
    }
}

/// The new API keys are those of the changes that set one, in their order: `at` are
/// the positions of those changes.
pub proof fn lemma_new_keys_in_order(changes: Seq<ModelChange>) -> (at: Seq<int>)
    ensures
        ascending(at, changes.len() as int),
        at.len() == new_keys(changes).len(),
        forall|k: int|
            0 <= k < at.len() ==> changes[#[trigger] at[k]] == ModelChange::SetApiKey(
                new_keys(changes)[k],
            ),
        forall|i: int| #[trigger]
            at.contains(i) <==> 0 <= i < changes.len() && changes[i] is SetApiKey,
    decreases changes.len(),
{
    if changes.len() == 0 {
        Seq::empty()
    } else {
        let front = changes.drop_last();
        let n = front.len() as int;
        let before = lemma_new_keys_in_order(front);
        lemma_ascending_push(before, n);
        assert forall|i: int| 0 <= i < n implies front[i] == changes[i] by {}
        if changes.last() is SetApiKey {
            before.push(n)
        } else {
            before
        }
    }
}

/// Each error is told with its cause, after what was being done.
pub proof fn lemma_error_texts(error: ModelError)
    ensures
        error matches ModelError::VaultError(cause) ==> error.text()
            == "erreur lors des opérations du coffre-fort: "@ + cause@,
        error matches ModelError::CatalogError(cause) ==> error.text()
            == "erreur lors des opérations de cataloguage: "@ + cause@,
        error matches ModelError::OpenAIError(cause) ==> error.text()
            == "erreur lors des appels au service compatible OpenAI: "@ + cause@,
{
}

} // verus!
