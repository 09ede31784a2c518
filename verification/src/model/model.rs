//! Models as items of the catalog: the API key lives in the vault, the item
//! only refers to it.

use crate::id::ID;
use crate::model::declaration::copy_option;
use vstd::prelude::*;

verus! {

/// Identifies a model in the catalog.
#[derive(Debug, PartialEq, Eq, Hash, PartialOrd, Ord)]
pub struct ModelId(String);

impl View for ModelId {
    type V = Seq<char>;

    closed spec fn view(&self) -> Seq<char> {
        self.0@
    }
}

impl ModelId {
    pub fn new(id: String) -> (r: ModelId)
        ensures
            r@ == id@,
    {
        ModelId(id)
    }

    /// The identifier as text.
    pub fn as_str(&self) -> (r: &str)
        ensures
            r@ == self@,
    {
        self.0.as_str()
    }
}

impl Clone for ModelId {
    fn clone(&self) -> (r: Self)
        ensures
            r == *self,
    {
        ModelId(self.0.clone())
    }
}

/// Refers to a secret of the vault.
#[derive(Debug, Clone, Copy, PartialEq, Eq, Structural, Hash)]
pub struct SecretRef(pub ID);

/// The kind of the catalog items that models are.
pub const MODEL_KIND: &'static str = "/marie/catalog/models";

/// A model as an item of the catalog.
#[derive(Debug, PartialEq)]
pub enum EncryptedModel {
    OpenAICompatible {
        id: ModelId,
        base_url: String,
        client_id: String,
        api_key: SecretRef,
        model: String,
        system_prompt: Option<String>,
    },
}

/// A model in clear.
#[derive(Debug, PartialEq)]
pub enum Model {
    OpenAICompatible {
        id: ModelId,
        base_url: String,
        client_id: String,
        api_key: String,
        model: String,
        system_prompt: Option<String>,
    },
}

impl EncryptedModel {
    /// The identifier of the item.
    pub fn id(&self) -> (r: &str)
        ensures
            r@ == self->id@,
    {
        match self {
            EncryptedModel::OpenAICompatible { id, .. } => id.as_str(),
        }
    }

    /// The model in clear, once its API key was read from the vault.
    pub fn decrypt(self, secret: String) -> (r: Model)
        ensures
            match self {
                EncryptedModel::OpenAICompatible {
                    id,
                    base_url,
                    client_id,
                    api_key,
                    model,
                    system_prompt,
                } => r == (Model::OpenAICompatible {
                    id,
                    base_url,
                    client_id,
                    api_key: secret,
                    model,
                    system_prompt,
                }),
            },
    {
        match self {
            EncryptedModel::OpenAICompatible {
                id,
                base_url,
                client_id,
                model,
                system_prompt,
                ..
            } => Model::OpenAICompatible {
                id,
                base_url,
                client_id,
                api_key: secret,
                model,
                system_prompt,
            },
        }
    }
}

impl Clone for EncryptedModel {
    fn clone(&self) -> (r: Self)
        ensures
            r == *self,
    {
        match self {
            EncryptedModel::OpenAICompatible {
                id,
                base_url,
                client_id,
                api_key,
                model,
                system_prompt,
            } => EncryptedModel::OpenAICompatible {
                id: id.clone(),
                base_url: base_url.clone(),
                client_id: client_id.clone(),
                api_key: *api_key,
                model: model.clone(),
                system_prompt: copy_option(system_prompt),
            },
        }
    }
}

} // verus!
