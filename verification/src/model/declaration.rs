//! Declarations of models, in clear and encrypted.

use crate::collections::Key;
use crate::secret::EncryptedSecret;
use vstd::prelude::*;

verus! {

/// Identifies a model in the catalog.
#[derive(Debug, PartialEq, Eq, Hash, PartialOrd, Ord)]
pub struct ModelId(String);

impl View for ModelId {
    type V = Seq<char>;

    closed spec fn view(&self) -> Seq<char> {
        self.0@
    }
}

impl ModelId {
    pub fn new(id: String) -> (r: ModelId)
        ensures
            r@ == id@,
    {
        ModelId(id)
    }

    /// The identifier as text.
    pub fn as_str(&self) -> (r: &str)
        ensures
            r@ == self@,
    {
        self.0.as_str()
    }
}

impl Clone for ModelId {
    fn clone(&self) -> (r: Self)
        ensures
            r == *self,
    {
        ModelId(self.0.clone())
    }
}

impl Key for ModelId {
    fn same(&self, other: &Self) -> (r: bool) {
        self.0 == other.0
    }
}

/// A copy of an optional text.
pub fn copy_option(text: &Option<String>) -> (r: Option<String>)
    ensures
        r == *text,
{
    match text {
        Some(text) => Some(text.clone()),
        None => None,
    }
}

/// The declaration of a model. Each variant carries the attributes of its own
/// access protocol.
#[derive(Debug, PartialEq)]
pub enum Model {
    OpenAICompatible {
        id: String,
        base_url: String,
        client_id: String,
        api_key: String,
        model: String,
        /// System prompt that applies by default to every agent on this model.
        system_prompt: Option<String>,
    },
}

/// A [`Model`] whose API key is encrypted for whoever it is sent to.
#[derive(Debug, PartialEq)]
pub enum EncryptedModel {
    OpenAICompatible {
        id: String,
        base_url: String,
        client_id: String,
        api_key: EncryptedSecret,
        model: String,
        system_prompt: Option<String>,
    },
}

impl Model {
    /// The API key in clear.
    pub open spec fn key(&self) -> Seq<char> {
        self->api_key@
    }

    /// This declaration with its API key replaced by an encrypted one.
    pub open spec fn encrypted_with(&self, secret: EncryptedSecret) -> EncryptedModel {
        match *self {
            Model::OpenAICompatible { id, base_url, client_id, api_key, model, system_prompt } => {
                EncryptedModel::OpenAICompatible {
                    id,
                    base_url,
                    client_id,
                    api_key: secret,
                    model,
                    system_prompt,
                }
            },
        }
    }

    /// The API key in clear: never sent and never stored as it is.
    pub fn api_key(&self) -> (r: &str)
        ensures
            r@ == self.key(),
    {
        match self {
            Model::OpenAICompatible { api_key, .. } => api_key.as_str(),
        }
    }

    /// The declaration as it travels and rests: everything but the API key as
    /// it is, and `api_key`, encrypted beforehand for the recipient, in its
    /// place.
    pub fn encrypt(&self, api_key: EncryptedSecret) -> (r: EncryptedModel)
        ensures
            r == self.encrypted_with(api_key),
    {
        match self {
            Model::OpenAICompatible { id, base_url, client_id, model, system_prompt, .. } => {
                EncryptedModel::OpenAICompatible {
                    id: id.clone(),
                    base_url: base_url.clone(),
                    client_id: client_id.clone(),
                    api_key,
                    model: model.clone(),
                    system_prompt: copy_option(system_prompt),
                }
            },
        }
    }
}

impl EncryptedModel {
    /// This declaration with its API key replaced by one in clear.
    pub open spec fn decrypted_with(&self, secret: String) -> Model {
        match *self {
            EncryptedModel::OpenAICompatible {
                id,
                base_url,
                client_id,
                api_key,
                model,
                system_prompt,
            } => {
                Model::OpenAICompatible {
                    id,
                    base_url,
                    client_id,
                    api_key: secret,
                    model,
                    system_prompt,
                }
            },
        }
    }

    /// The encrypted API key.
    pub fn api_key(&self) -> (r: &EncryptedSecret)
        ensures
            *r == self->api_key,
    {
        match self {
            EncryptedModel::OpenAICompatible { api_key, .. } => api_key,
        }
    }

    /// The declaration in clear, once `api_key` has been decrypted.
    pub fn decrypt(self, api_key: String) -> (r: Model)
        ensures
            r == self.decrypted_with(api_key),
    {
        match self {
            EncryptedModel::OpenAICompatible {
                id,
                base_url,
                client_id,
                model,
                system_prompt,
                ..
            } => Model::OpenAICompatible { id, base_url, client_id, api_key, model, system_prompt },
        }
    }
}

/// Encrypting a declaration and decrypting it with the key that it had gives
/// the declaration back, whatever the encrypted key was.
pub proof fn lemma_decrypt_undoes_encrypt(model: Model, secret: EncryptedSecret)
    ensures
        model.encrypted_with(secret).decrypted_with(model->api_key) == model,
        model.encrypted_with(secret)->api_key == secret,
{
}

/// Encryption and decryption exchange the API key, and leave everything else as it
/// is.
pub proof fn lemma_only_the_key_is_exchanged(
    model: Model,
    secret: EncryptedSecret,
    stored: EncryptedModel,
    key: String,
)
    ensures
        model.key() == model->api_key@,
        model.encrypted_with(secret)->id == model->id,
        model.encrypted_with(secret)->base_url == model->base_url,
        model.encrypted_with(secret)->client_id == model->client_id,
        model.encrypted_with(secret)->api_key == secret,
        model.encrypted_with(secret)->model == model->model,
        model.encrypted_with(secret)->system_prompt == model->system_prompt,
        stored.decrypted_with(key)->id == stored->id,
        stored.decrypted_with(key)->base_url == stored->base_url,
        stored.decrypted_with(key)->client_id == stored->client_id,
        stored.decrypted_with(key)->api_key == key,
        stored.decrypted_with(key)->model == stored->model,
        stored.decrypted_with(key)->system_prompt == stored->system_prompt,
{
}

} // verus!
