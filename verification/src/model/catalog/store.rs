//! Models at rest: always with their API key encrypted.

use crate::model::declaration::{EncryptedModel, Model, ModelId};
use crate::secret::{EncryptedSecret, KeyEpoch};
use crate::text::{join2, same_text};
use vstd::prelude::*;

verus! {

/// The discriminant of the only kind of model there is.
pub const KIND_OPENAI_COMPATIBLE: &'static str = "openai_compatible";

/// An entry of the catalog as it is stored. It can only be made from a
/// declaration in clear and a key encrypted for storage, never from what
/// travelled encrypted for some node: that key is gone once the node restarts.
#[derive(Debug, PartialEq)]
pub struct StoredModel {
    id: ModelId,
    declaration: EncryptedModel,
}

impl StoredModel {
    #[verifier::type_invariant]
    spec fn is_kept_under_its_identifier(self) -> bool {
        self.id@ == self.declaration->id@
    }

    /// The identifier of the entry.
    pub closed spec fn key(&self) -> Seq<char> {
        self.id@
    }

    /// The stored declaration.
    pub closed spec fn stored(&self) -> EncryptedModel {
        self.declaration
    }

    /// The epoch of the key that the API key is encrypted under.
    pub open spec fn epoch(&self) -> KeyEpoch {
        self.stored()->api_key.key_epoch
    }

    /// The entry for `model`; `api_key` is its API key, encrypted for storage.
    pub fn encrypt(model: &Model, api_key: EncryptedSecret) -> (r: Self)
        ensures
            r.key() == model->id@,
            r.stored() == model.encrypted_with(api_key),
            r.epoch() == api_key.key_epoch,
    {
        let id = match model {
            Model::OpenAICompatible { id, .. } => id.clone(),
        };
        StoredModel { id: ModelId::new(id), declaration: model.encrypt(api_key) }
    }

    /// The declaration in clear; `api_key` is its API key, decrypted under the
    /// epoch of the entry.
    pub fn decrypt(self, api_key: String) -> (r: Model)
        ensures
            r == self.stored().decrypted_with(api_key),
            r->id@ == self.key(),
    {
        proof {
            use_type_invariant(&self);
        }
        self.declaration.decrypt(api_key)
    }

    /// The identifier of the entry.
    pub fn id(&self) -> (r: &ModelId)
        ensures
            r@ == self.key(),
    {
        &self.id
    }

    /// The encrypted API key, to decrypt it.
    pub fn api_key(&self) -> (r: &EncryptedSecret)
        ensures
            *r == self.stored()->api_key,
    {
        self.declaration.api_key()
    }

    /// The epoch of the key that the API key is encrypted under. Needs no
    /// decryption.
    pub fn key_epoch(&self) -> (r: KeyEpoch)
        ensures
            r == self.epoch(),
    {
        self.declaration.api_key().key_epoch
    }
}

/// A row of the table of models.
#[derive(Debug, PartialEq)]
pub struct ModelRow {
    pub id: String,
    pub kind: String,
    pub base_url: String,
    pub client_id: String,
    pub api_key_ciphertext: Vec<u8>,
    pub api_key_nonce: Vec<u8>,
    pub api_key_algorithm: String,
    pub api_key_epoch: i32,
    pub model_name: String,
    pub system_prompt: Option<String>,
}

/// The row of an entry.
pub fn encode_row(stored: StoredModel) -> (r: ModelRow)
    ensures
        r.id@ == stored.key(),
        r.id@ == stored.stored()->id@,
        r.kind@ == KIND_OPENAI_COMPATIBLE@,
        r.kind@ == "openai_compatible"@,
        match stored.stored() {
            EncryptedModel::OpenAICompatible {
                id,
                base_url,
                client_id,
                api_key,
                model,
                system_prompt,
            } => {
                &&& r.base_url == base_url
                &&& r.client_id == client_id
                &&& r.api_key_ciphertext == api_key.ciphertext
                &&& r.api_key_nonce == api_key.nonce
                &&& r.api_key_algorithm == api_key.algorithm
                &&& r.api_key_epoch == api_key.key_epoch as i32
                &&& r.model_name == model
                &&& r.system_prompt == system_prompt
            },
        },
{
    proof {
        use_type_invariant(&stored);
    }
    let id = stored.id.as_str().to_owned();
    match stored.declaration {
        EncryptedModel::OpenAICompatible {
            base_url,
            client_id,
            api_key,
            model,
            system_prompt,
            ..
        } => ModelRow {
            id,
            kind: KIND_OPENAI_COMPATIBLE.to_owned(),
            base_url,
            client_id,
            api_key_ciphertext: api_key.ciphertext,
            api_key_nonce: api_key.nonce,
            api_key_algorithm: api_key.algorithm,
            api_key_epoch: #[verifier::truncate]
            (api_key.key_epoch as i32),
            model_name: model,
            system_prompt,
        },
    }
}

/// The entry of a row; an unknown discriminant is an error.
pub fn decode_row(row: ModelRow) -> (r: Result<StoredModel, String>)
    ensures
        r is Ok <==> row.kind@ == KIND_OPENAI_COMPATIBLE@,
        r is Ok <==> row.kind@ == "openai_compatible"@,
        match r {
            Ok(stored) => {
                &&& stored.key() == row.id@
                &&& stored.stored() == (EncryptedModel::OpenAICompatible {
                    id: row.id,
                    base_url: row.base_url,
                    client_id: row.client_id,
                    api_key: EncryptedSecret {
                        key_epoch: row.api_key_epoch as u32,
                        ciphertext: row.api_key_ciphertext,
                        nonce: row.api_key_nonce,
                        algorithm: row.api_key_algorithm,
                    },
                    model: row.model_name,
                    system_prompt: row.system_prompt,
                })
            },
            Err(error) => error@ == "discriminant de modèle inconnu en base : "@ + row.kind@,
        },
{
    if !same_text(row.kind.as_str(), KIND_OPENAI_COMPATIBLE) {
        return Err(join2("discriminant de modèle inconnu en base : ", row.kind.as_str()));
    }
    Ok(
        StoredModel {
            id: ModelId::new(row.id.clone()),
            declaration: EncryptedModel::OpenAICompatible {
                id: row.id,
                base_url: row.base_url,
                client_id: row.client_id,
                api_key: EncryptedSecret {
                    key_epoch: #[verifier::truncate]
                    (row.api_key_epoch as u32),
                    ciphertext: row.api_key_ciphertext,
                    nonce: row.api_key_nonce,
                    algorithm: row.api_key_algorithm,
                },
                model: row.model_name,
                system_prompt: row.system_prompt,
            },
        },
    )
}

/// The epoch of a key survives its way through the signed column of the table,
/// also where it does not fit it.
pub proof fn lemma_epoch_survives_the_row(epoch: u32)
    ensures
        (epoch as i32) as u32 == epoch,
{
    assert((epoch as i32) as u32 == epoch) by (bit_vector);
}

/// What is stored of a model and decrypted with the key that it had is the
/// model again.
pub proof fn lemma_stored_model_reads_back(
    model: Model,
    secret: EncryptedSecret,
    stored: StoredModel,
)
    requires
        stored.stored() == model.encrypted_with(secret),
    ensures
        stored.stored().decrypted_with(model->api_key) == model,
{
}

/// An entry written to a row and read back carries the same encrypted
/// declaration.
pub proof fn lemma_row_reads_back(stored: EncryptedModel, row: ModelRow, read: EncryptedModel)
    requires
        row.id@ == stored->id@,
        row.base_url == stored->base_url,
        row.client_id == stored->client_id,
        row.api_key_ciphertext == stored->api_key.ciphertext,
        row.api_key_nonce == stored->api_key.nonce,
        row.api_key_algorithm == stored->api_key.algorithm,
        row.api_key_epoch == stored->api_key.key_epoch as i32,
        row.model_name == stored->model,
        row.system_prompt == stored->system_prompt,
        read == (EncryptedModel::OpenAICompatible {
            id: row.id,
            base_url: row.base_url,
            client_id: row.client_id,
            api_key: EncryptedSecret {
                key_epoch: row.api_key_epoch as u32,
                ciphertext: row.api_key_ciphertext,
                nonce: row.api_key_nonce,
                algorithm: row.api_key_algorithm,
            },
            model: row.model_name,
            system_prompt: row.system_prompt,
        }),
    ensures
        read->id@ == stored->id@,
        read->base_url == stored->base_url,
        read->client_id == stored->client_id,
        read->api_key == stored->api_key,
        read->model == stored->model,
        read->system_prompt == stored->system_prompt,
{
    lemma_epoch_survives_the_row(stored->api_key.key_epoch);
}

} // verus!
