//! A node that serves the catalog of models.

use crate::collections::reversed;
use crate::model::catalog::{
    changed, decoded, decrypted_changes, fields_of, ids_of, model_text, secrets_in, updated,
    EncryptedModelChangeSet, ModelCatalog, OPENAI_COMPATIBLE,
};
use crate::model::client::{RPC_GET, RPC_INSERT, RPC_LIST, RPC_REMOVE, RPC_UPDATE};
use crate::model::declaration::{EncryptedModel, Model};
use crate::secret::EncryptedSecret;
use crate::text::same_text;
use vstd::prelude::*;

verus! {

/// The procedures of the catalog, and the others.
#[derive(Clone, Copy, Debug, PartialEq, Eq, Structural)]
pub enum ModelProcedure {
    Get,
    List,
    Insert,
    Update,
    Remove,
    Other,
}

/// Which procedure a name stands for.
pub open spec fn procedure_of(name: Seq<char>) -> ModelProcedure {
    if name == RPC_GET@ {
        ModelProcedure::Get
    } else if name == RPC_LIST@ {
        ModelProcedure::List
    } else if name == RPC_INSERT@ {
        ModelProcedure::Insert
    } else if name == RPC_UPDATE@ {
        ModelProcedure::Update
    } else if name == RPC_REMOVE@ {
        ModelProcedure::Remove
    } else {
        ModelProcedure::Other
    }
}

/// Which procedure a name stands for.
pub fn procedure(name: &str) -> (r: ModelProcedure)
    ensures
        r == procedure_of(name@),
{
    if same_text(name, RPC_GET) {
        ModelProcedure::Get
    } else if same_text(name, RPC_LIST) {
        ModelProcedure::List
    } else if same_text(name, RPC_INSERT) {
        ModelProcedure::Insert
    } else if same_text(name, RPC_UPDATE) {
        ModelProcedure::Update
    } else if same_text(name, RPC_REMOVE) {
        ModelProcedure::Remove
    } else {
        ModelProcedure::Other
    }
}

/// The answer to a request for a model: what was found, with its API key
/// replaced by `sealed`, the same key encrypted for the caller.
pub fn answer_get(found: Option<&Model>, sealed: EncryptedSecret) -> (r: Option<EncryptedModel>)
    ensures
        r == (match found {
            Some(model) => Some(model.encrypted_with(sealed)),
            None => None,
        }),
{
    match found {
        Some(model) => Some(model.encrypt(sealed)),
        None => None,
    }
}

/// The answer to a request for all models: `sealed[i]` is the API key of the
/// i-th one, encrypted for the caller.
pub fn answer_list(models: &Vec<Model>, sealed: Vec<EncryptedSecret>) -> (r: Vec<EncryptedModel>)
    requires
        sealed@.len() == models@.len(),
    ensures
        r@.len() == models@.len(),
        forall|i: int|
            0 <= i < r@.len() ==> (#[trigger] r@[i]) == models@[i].encrypted_with(sealed@[i]),
{
    let ghost all = sealed@;
    let mut rest = reversed(sealed);
    let mut r: Vec<EncryptedModel> = Vec::new();
    let mut i: usize = 0;
    assert(rest@ =~= all.skip(0).reverse());
    while i < models.len()
        invariant
            i <= models@.len(),
            all.len() == models@.len(),
            rest@ == all.skip(i as int).reverse(),
            r@.len() == i,
            forall|k: int|
                0 <= k < i ==> (#[trigger] r@[k]) == models@[k].encrypted_with(all[k]),
        decreases models@.len() - i,
    {
        match rest.pop() {
            Some(secret) => {
                assert(secret == all[i as int]);
                assert(rest@ =~= all.skip(i + 1).reverse());
                r.push(models[i].encrypt(secret));
            },
            None => vstd::pervasive::unreached(),
        }
        i = i + 1;
    }
    r
}

/// A node that serves the catalog of models.
pub struct ModelServer {
    pub catalog: ModelCatalog,
}

impl ModelServer {
    /// A node with an empty catalog.
    pub fn new() -> (r: Self)
        ensures
            r.catalog.models() == crate::model::catalog::no_models(),
            r.catalog.fields() == crate::model::catalog::no_fields(),
    {
        ModelServer { catalog: ModelCatalog::new() }
    }

    /// The model that a caller asks for. Its API key is still in clear: see
    /// [`answer_get`].
    pub fn get(&self, id: &str) -> (r: Option<Model>)
        ensures
            match r {
                Some(model) => {
                    &&& self.catalog.models().contains_key(id@)
                    &&& decoded(
                        self.catalog.models()[id@].0,
                        self.catalog.models()[id@].1,
                    ) == Some(model_text(model))
                    &&& model->id@ == id@
                },
                None => !self.catalog.models().contains_key(id@),
            },
    {
        self.catalog.get(id)
    }

    /// Puts a model that travelled encrypted for this node; `api_key` is its
    /// API key decrypted.
    pub fn insert(&mut self, model: EncryptedModel, api_key: String)
        ensures
            final(self).catalog.models() == old(self).catalog.models().insert(
                model->id@,
                (OPENAI_COMPATIBLE@, fields_of(model_text(model.decrypted_with(api_key)))),
            ),
            forall|k: (Seq<char>, Seq<char>)| #[trigger]
                old(self).catalog.fields().contains_key(k) && k.0 != model->id@
                    ==> final(self).catalog.fields().contains_key(k)
                    && final(self).catalog.fields()[k] == old(self).catalog.fields()[k],
            forall|k: (Seq<char>, Seq<char>)| #[trigger]
                final(self).catalog.fields().contains_key(k) && k.0 != model->id@
                    ==> old(self).catalog.fields().contains_key(k),
    {
        self.catalog.insert(model.decrypt(api_key));
    }

    /// Applies changes that travelled encrypted for this node; `api_keys` are
    /// the API keys that they set, decrypted. Where no model is held whole, the
    /// changes are kept field by field.
    pub fn update(&mut self, changeset: EncryptedModelChangeSet, api_keys: Vec<String>)
        requires
            api_keys@.len() == secrets_in(changeset.operations@).len(),
        ensures
            ({
                let before = old(self).catalog;
                let after = final(self).catalog;
                let changes = decrypted_changes(changeset.operations@, api_keys@);
                if before.models().contains_key(changeset.id@) {
                    let entry = before.models()[changeset.id@];
                    &&& decoded(entry.0, entry.1) matches Some(model) && after.models()
                        == before.models().insert(
                        changeset.id@,
                        (OPENAI_COMPATIBLE@, fields_of(changed(model, changes))),
                    )
                    &&& forall|k: (Seq<char>, Seq<char>)| #[trigger]
                        before.fields().contains_key(k) && k.0 != changeset.id@
                            ==> after.fields().contains_key(k) && after.fields()[k]
                            == before.fields()[k]
                    &&& forall|k: (Seq<char>, Seq<char>)| #[trigger]
                        after.fields().contains_key(k) && k.0 != changeset.id@
                            ==> before.fields().contains_key(k)
                } else {
                    &&& after.models() == before.models()
                    &&& after.fields() == updated(before.fields(), changeset.id@, changes)
                }
            }),
    {
        self.catalog.update(changeset.decrypt(api_keys));
    }

    /// All models of the node, each once, in no particular order. Their API
    /// keys are still in clear: see [`answer_list`].
    pub fn list(&self) -> (r: Vec<Model>)
        ensures
            ids_of(r@).no_duplicates(),
            forall|id: Seq<char>| #[trigger]
                ids_of(r@).contains(id) <==> self.catalog.models().contains_key(id),
            forall|i: int|
                0 <= i < r@.len() ==> decoded(
                    self.catalog.models()[(#[trigger] r@[i])->id@].0,
                    self.catalog.models()[r@[i]->id@].1,
                ) == Some(model_text(r@[i])),
    {
        self.catalog.list()
    }

    /// Removes a model.
    pub fn remove(&mut self, id: &str)
        ensures
            final(self).catalog.models() == old(self).catalog.models().remove(id@),
            forall|k: (Seq<char>, Seq<char>)| #[trigger]
                old(self).catalog.fields().contains_key(k) && k.0 != id@
                    ==> final(self).catalog.fields().contains_key(k)
                    && final(self).catalog.fields()[k] == old(self).catalog.fields()[k],
            forall|k: (Seq<char>, Seq<char>)| #[trigger]
                final(self).catalog.fields().contains_key(k) && k.0 != id@
                    ==> old(self).catalog.fields().contains_key(k),
    {
        self.catalog.remove(id);
    }
}

/// A model that was put on a node is what the node then finds under its
/// identifier, whatever it held before.
pub proof fn lemma_put_model_is_found(
    models: Map<Seq<char>, (Seq<char>, Map<Seq<char>, Option<Seq<char>>>)>,
    model: Model,
)
    ensures
        ({
            let after = models.insert(
                model->id@,
                (OPENAI_COMPATIBLE@, fields_of(model_text(model))),
            );
            &&& after.contains_key(model->id@)
            &&& decoded(after[model->id@].0, after[model->id@].1) == Some(model_text(model))
        }),
{
    crate::model::catalog::lemma_inserted_model_reads_back(model_text(model));
}

/// The five names of the catalog's procedures lead to five different ones.
pub proof fn lemma_every_procedure_is_named()
    ensures
        procedure_of(RPC_GET@) == ModelProcedure::Get,
        procedure_of(RPC_LIST@) == ModelProcedure::List,
        procedure_of(RPC_INSERT@) == ModelProcedure::Insert,
        procedure_of(RPC_UPDATE@) == ModelProcedure::Update,
        procedure_of(RPC_REMOVE@) == ModelProcedure::Remove,
{
    reveal_strlit("/marie/models/get");
    reveal_strlit("/marie/models/list");
    reveal_strlit("/marie/models/insert");
    reveal_strlit("/marie/models/update");
    reveal_strlit("/marie/models/remove");
    assert("/marie/models/get"@.len() == 17);
    assert("/marie/models/list"@.len() == 18);
    assert("/marie/models/insert"@[14] == 'i');
    assert("/marie/models/update"@[14] == 'u');
    assert("/marie/models/remove"@[14] == 'r');
    assert("/marie/models/insert"@.len() == 20);
    assert("/marie/models/update"@.len() == 20);
    assert("/marie/models/remove"@.len() == 20);
}

/// Each procedure goes by one name, and every other name is none.
pub proof fn lemma_one_name_per_procedure(name: Seq<char>)
    ensures
        procedure_of(name) == ModelProcedure::Get <==> name == "/marie/models/get"@,
        procedure_of(name) == ModelProcedure::List <==> name == "/marie/models/list"@,
        procedure_of(name) == ModelProcedure::Insert <==> name == "/marie/models/insert"@,
        procedure_of(name) == ModelProcedure::Update <==> name == "/marie/models/update"@,
        procedure_of(name) == ModelProcedure::Remove <==> name == "/marie/models/remove"@,
{
    lemma_every_procedure_is_named();
}

} // verus!
