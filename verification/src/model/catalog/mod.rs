//! The catalog of models as a replicated document.

pub mod rotate;
pub mod store;

use crate::collections::{ascending, lemma_ascending_push, lemma_push_contains, reversed};
use crate::model::declaration::{copy_option, Model};
use crate::secret::EncryptedSecret;
use crate::text::{same_text, texts};
use vstd::prelude::*;

verus! {

#[verifier::external_type_specification]
#[verifier::external_body]
pub struct ExLoroDoc(loro::LoroDoc);

/// The models that `doc` holds whole: by identifier, the variant and the text
/// of each field (nothing for a null).
pub uninterp spec fn whole_models(doc: loro::LoroDoc) -> Map<
    Seq<char>,
    (Seq<char>, Map<Seq<char>, Option<Seq<char>>>),
>;

/// The fields that `doc` holds one by one: by identifier and name, whether or
/// not a model is held whole under the identifier.
pub uninterp spec fn loose_fields(doc: loro::LoroDoc) -> Map<(Seq<char>, Seq<char>), Seq<char>>;

/// Whether `doc` was made as a catalog and only ever changed as one.
pub uninterp spec fn is_catalog(doc: loro::LoroDoc) -> bool;

/// The map that a list of fields stands for: of two with the same name the
/// later one stands.
pub open spec fn field_map(fields: Seq<(String, Option<String>)>) -> Map<
    Seq<char>,
    Option<Seq<char>>,
>
    decreases fields.len(),
{
    if fields.len() == 0 {
        Map::empty()
    } else {
        field_map(fields.drop_last()).insert(
            fields.last().0@,
            match fields.last().1 {
                Some(text) => Some(text@),
                None => None,
            },
        )
    }
}

/// No models.
pub open spec fn no_models() -> Map<Seq<char>, (Seq<char>, Map<Seq<char>, Option<Seq<char>>>)> {
    Map::empty()
}

/// No fields.
pub open spec fn no_fields() -> Map<(Seq<char>, Seq<char>), Seq<char>> {
    Map::empty()
}

/// Calls `loro::LoroDoc::new` and `LoroDoc::get_map`: an empty document.
#[verifier::external_body]
fn new_document() -> (r: loro::LoroDoc)
    ensures
        is_catalog(r),
        whole_models(r) == no_models(),
        loose_fields(r) == no_fields(),
{
    let doc = loro::LoroDoc::new();
    let _ = doc.get_map("models");
    doc
}

/// Calls `loro::LoroMap::insert` on the map of models: puts a model whole,
/// over what was there under its identifier. Other identifiers keep what they
/// have.
#[verifier::external_body]
fn put_whole(
    doc: &mut loro::LoroDoc,
    id: &str,
    variant: &str,
    fields: &Vec<(String, Option<String>)>,
)
    requires
        is_catalog(*old(doc)),
    ensures
        is_catalog(*final(doc)),
        whole_models(*final(doc)) == whole_models(*old(doc)).insert(
            id@,
            (variant@, field_map(fields@)),
        ),
        forall|k: (Seq<char>, Seq<char>)| #[trigger]
            loose_fields(*final(doc)).contains_key(k) && k.0 != id@
                ==> loose_fields(*old(doc)).contains_key(k) && loose_fields(*old(doc))[k]
                == loose_fields(*final(doc))[k],
        forall|k: (Seq<char>, Seq<char>)| #[trigger]
            loose_fields(*old(doc)).contains_key(k) && k.0 != id@
                ==> loose_fields(*final(doc)).contains_key(k),
{
    let inner: Vec<(String, loro::LoroValue)> = fields.iter().map(
        |(name, text)| (name.clone(), text.clone().map_or(loro::LoroValue::Null, Into::into)),
    ).collect();
    let outer = vec![(variant.to_string(), loro::LoroValue::Map(inner.into()))];
    let _ = doc.get_map("models").insert(id, loro::LoroValue::Map(outer.into()));
}

/// Calls `loro::LoroMap::get` on the map of models: the model that is held
/// whole under an identifier, its fields in no particular order.
#[verifier::external_body]
fn get_whole(doc: &loro::LoroDoc, id: &str) -> (r: Option<(String, Vec<(String, Option<String>)>)>)
    requires
        is_catalog(*doc),
    ensures
        match r {
            Some(found) => {
                &&& whole_models(*doc).contains_key(id@)
                &&& whole_models(*doc)[id@] == (found.0@, field_map(found.1@))
            },
            None => !whole_models(*doc).contains_key(id@),
        },
{
    let value = doc.get_map("models").get(id)?;
    let (variant, inner) = value.as_value()?.as_map()?.iter().next()?;
    let fields = inner.as_map()?.iter().map(
        |(name, text)| (name.clone(), text.as_string().map(|text| text.to_string())),
    ).collect();
    Some((variant.clone(), fields))
}

/// Calls `loro::LoroMap::delete` on the map of models: no model is held whole
/// under the identifier any more. Other identifiers keep what they have.
#[verifier::external_body]
fn delete_whole(doc: &mut loro::LoroDoc, id: &str)
    requires
        is_catalog(*old(doc)),
    ensures
        is_catalog(*final(doc)),
        whole_models(*final(doc)) == whole_models(*old(doc)).remove(id@),
        forall|k: (Seq<char>, Seq<char>)| #[trigger]
            loose_fields(*final(doc)).contains_key(k) && k.0 != id@
                ==> loose_fields(*old(doc)).contains_key(k) && loose_fields(*old(doc))[k]
                == loose_fields(*final(doc))[k],
        forall|k: (Seq<char>, Seq<char>)| #[trigger]
            loose_fields(*old(doc)).contains_key(k) && k.0 != id@
                ==> loose_fields(*final(doc)).contains_key(k),
{
    let _ = doc.get_map("models").delete(id);
}

/// Calls `loro::LoroMap::keys` on the map of models: the identifiers under
/// which anything is held, each once, those of the models held whole among
/// them.
#[verifier::external_body]
fn identifiers(doc: &loro::LoroDoc) -> (r: Vec<String>)
    requires
        is_catalog(*doc),
    ensures
        texts(r@).no_duplicates(),
        forall|id: Seq<char>| #[trigger]
            whole_models(*doc).contains_key(id) ==> texts(r@).contains(id),
{
    doc.get_map("models").keys().map(|id| id.to_string()).collect()
}

/// Calls `loro::LoroMap::ensure_mergeable_map` on the map of models and, on
/// success, `LoroMap::insert` on the child: sets one field. An identifier that
/// holds a model whole refuses it, and nothing changes.
#[verifier::external_body]
fn set_loose(doc: &mut loro::LoroDoc, id: &str, name: &str, text: String) -> (r: bool)
    requires
        is_catalog(*old(doc)),
    ensures
        is_catalog(*final(doc)),
        r == !whole_models(*old(doc)).contains_key(id@),
        whole_models(*final(doc)) == whole_models(*old(doc)),
        r ==> loose_fields(*final(doc)) == loose_fields(*old(doc)).insert((id@, name@), text@),
        !r ==> loose_fields(*final(doc)) == loose_fields(*old(doc)),
{
    match doc.get_map("models").ensure_mergeable_map(id) {
        Ok(child) => child.insert(name, text).is_ok(),
        Err(_) => false,
    }
}

/// The variant of the only kind of model there is.
pub const OPENAI_COMPATIBLE: &'static str = "OpenAICompatible";

/// The text of an optional text.
pub open spec fn option_text(text: Option<String>) -> Option<Seq<char>> {
    match text {
        Some(text) => Some(text@),
        None => None,
    }
}

/// A [`Model`], by its texts.
pub struct ModelText {
    pub id: Seq<char>,
    pub base_url: Seq<char>,
    pub client_id: Seq<char>,
    pub api_key: Seq<char>,
    pub model: Seq<char>,
    pub system_prompt: Option<Seq<char>>,
}

/// A model, by its texts.
pub open spec fn model_text(model: Model) -> ModelText {
    match model {
        Model::OpenAICompatible { id, base_url, client_id, api_key, model, system_prompt } => {
            ModelText {
                id: id@,
                base_url: base_url@,
                client_id: client_id@,
                api_key: api_key@,
                model: model@,
                system_prompt: option_text(system_prompt),
            }
        },
    }
}

/// The fields of a model.
pub open spec fn fields_of(model: ModelText) -> Map<Seq<char>, Option<Seq<char>>> {
    Map::empty().insert("id"@, Some(model.id)).insert("base_url"@, Some(model.base_url)).insert(
        "client_id"@,
        Some(model.client_id),
    ).insert("api_key"@, Some(model.api_key)).insert("model"@, Some(model.model)).insert(
        "system_prompt"@,
        model.system_prompt,
    )
}

/// The text of a field that must be there.
pub open spec fn field(fields: Map<Seq<char>, Option<Seq<char>>>, name: Seq<char>) -> Option<
    Seq<char>,
> {
    if fields.contains_key(name) {
        fields[name]
    } else {
        None
    }
}

/// The model that a variant and fields spell: all fields but the system prompt
/// must be there, and others do not matter.
pub open spec fn decoded(variant: Seq<char>, fields: Map<Seq<char>, Option<Seq<char>>>) -> Option<
    ModelText,
> {
    if variant != OPENAI_COMPATIBLE@ {
        None
    } else {
        match (
            field(fields, "id"@),
            field(fields, "base_url"@),
            field(fields, "client_id"@),
            field(fields, "api_key"@),
            field(fields, "model"@),
        ) {
            (Some(id), Some(base_url), Some(client_id), Some(api_key), Some(model)) => Some(
                ModelText {
                    id,
                    base_url,
                    client_id,
                    api_key,
                    model,
                    system_prompt: field(fields, "system_prompt"@),
                },
            ),
            _ => None,
        }
    }
}

/// The text of the field `name`.
fn find_field(fields: &Vec<(String, Option<String>)>, name: &str) -> (r: Option<String>)
    ensures
        option_text(r) == field(field_map(fields@), name@),
{
    let mut r: Option<String> = None;
    let mut i: usize = 0;
    while i < fields.len()
        invariant
            i <= fields@.len(),
            option_text(r) == field(field_map(fields@.take(i as int)), name@),
        decreases fields@.len() - i,
    {
        proof {
            assert(fields@.take(i + 1).drop_last() =~= fields@.take(i as int));
            assert(fields@.take(i + 1).last() == fields@[i as int]);
        }
        if same_text(fields[i].0.as_str(), name) {
            r = copy_option(&fields[i].1);
        }
        i = i + 1;
    }
    assert(fields@.take(i as int) =~= fields@);
    r
}

/// The fields of a model, each with its name.
pub fn model_fields(model: Model) -> (r: Vec<(String, Option<String>)>)
    ensures
        field_map(r@) == fields_of(model_text(model)),
{
    match model {
        Model::OpenAICompatible { id, base_url, client_id, api_key, model, system_prompt } => {
            let mut fields: Vec<(String, Option<String>)> = Vec::new();
            fields.push(("id".to_owned(), Some(id)));
            fields.push(("base_url".to_owned(), Some(base_url)));
            fields.push(("client_id".to_owned(), Some(client_id)));
            fields.push(("api_key".to_owned(), Some(api_key)));
            fields.push(("model".to_owned(), Some(model)));
            fields.push(("system_prompt".to_owned(), system_prompt));
            proof {
                let f = fields@;
                assert(f.drop_last().drop_last().drop_last().drop_last().drop_last().drop_last()
                    =~= Seq::<(String, Option<String>)>::empty());
                reveal_with_fuel(field_map, 7);
            }
            fields
        },
    }
}

/// The model that a variant and fields spell, if they do.
pub fn model_from_fields(variant: &str, fields: &Vec<(String, Option<String>)>) -> (r: Option<
    Model,
>)
    ensures
        match r {
            Some(model) => decoded(variant@, field_map(fields@)) == Some(model_text(model)),
            None => decoded(variant@, field_map(fields@)) is None,
        },
{
    if !same_text(variant, OPENAI_COMPATIBLE) {
        return None;
    }
    match (
        find_field(fields, "id"),
        find_field(fields, "base_url"),
        find_field(fields, "client_id"),
        find_field(fields, "api_key"),
        find_field(fields, "model"),
    ) {
        (Some(id), Some(base_url), Some(client_id), Some(api_key), Some(model)) => {
            let system_prompt = find_field(fields, "system_prompt");
            Some(
                Model::OpenAICompatible {
                    id,
                    base_url,
                    client_id,
                    api_key,
                    model,
                    system_prompt,
                },
            )
        },
        _ => None,
    }
}

/// Whether what is held whole under each identifier spells a model with that
/// identifier.
pub open spec fn all_spelled(
    models: Map<Seq<char>, (Seq<char>, Map<Seq<char>, Option<Seq<char>>>)>,
) -> bool {
    forall|id: Seq<char>| #[trigger]
        models.contains_key(id) ==> (decoded(models[id].0, models[id].1) matches Some(model)
            && model.id == id)
}

/// The identifiers of models.
pub open spec fn ids_of(models: Seq<Model>) -> Seq<Seq<char>> {
    models.map_values(|m: Model| m->id@)
}

/// The catalog of models.
pub struct ModelCatalog {
    state: loro::LoroDoc,
}

impl ModelCatalog {
    #[verifier::type_invariant]
    spec fn holds_a_catalog(self) -> bool {
        is_catalog(self.state) && all_spelled(whole_models(self.state))
    }

    /// The models held whole.
    pub closed spec fn models(&self) -> Map<
        Seq<char>,
        (Seq<char>, Map<Seq<char>, Option<Seq<char>>>),
    > {
        whole_models(self.state)
    }

    /// The fields held one by one.
    pub closed spec fn fields(&self) -> Map<(Seq<char>, Seq<char>), Seq<char>> {
        loose_fields(self.state)
    }

    /// An empty catalog.
    pub fn new() -> (r: Self)
        ensures
            r.models() == no_models(),
            r.fields() == no_fields(),
    {
        ModelCatalog { state: new_document() }
    }

    /// Puts a model under its identifier, over what was there.
    pub fn insert(&mut self, model: Model)
        ensures
            final(self).models() == old(self).models().insert(
                model->id@,
                (OPENAI_COMPATIBLE@, fields_of(model_text(model))),
            ),
            forall|k: (Seq<char>, Seq<char>)| #[trigger]
                old(self).fields().contains_key(k) && k.0 != model->id@
                    ==> final(self).fields().contains_key(k) && final(self).fields()[k]
                    == old(self).fields()[k],
            forall|k: (Seq<char>, Seq<char>)| #[trigger]
                final(self).fields().contains_key(k) && k.0 != model->id@
                    ==> old(self).fields().contains_key(k),
    {
        proof {
            use_type_invariant(&*self);
        }
        let id = match &model {
            Model::OpenAICompatible { id, .. } => id.clone(),
        };
        proof {
            lemma_inserted_model_reads_back(model_text(model));
        }
        let fields = model_fields(model);
        let mut state = new_document();
        std::mem::swap(&mut state, &mut self.state);
        put_whole(&mut state, id.as_str(), OPENAI_COMPATIBLE, &fields);
        self.state = state;
    }

    /// The model under `id`. One that is held field by field is not found.
    pub fn get(&self, id: &str) -> (r: Option<Model>)
        ensures
            match r {
                Some(model) => {
                    &&& self.models().contains_key(id@)
                    &&& decoded(self.models()[id@].0, self.models()[id@].1) == Some(
                        model_text(model),
                    )
                    &&& model->id@ == id@
                },
                None => !self.models().contains_key(id@),
            },
    {
        proof {
            use_type_invariant(self);
        }
        match get_whole(&self.state, id) {
            None => None,
            Some((variant, fields)) => model_from_fields(variant.as_str(), &fields),
        }
    }

    /// All models that are held whole, each once, in no particular order.
    pub fn list(&self) -> (r: Vec<Model>)
        ensures
            ids_of(r@).no_duplicates(),
            forall|id: Seq<char>| #[trigger]
                ids_of(r@).contains(id) <==> self.models().contains_key(id),
            forall|i: int|
                0 <= i < r@.len() ==> decoded(
                    self.models()[(#[trigger] r@[i])->id@].0,
                    self.models()[r@[i]->id@].1,
                ) == Some(model_text(r@[i])),
    {
        proof {
            use_type_invariant(self);
        }
        let ids = identifiers(&self.state);
        let ghost all = texts(ids@);
        let mut r: Vec<Model> = Vec::new();
        let mut i: usize = 0;
        while i < ids.len()
            invariant
                i <= ids@.len(),
                all == texts(ids@),
                all.no_duplicates(),
                forall|k: int|
                    0 <= k < r@.len() ==> {
                        &&& all.take(i as int).contains((#[trigger] r@[k])->id@)
                        &&& self.models().contains_key(r@[k]->id@)
                        &&& decoded(self.models()[r@[k]->id@].0, self.models()[r@[k]->id@].1)
                            == Some(model_text(r@[k]))
                    },
                ids_of(r@).no_duplicates(),
                forall|j: int|
                    0 <= j < i && self.models().contains_key(#[trigger] all[j]) ==> ids_of(
                        r@,
                    ).contains(all[j]),
            decreases ids@.len() - i,
        {
            let ghost before = r@;
            let ghost seen = all.take(i as int);
            assert(all.take(i + 1) =~= seen.push(all[i as int]));
            assert(all[i as int] == ids@[i as int]@);
            match self.get(ids[i].as_str()) {
                Some(model) => {
                    r.push(model);
                    proof {
                        assert(ids_of(r@) =~= ids_of(before).push(model->id@));
                        if ids_of(before).contains(model->id@) {
                            let k = ids_of(before).index_of(model->id@);
                            assert(seen.contains(before[k]->id@));
                            let j = seen.index_of(before[k]->id@);
                            assert(all[j] == all[i as int]);
                        }
                        assert forall|k: int| 0 <= k < r@.len() implies {
                            &&& all.take(i + 1).contains((#[trigger] r@[k])->id@)
                            &&& self.models().contains_key(r@[k]->id@)
                            &&& decoded(self.models()[r@[k]->id@].0, self.models()[r@[k]->id@].1)
                                == Some(model_text(r@[k]))
                        } by {
                            if k < before.len() {
                                lemma_push_contains(seen, all[i as int], before[k]->id@);
                            } else {
                                lemma_push_contains(seen, all[i as int], model->id@);
                            }
                        }
                        assert forall|j: int|
                            0 <= j < i + 1 && self.models().contains_key(
                                #[trigger] all[j],
                            ) implies ids_of(r@).contains(all[j]) by {
                            lemma_push_contains(ids_of(before), model->id@, all[j]);
                        }
                    }
                },
                None => {
                    proof {
                        assert forall|k: int| 0 <= k < r@.len() implies all.take(i + 1).contains(
                            (#[trigger] r@[k])->id@,
                        ) by {
                            lemma_push_contains(seen, all[i as int], r@[k]->id@);
                        }
                    }
                },
            }
            i = i + 1;
        }
        proof {
            assert forall|id: Seq<char>| #[trigger]
                ids_of(r@).contains(id) <==> self.models().contains_key(id) by {
                if ids_of(r@).contains(id) {
                    let k = ids_of(r@).index_of(id);
                    assert(r@[k]->id@ == id);
                }
                if self.models().contains_key(id) {
                    assert(all.contains(id));
                    let j = all.index_of(id);
                    assert(all[j] == id);
                }
            }
        }
        r
    }

    /// Removes the model under `id`, if one is held whole there.
    pub fn remove(&mut self, id: &str)
        ensures
            final(self).models() == old(self).models().remove(id@),
            forall|k: (Seq<char>, Seq<char>)| #[trigger]
                old(self).fields().contains_key(k) && k.0 != id@
                    ==> final(self).fields().contains_key(k) && final(self).fields()[k]
                    == old(self).fields()[k],
            forall|k: (Seq<char>, Seq<char>)| #[trigger]
                final(self).fields().contains_key(k) && k.0 != id@
                    ==> old(self).fields().contains_key(k),
    {
        proof {
            use_type_invariant(&*self);
        }
        let mut state = new_document();
        std::mem::swap(&mut state, &mut self.state);
        delete_whole(&mut state, id);
        self.state = state;
    }

    /// Applies changes to the model under an identifier, in order. Where none
    /// is held whole, the changes are kept field by field.
    pub fn update(&mut self, changeset: ModelChangeSet)
        ensures
            if old(self).models().contains_key(changeset.id@) {
                let entry = old(self).models()[changeset.id@];
                &&& decoded(entry.0, entry.1) matches Some(model) && final(self).models() == old(
                    self,
                ).models().insert(
                    changeset.id@,
                    (OPENAI_COMPATIBLE@, fields_of(changed(model, changeset.operations@))),
                )
                &&& forall|k: (Seq<char>, Seq<char>)| #[trigger]
                    old(self).fields().contains_key(k) && k.0 != changeset.id@
                        ==> final(self).fields().contains_key(k) && final(self).fields()[k] == old(
                        self,
                    ).fields()[k]
                &&& forall|k: (Seq<char>, Seq<char>)| #[trigger]
                    final(self).fields().contains_key(k) && k.0 != changeset.id@
                        ==> old(self).fields().contains_key(k)
            } else {
                &&& final(self).models() == old(self).models()
                &&& final(self).fields() == updated(
                    old(self).fields(),
                    changeset.id@,
                    changeset.operations@,
                )
            },
    {
        match self.get(changeset.id.as_str()) {
            Some(model) => {
                let ghost before = model_text(model);
                let next = apply_all(model, changeset.operations);
                proof {
                    lemma_changes_keep_identity(before, changeset.operations@);
                }
                self.insert(next);
            },
            None => self.update_loose(changeset),
        }
    }

    /// Applies changes field by field, where no model is held whole.
    fn update_loose(&mut self, changeset: ModelChangeSet)
        requires
            !old(self).models().contains_key(changeset.id@),
        ensures
            final(self).models() == old(self).models(),
            final(self).fields() == updated(
                old(self).fields(),
                changeset.id@,
                changeset.operations@,
            ),
    {
        proof {
            use_type_invariant(&*self);
        }
        let ghost start = self.fields();
        let ghost models = self.models();
        let ghost all = changeset.operations@;
        let id = changeset.id;
        let mut state = new_document();
        std::mem::swap(&mut state, &mut self.state);
        let mut rest = reversed(changeset.operations);
        assert(rest@ =~= all.skip(0).reverse());
        while rest.len() > 0
            invariant
                is_catalog(state),
                whole_models(state) == models,
                !models.contains_key(id@),
                rest@.len() <= all.len(),
                rest@ == all.skip(all.len() - rest@.len()).reverse(),
                loose_fields(state) == updated(start, id@, all.take(all.len() - rest@.len())),
            decreases rest@.len(),
        {
            let ghost done = all.len() - rest@.len();
            match rest.pop() {
                Some(change) => {
                    proof {
                        assert(change == all[done]);
                        assert(rest@ =~= all.skip(done + 1).reverse());
                        assert(all.take(done + 1).drop_last() =~= all.take(done));
                        assert(all.take(done + 1).last() == all[done]);
                    }
                    let _ = match change {
                        ModelChange::SetModel(name) => set_loose(
                            &mut state,
                            id.as_str(),
                            "model",
                            name,
                        ),
                        ModelChange::SetApiKey(api_key) => set_loose(
                            &mut state,
                            id.as_str(),
                            "api_key",
                            api_key,
                        ),
                        ModelChange::SetClientId(client_id) => set_loose(
                            &mut state,
                            id.as_str(),
                            "client_id",
                            client_id,
                        ),
                    };
                },
                None => {},
            }
        }
        assert(all.take(all.len() as int) =~= all);
        self.state = state;
    }
}

/// A change of one field of a model.
#[derive(Debug, PartialEq)]
pub enum ModelChange {
    SetModel(String),
    SetApiKey(String),
    SetClientId(String),
}

/// Changes of one model, in order.
#[derive(Debug, PartialEq)]
pub struct ModelChangeSet {
    pub id: String,
    pub operations: Vec<ModelChange>,
}

/// A change whose API key, if it has one, is encrypted for whoever it is sent
/// to.
#[derive(Debug, PartialEq)]
pub enum EncryptedModelChange {
    SetModel(String),
    SetApiKey(EncryptedSecret),
    SetClientId(String),
}

/// Encrypted changes of one model, in order.
#[derive(Debug, PartialEq)]
pub struct EncryptedModelChangeSet {
    pub id: String,
    pub operations: Vec<EncryptedModelChange>,
}

/// The field that a change sets, and its text.
pub open spec fn setting(change: ModelChange) -> (Seq<char>, Seq<char>) {
    match change {
        ModelChange::SetModel(text) => ("model"@, text@),
        ModelChange::SetApiKey(text) => ("api_key"@, text@),
        ModelChange::SetClientId(text) => ("client_id"@, text@),
    }
}

/// A model after a change of one field.
pub open spec fn changed_once(model: ModelText, change: ModelChange) -> ModelText {
    match change {
        ModelChange::SetModel(text) => ModelText { model: text@, ..model },
        ModelChange::SetApiKey(text) => ModelText { api_key: text@, ..model },
        ModelChange::SetClientId(text) => ModelText { client_id: text@, ..model },
    }
}

/// A model after changes, in order.
pub open spec fn changed(model: ModelText, changes: Seq<ModelChange>) -> ModelText
    decreases changes.len(),
{
    if changes.len() == 0 {
        model
    } else {
        changed_once(changed(model, changes.drop_last()), changes.last())
    }
}

/// Applies changes to a model, in order.
fn apply_all(model: Model, changes: Vec<ModelChange>) -> (r: Model)
    ensures
        model_text(r) == changed(model_text(model), changes@),
{
    let ghost all = changes@;
    let ghost start = model_text(model);
    let mut rest = reversed(changes);
    let mut r = model;
    assert(rest@ =~= all.skip(0).reverse());
    while rest.len() > 0
        invariant
            rest@.len() <= all.len(),
            rest@ == all.skip(all.len() - rest@.len()).reverse(),
            model_text(r) == changed(start, all.take(all.len() - rest@.len())),
        decreases rest@.len(),
    {
        let ghost done = all.len() - rest@.len();
        match rest.pop() {
            Some(change) => {
                proof {
                    assert(change == all[done]);
                    assert(rest@ =~= all.skip(done + 1).reverse());
                    assert(all.take(done + 1).drop_last() =~= all.take(done));
                    assert(all.take(done + 1).last() == all[done]);
                }
                r = change.apply(r);
            },
            None => {},
        }
    }
    assert(all.take(all.len() as int) =~= all);
    r
}

/// Fields after changes of the model `id`, in order.
pub open spec fn updated(
    fields: Map<(Seq<char>, Seq<char>), Seq<char>>,
    id: Seq<char>,
    changes: Seq<ModelChange>,
) -> Map<(Seq<char>, Seq<char>), Seq<char>>
    decreases changes.len(),
{
    if changes.len() == 0 {
        fields
    } else {
        updated(fields, id, changes.drop_last()).insert(
            (id, setting(changes.last()).0),
            setting(changes.last()).1,
        )
    }
}

/// Whether `encrypted` is `change` with its API key, if it has one, replaced
/// by the one that `sealed` holds.
pub open spec fn is_encrypted(
    change: ModelChange,
    sealed: Option<EncryptedSecret>,
    encrypted: EncryptedModelChange,
) -> bool {
    match change {
        ModelChange::SetModel(model) => encrypted == EncryptedModelChange::SetModel(model),
        ModelChange::SetClientId(id) => encrypted == EncryptedModelChange::SetClientId(id),
        ModelChange::SetApiKey(_) => sealed matches Some(secret) && encrypted
            == EncryptedModelChange::SetApiKey(secret),
    }
}

impl ModelChange {
    /// The model with the change applied to it.
    pub fn apply(self, model: Model) -> (r: Model)
        ensures
            model_text(r) == changed_once(model_text(model), self),
    {
        match model {
            Model::OpenAICompatible { id, base_url, client_id, api_key, model, system_prompt } => {
                match self {
                    ModelChange::SetModel(model) => Model::OpenAICompatible {
                        id,
                        base_url,
                        client_id,
                        api_key,
                        model,
                        system_prompt,
                    },
                    ModelChange::SetApiKey(api_key) => Model::OpenAICompatible {
                        id,
                        base_url,
                        client_id,
                        api_key,
                        model,
                        system_prompt,
                    },
                    ModelChange::SetClientId(client_id) => Model::OpenAICompatible {
                        id,
                        base_url,
                        client_id,
                        api_key,
                        model,
                        system_prompt,
                    },
                }
            },
        }
    }

    /// The API key in clear that the change sets, to encrypt it.
    pub fn secret(&self) -> (r: Option<&String>)
        ensures
            match r {
                Some(key) => *self == ModelChange::SetApiKey(*key),
                None => !(self is SetApiKey),
            },
    {
        match self {
            ModelChange::SetApiKey(key) => Some(key),
            _ => None,
        }
    }

    /// The change with its API key, if it has one, replaced by `sealed`, the
    /// same key encrypted.
    pub fn encrypt(self, sealed: Option<EncryptedSecret>) -> (r: EncryptedModelChange)
        requires
            self is SetApiKey ==> sealed is Some,
        ensures
            is_encrypted(self, sealed, r),
    {
        match self {
            ModelChange::SetModel(model) => EncryptedModelChange::SetModel(model),
            ModelChange::SetClientId(id) => EncryptedModelChange::SetClientId(id),
            ModelChange::SetApiKey(_) => {
                match sealed {
                    Some(secret) => EncryptedModelChange::SetApiKey(secret),
                    None => vstd::pervasive::unreached(),
                }
            },
        }
    }
}

impl EncryptedModelChange {
    /// The encrypted API key that the change sets, to decrypt it.
    pub fn secret(&self) -> (r: Option<&EncryptedSecret>)
        ensures
            match r {
                Some(secret) => *self == EncryptedModelChange::SetApiKey(*secret),
                None => !(self is SetApiKey),
            },
    {
        match self {
            EncryptedModelChange::SetApiKey(secret) => Some(secret),
            _ => None,
        }
    }

    /// The change in clear; `opened` is its API key decrypted, if it has one.
    pub fn decrypt(self, opened: Option<String>) -> (r: ModelChange)
        requires
            self is SetApiKey ==> opened is Some,
        ensures
            match self {
                EncryptedModelChange::SetModel(model) => r == ModelChange::SetModel(model),
                EncryptedModelChange::SetClientId(id) => r == ModelChange::SetClientId(id),
                EncryptedModelChange::SetApiKey(_) => r == ModelChange::SetApiKey(opened->0),
            },
    {
        match self {
            EncryptedModelChange::SetModel(model) => ModelChange::SetModel(model),
            EncryptedModelChange::SetClientId(id) => ModelChange::SetClientId(id),
            EncryptedModelChange::SetApiKey(_) => {
                match opened {
                    Some(key) => ModelChange::SetApiKey(key),
                    None => vstd::pervasive::unreached(),
                }
            },
        }
    }
}

/// The API keys in clear that changes set, in order.
pub open spec fn keys_in(changes: Seq<ModelChange>) -> Seq<String>
    decreases changes.len(),
{
    if changes.len() == 0 {
        Seq::empty()
    } else {
        match changes.last() {
            ModelChange::SetApiKey(key) => keys_in(changes.drop_last()).push(key),
            _ => keys_in(changes.drop_last()),
        }
    }
}

/// The encrypted API keys that changes set, in order.
pub open spec fn secrets_in(changes: Seq<EncryptedModelChange>) -> Seq<EncryptedSecret>
    decreases changes.len(),
{
    if changes.len() == 0 {
        Seq::empty()
    } else {
        match changes.last() {
            EncryptedModelChange::SetApiKey(secret) => secrets_in(changes.drop_last()).push(secret),
            _ => secrets_in(changes.drop_last()),
        }
    }
}

/// Changes with their API keys replaced, in order, by encrypted ones.
pub open spec fn encrypted_changes(changes: Seq<ModelChange>, sealed: Seq<EncryptedSecret>) -> Seq<
    EncryptedModelChange,
>
    decreases changes.len(),
{
    if changes.len() == 0 {
        Seq::empty()
    } else {
        match changes.last() {
            ModelChange::SetModel(model) => encrypted_changes(changes.drop_last(), sealed).push(
                EncryptedModelChange::SetModel(model),
            ),
            ModelChange::SetClientId(id) => encrypted_changes(changes.drop_last(), sealed).push(
                EncryptedModelChange::SetClientId(id),
            ),
            ModelChange::SetApiKey(_) => encrypted_changes(
                changes.drop_last(),
                sealed.drop_last(),
            ).push(EncryptedModelChange::SetApiKey(sealed.last())),
        }
    }
}

/// Encrypted changes with their API keys replaced, in order, by ones in clear.
pub open spec fn decrypted_changes(changes: Seq<EncryptedModelChange>, opened: Seq<String>) -> Seq<
    ModelChange,
>
    decreases changes.len(),
{
    if changes.len() == 0 {
        Seq::empty()
    } else {
        match changes.last() {
            EncryptedModelChange::SetModel(model) => decrypted_changes(
                changes.drop_last(),
                opened,
            ).push(ModelChange::SetModel(model)),
            EncryptedModelChange::SetClientId(id) => decrypted_changes(
                changes.drop_last(),
                opened,
            ).push(ModelChange::SetClientId(id)),
            EncryptedModelChange::SetApiKey(_) => decrypted_changes(
                changes.drop_last(),
                opened.drop_last(),
            ).push(ModelChange::SetApiKey(opened.last())),
        }
    }
}

impl ModelChangeSet {
    /// The API keys in clear that the changes set, in order, to encrypt them.
    pub fn secrets(&self) -> (r: Vec<String>)
        ensures
            r@ == keys_in(self.operations@),
    {
        let mut r: Vec<String> = Vec::new();
        let mut i: usize = 0;
        while i < self.operations.len()
            invariant
                i <= self.operations@.len(),
                r@ == keys_in(self.operations@.take(i as int)),
            decreases self.operations@.len() - i,
        {
            proof {
                let all = self.operations@;
                assert(all.take(i + 1).drop_last() =~= all.take(i as int));
                assert(all.take(i + 1).last() == all[i as int]);
            }
            match self.operations[i].secret() {
                Some(key) => r.push(key.clone()),
                None => {},
            }
            i = i + 1;
        }
        assert(self.operations@.take(i as int) =~= self.operations@);
        r
    }

    /// The changes with their API keys replaced, in order, by `sealed`: the
    /// same keys encrypted.
    pub fn encrypt(self, sealed: Vec<EncryptedSecret>) -> (r: EncryptedModelChangeSet)
        requires
            sealed@.len() == keys_in(self.operations@).len(),
        ensures
            r.id == self.id,
            r.operations@ == encrypted_changes(self.operations@, sealed@),
    {
        let ghost all = self.operations@;
        let ghost secrets = sealed@;
        let mut operations: Vec<EncryptedModelChange> = Vec::new();
        let mut rest = self.operations;
        let mut left = sealed;
        assert(all.take(all.len() as int) =~= all);
        assert(secrets.take(secrets.len() as int) =~= secrets);
        while rest.len() > 0
            invariant
                rest@ == all.take(rest@.len() as int),
                rest@.len() <= all.len(),
                left@.len() == keys_in(rest@).len(),
                encrypted_changes(all, secrets) == encrypted_changes(rest@, left@)
                    + operations@.reverse(),
            decreases rest@.len(),
        {
            let ghost before = rest@;
            let ghost keys = left@;
            let ghost done = operations@;
            match rest.pop() {
                Some(change) => {
                    let encrypted = match change {
                        ModelChange::SetApiKey(_) => change.encrypt(left.pop()),
                        _ => change.encrypt(None),
                    };
                    operations.push(encrypted);
                    proof {
                        assert(before.drop_last() =~= rest@);
                        assert(rest@ =~= all.take(rest@.len() as int));
                        assert(operations@.reverse() =~= seq![encrypted] + done.reverse());
                        assert(encrypted_changes(before, keys) =~= encrypted_changes(
                            rest@,
                            left@,
                        ).push(encrypted));
                        assert(encrypted_changes(before, keys) + done.reverse()
                            =~= encrypted_changes(rest@, left@) + operations@.reverse());
                    }
                },
                None => {},
            }
        }
        let operations = reversed(operations);
        assert(operations@ =~= encrypted_changes(all, secrets));
        EncryptedModelChangeSet { id: self.id, operations }
    }
}

impl EncryptedModelChangeSet {
    /// The changes in clear: their API keys replaced, in order, by `opened`,
    /// the same keys decrypted.
    pub fn decrypt(self, opened: Vec<String>) -> (r: ModelChangeSet)
        requires
            opened@.len() == secrets_in(self.operations@).len(),
        ensures
            r.id == self.id,
            r.operations@ == decrypted_changes(self.operations@, opened@),
    {
        let ghost all = self.operations@;
        let ghost keys = opened@;
        let mut operations: Vec<ModelChange> = Vec::new();
        let mut rest = self.operations;
        let mut left = opened;
        assert(all.take(all.len() as int) =~= all);
        while rest.len() > 0
            invariant
                rest@ == all.take(rest@.len() as int),
                rest@.len() <= all.len(),
                left@.len() == secrets_in(rest@).len(),
                decrypted_changes(all, keys) == decrypted_changes(rest@, left@)
                    + operations@.reverse(),
            decreases rest@.len(),
        {
            let ghost before = rest@;
            let ghost unused = left@;
            let ghost done = operations@;
            match rest.pop() {
                Some(change) => {
                    let decrypted = match change {
                        EncryptedModelChange::SetApiKey(_) => change.decrypt(left.pop()),
                        _ => change.decrypt(None),
                    };
                    operations.push(decrypted);
                    proof {
                        assert(before.drop_last() =~= rest@);
                        assert(rest@ =~= all.take(rest@.len() as int));
                        assert(operations@.reverse() =~= seq![decrypted] + done.reverse());
                        assert(decrypted_changes(before, unused) =~= decrypted_changes(
                            rest@,
                            left@,
                        ).push(decrypted));
                        assert(decrypted_changes(before, unused) + done.reverse()
                            =~= decrypted_changes(rest@, left@) + operations@.reverse());
                    }
                },
                None => {},
            }
        }
        let operations = reversed(operations);
        assert(operations@ =~= decrypted_changes(all, keys));
        ModelChangeSet { id: self.id, operations }
    }
}

/// What is put into the catalog is read back from it, text by text.
pub proof fn lemma_inserted_model_reads_back(model: ModelText)
    ensures
        decoded(OPENAI_COMPATIBLE@, fields_of(model)) == Some(model),
{
    reveal_strlit("id");
    reveal_strlit("base_url");
    reveal_strlit("client_id");
    reveal_strlit("api_key");
    reveal_strlit("model");
    reveal_strlit("system_prompt");
    assert("id"@.len() == 2);
    assert("base_url"@.len() == 8);
    assert("client_id"@.len() == 9);
    assert("api_key"@.len() == 7);
    assert("model"@.len() == 5);
    assert("system_prompt"@.len() == 13);
}

/// Changes of a model never change its identifier, its address or its system
/// prompt.
pub proof fn lemma_changes_keep_identity(model: ModelText, changes: Seq<ModelChange>)
    ensures
        changed(model, changes).id == model.id,
        changed(model, changes).base_url == model.base_url,
        changed(model, changes).system_prompt == model.system_prompt,
    decreases changes.len(),
{
    if changes.len() > 0 {
        lemma_changes_keep_identity(model, changes.drop_last());
    }
}

/// Later changes win: changes in two batches come to the same as in one.
pub proof fn lemma_changes_in_batches(
    model: ModelText,
    first: Seq<ModelChange>,
    second: Seq<ModelChange>,
)
    ensures
        changed(model, first + second) == changed(changed(model, first), second),
    decreases second.len(),
{
    if second.len() == 0 {
        assert(first + second =~= first);
    } else {
        assert((first + second).drop_last() =~= first + second.drop_last());
        lemma_changes_in_batches(model, first, second.drop_last());
    }
}

/// A model that is held and then updated is read back with the changes applied
/// to it; a model that is removed is not found any more. Neither touches what
/// is held under another identifier.
pub proof fn lemma_updated_model_reads_back(
    models: Map<Seq<char>, (Seq<char>, Map<Seq<char>, Option<Seq<char>>>)>,
    id: Seq<char>,
    model: ModelText,
    changes: Seq<ModelChange>,
    other: Seq<char>,
)
    requires
        models.contains_key(id),
        decoded(models[id].0, models[id].1) == Some(model),
        other != id,
    ensures
        ({
            let after = models.insert(
                id,
                (OPENAI_COMPATIBLE@, fields_of(changed(model, changes))),
            );
            &&& after.contains_key(id)
            &&& decoded(after[id].0, after[id].1) == Some(changed(model, changes))
            &&& after.contains_key(other) == models.contains_key(other)
            &&& models.contains_key(other) ==> after[other] == models[other]
        }),
        !models.remove(id).contains_key(id),
        models.remove(id).contains_key(other) == models.contains_key(other),
        models.contains_key(other) ==> models.remove(id)[other] == models[other],
{
    lemma_inserted_model_reads_back(changed(model, changes));
}

/// Changes of one model leave the fields of every other one alone.
pub proof fn lemma_update_spares_others(
    fields: Map<(Seq<char>, Seq<char>), Seq<char>>,
    id: Seq<char>,
    changes: Seq<ModelChange>,
    other: Seq<char>,
    name: Seq<char>,
)
    requires
        other != id,
    ensures
        updated(fields, id, changes).contains_key((other, name)) == fields.contains_key(
            (other, name),
        ),
        fields.contains_key((other, name)) ==> updated(fields, id, changes)[(other, name)]
            == fields[(other, name)],
    decreases changes.len(),
{
    if changes.len() > 0 {
        lemma_update_spares_others(fields, id, changes.drop_last(), other, name);
    }
}

/// Changes that are encrypted, and decrypted with the keys that they had, are
/// the same changes, whatever the encrypted keys were. The encrypted changes
/// carry those, in order.
pub proof fn lemma_changes_read_back(changes: Seq<ModelChange>, sealed: Seq<EncryptedSecret>)
    requires
        sealed.len() == keys_in(changes).len(),
    ensures
        decrypted_changes(encrypted_changes(changes, sealed), keys_in(changes)) == changes,
        secrets_in(encrypted_changes(changes, sealed)) == sealed,
    decreases changes.len(),
{
    let all = encrypted_changes(changes, sealed);
    if changes.len() == 0 {
        assert(decrypted_changes(all, keys_in(changes)) =~= changes);
        assert(secrets_in(all) =~= sealed);
    } else {
        let front = changes.drop_last();
        let rest = if changes.last() is SetApiKey {
            sealed.drop_last()
        } else {
            sealed
        };
        lemma_changes_read_back(front, rest);
        assert(all.drop_last() =~= encrypted_changes(front, rest));
        if changes.last() is SetApiKey {
            assert(keys_in(changes).drop_last() =~= keys_in(front));
            assert(secrets_in(all) =~= sealed);
        }
        assert(decrypted_changes(all, keys_in(changes)) =~= changes);
    }
}

/// Of the changes of one field the last one counts.
pub proof fn lemma_last_change_counts(item: ModelText, changes: Seq<ModelChange>, i: int)
    requires
        0 <= i < changes.len(),
    ensures
        changes[i] matches ModelChange::SetModel(text) ==> (forall|j: int|
            i < j < changes.len() ==> !((#[trigger] changes[j]) is SetModel)) ==> changed(
            item,
            changes,
        ).model == text@,
        changes[i] matches ModelChange::SetApiKey(text) ==> (forall|j: int|
            i < j < changes.len() ==> !((#[trigger] changes[j]) is SetApiKey)) ==> changed(
            item,
            changes,
        ).api_key == text@,
        changes[i] matches ModelChange::SetClientId(text) ==> (forall|j: int|
            i < j < changes.len() ==> !((#[trigger] changes[j]) is SetClientId)) ==> changed(
            item,
            changes,
        ).client_id == text@,
    decreases changes.len(),
{
    if i < changes.len() - 1 {
        let front = changes.drop_last();
        assert forall|j: int| 0 <= j < front.len() implies front[j] == changes[j] by {}
        lemma_last_change_counts(item, front, i);
    }
}

/// A field that no change sets stays as it is.
pub proof fn lemma_last_change_counts_or_none(item: ModelText, changes: Seq<ModelChange>)
    ensures
        (forall|j: int| 0 <= j < changes.len() ==> !((#[trigger] changes[j]) is SetModel)) ==> changed(
            item,
            changes,
        ).model == item.model,
        (forall|j: int| 0 <= j < changes.len() ==> !((#[trigger] changes[j]) is SetApiKey)) ==> changed(
            item,
            changes,
        ).api_key == item.api_key,
        (forall|j: int| 0 <= j < changes.len() ==> !((#[trigger] changes[j]) is SetClientId)) ==> changed(
            item,
            changes,
        ).client_id == item.client_id,
    decreases changes.len(),
{
    if changes.len() > 0 {
        let front = changes.drop_last();
        assert forall|j: int| 0 <= j < front.len() implies front[j] == changes[j] by {}
        lemma_last_change_counts_or_none(item, front);
    }
}

/// A field held by itself is, after changes, what the last change of it says.
pub proof fn lemma_last_setting_counts(
    fields: Map<(Seq<char>, Seq<char>), Seq<char>>,
    id: Seq<char>,
    changes: Seq<ModelChange>,
    i: int,
)
    requires
        0 <= i < changes.len(),
    ensures
        changes[i] matches ModelChange::SetModel(text) ==> (forall|j: int|
            i < j < changes.len() ==> !((#[trigger] changes[j]) is SetModel)) ==> {
            &&& updated(fields, id, changes).contains_key((id, "model"@))
            &&& updated(fields, id, changes)[(id, "model"@)] == text@
        },
        changes[i] matches ModelChange::SetApiKey(text) ==> (forall|j: int|
            i < j < changes.len() ==> !((#[trigger] changes[j]) is SetApiKey)) ==> {
            &&& updated(fields, id, changes).contains_key((id, "api_key"@))
            &&& updated(fields, id, changes)[(id, "api_key"@)] == text@
        },
        changes[i] matches ModelChange::SetClientId(text) ==> (forall|j: int|
            i < j < changes.len() ==> !((#[trigger] changes[j]) is SetClientId)) ==> {
            &&& updated(fields, id, changes).contains_key((id, "client_id"@))
            &&& updated(fields, id, changes)[(id, "client_id"@)] == text@
        },
    decreases changes.len(),
{
    lemma_field_names_differ();
    if i < changes.len() - 1 {
        let front = changes.drop_last();
        assert forall|j: int| 0 <= j < front.len() implies front[j] == changes[j] by {}
        lemma_last_setting_counts(fields, id, front, i);
    }
}

/// The fields of a model go by different names.
proof fn lemma_field_names_differ()
    ensures
        "model"@ != "api_key"@,
        "model"@ != "client_id"@,
        "api_key"@ != "client_id"@,
{
    reveal_strlit("model");
    reveal_strlit("api_key");
    reveal_strlit("client_id");
    assert("model"@.len() == 5);
    assert("api_key"@.len() == 7);
    assert("client_id"@.len() == 9);
}

/// Of fields with the same name the last one stands.
pub proof fn lemma_last_field_counts(fields: Seq<(String, Option<String>)>, i: int)
    requires
        0 <= i < fields.len(),
        forall|j: int| i < j < fields.len() ==> (#[trigger] fields[j]).0@ != fields[i].0@,
    ensures
        field_map(fields).contains_key(fields[i].0@),
        fields[i].1 matches Some(text) ==> field_map(fields)[fields[i].0@] == Some(text@),
        fields[i].1 is None ==> field_map(fields)[fields[i].0@] is None,
    decreases fields.len(),
{
    if i < fields.len() - 1 {
        let front = fields.drop_last();
        assert forall|j: int| 0 <= j < front.len() implies front[j] == fields[j] by {}
        let last = fields[fields.len() - 1];
        lemma_last_field_counts(front, i);
    }
}

/// A name that no field has stands for nothing.
pub proof fn lemma_only_given_fields_stand(fields: Seq<(String, Option<String>)>, name: Seq<char>)
    requires
        forall|j: int| 0 <= j < fields.len() ==> (#[trigger] fields[j]).0@ != name,
    ensures
        !field_map(fields).contains_key(name),
    decreases fields.len(),
{
    if fields.len() > 0 {
        let front = fields.drop_last();
        assert forall|j: int| 0 <= j < front.len() implies front[j] == fields[j] by {}
        let last = fields[fields.len() - 1];
        lemma_only_given_fields_stand(front, name);
    }
}

/// Fields make up a model where they are said to be those of one compatible with
/// OpenAI and none of five is missing; the system prompt may be.
pub proof fn lemma_what_makes_up_a_model(
    variant: Seq<char>,
    fields: Map<Seq<char>, Option<Seq<char>>>,
)
    ensures
        decoded(variant, fields) is Some <==> {
            &&& variant == "OpenAICompatible"@
            &&& fields.contains_key("id"@) && fields["id"@] is Some
            &&& fields.contains_key("base_url"@) && fields["base_url"@] is Some
            &&& fields.contains_key("client_id"@) && fields["client_id"@] is Some
            &&& fields.contains_key("api_key"@) && fields["api_key"@] is Some
            &&& fields.contains_key("model"@) && fields["model"@] is Some
        },
        decoded(variant, fields) matches Some(model) ==> {
            &&& Some(model.id) == fields["id"@]
            &&& Some(model.base_url) == fields["base_url"@]
            &&& Some(model.client_id) == fields["client_id"@]
            &&& Some(model.api_key) == fields["api_key"@]
            &&& Some(model.model) == fields["model"@]
            &&& fields.contains_key("system_prompt"@) ==> model.system_prompt
                == fields["system_prompt"@]
            &&& !fields.contains_key("system_prompt"@) ==> model.system_prompt is None
        },
{
}

/// The API keys in clear are those of the changes that set one, in their order: `at`
/// are the positions of those changes.
pub proof fn lemma_keys_in_order(changes: Seq<ModelChange>) -> (at: Seq<int>)
    ensures
        ascending(at, changes.len() as int),
        at.len() == keys_in(changes).len(),
        forall|k: int|
            0 <= k < at.len() ==> changes[#[trigger] at[k]] == ModelChange::SetApiKey(
                keys_in(changes)[k],
            ),
        forall|i: int| #[trigger]
            at.contains(i) <==> 0 <= i < changes.len() && changes[i] is SetApiKey,
    decreases changes.len(),
{
    if changes.len() == 0 {
        Seq::empty()
    } else {
        let front = changes.drop_last();
        let n = front.len() as int;
        let before = lemma_keys_in_order(front);
        lemma_ascending_push(before, n);
        assert forall|i: int| 0 <= i < n implies front[i] == changes[i] by {}
        if changes.last() is SetApiKey {
            before.push(n)
        } else {
            before
        }
    }
}

/// The encrypted API keys are those of the changes that set one, in their order:
/// `at` are the positions of those changes.
pub proof fn lemma_secrets_in_order(changes: Seq<EncryptedModelChange>) -> (at: Seq<int>)
    ensures
        ascending(at, changes.len() as int),
        at.len() == secrets_in(changes).len(),
        forall|k: int|
            0 <= k < at.len() ==> changes[#[trigger] at[k]] == EncryptedModelChange::SetApiKey(
                secrets_in(changes)[k],
            ),
        forall|i: int| #[trigger]
            at.contains(i) <==> 0 <= i < changes.len() && changes[i] is SetApiKey,
    decreases changes.len(),
{
    if changes.len() == 0 {
        Seq::empty()
    } else {
        let front = changes.drop_last();
        let n = front.len() as int;
        let before = lemma_secrets_in_order(front);
        lemma_ascending_push(before, n);
        assert forall|i: int| 0 <= i < n implies front[i] == changes[i] by {}
        if changes.last() is SetApiKey {
            before.push(n)
        } else {
            before
        }
    }
}

/// Encryption replaces each API key in clear by the one sealed in its place, and
/// leaves the other changes as they are: `at` are the positions of the keys.
pub proof fn lemma_keys_are_sealed_in_place(
    changes: Seq<ModelChange>,
    sealed: Seq<EncryptedSecret>,
) -> (at: Seq<int>)
    requires
        sealed.len() == keys_in(changes).len(),
    ensures
        encrypted_changes(changes, sealed).len() == changes.len(),
        forall|i: int|
            #![trigger encrypted_changes(changes, sealed)[i]]
            0 <= i < changes.len() ==> {
                &&& changes[i] matches ModelChange::SetModel(text) ==> encrypted_changes(
                    changes,
                    sealed,
                )[i] == EncryptedModelChange::SetModel(text)
                &&& changes[i] matches ModelChange::SetClientId(text) ==> encrypted_changes(
                    changes,
                    sealed,
                )[i] == EncryptedModelChange::SetClientId(text)
            },
        ascending(at, changes.len() as int),
        at.len() == sealed.len(),
        forall|k: int|
            0 <= k < at.len() ==> encrypted_changes(changes, sealed)[#[trigger] at[k]]
                == EncryptedModelChange::SetApiKey(sealed[k]),
        forall|i: int| #[trigger]
            at.contains(i) <==> 0 <= i < changes.len() && changes[i] is SetApiKey,
    decreases changes.len(),
{
    if changes.len() == 0 {
        Seq::empty()
    } else {
        let front = changes.drop_last();
        let n = front.len() as int;
        assert forall|i: int| 0 <= i < n implies front[i] == changes[i] by {}
        if changes.last() is SetApiKey {
            let before = lemma_keys_are_sealed_in_place(front, sealed.drop_last());
            lemma_ascending_push(before, n);
            before.push(n)
        } else {
            let before = lemma_keys_are_sealed_in_place(front, sealed);
            lemma_ascending_push(before, n);
            before
        }
    }
}

/// Decryption replaces each encrypted API key by the one opened in its place, and
/// leaves the other changes as they are: `at` are the positions of the keys.
pub proof fn lemma_keys_are_opened_in_place(
    changes: Seq<EncryptedModelChange>,
    opened: Seq<String>,
) -> (at: Seq<int>)
    requires
        opened.len() == secrets_in(changes).len(),
    ensures
        decrypted_changes(changes, opened).len() == changes.len(),
        forall|i: int|
            #![trigger decrypted_changes(changes, opened)[i]]
            0 <= i < changes.len() ==> {
                &&& changes[i] matches EncryptedModelChange::SetModel(text) ==> decrypted_changes(
                    changes,
                    opened,
                )[i] == ModelChange::SetModel(text)
                &&& changes[i] matches EncryptedModelChange::SetClientId(text) ==> decrypted_changes(
                    changes,
                    opened,
                )[i] == ModelChange::SetClientId(text)
            },
        ascending(at, changes.len() as int),
        at.len() == opened.len(),
        forall|k: int|
            0 <= k < at.len() ==> decrypted_changes(changes, opened)[#[trigger] at[k]]
                == ModelChange::SetApiKey(opened[k]),
        forall|i: int| #[trigger]
            at.contains(i) <==> 0 <= i < changes.len() && changes[i] is SetApiKey,
    decreases changes.len(),
{
    if changes.len() == 0 {
        Seq::empty()
    } else {
        let front = changes.drop_last();
        let n = front.len() as int;
        assert forall|i: int| 0 <= i < n implies front[i] == changes[i] by {}
        if changes.last() is SetApiKey {
            let before = lemma_keys_are_opened_in_place(front, opened.drop_last());
            lemma_ascending_push(before, n);
            before.push(n)
        } else {
            let before = lemma_keys_are_opened_in_place(front, opened);
            lemma_ascending_push(before, n);
            before
        }
    }
}

/// A model is held as six fields, each under its name and no other.
pub proof fn lemma_fields_by_name(model: ModelText, name: Seq<char>)
    ensures
        fields_of(model).contains_key(name) <==> {
            ||| name == "id"@
            ||| name == "base_url"@
            ||| name == "client_id"@
            ||| name == "api_key"@
            ||| name == "model"@
            ||| name == "system_prompt"@
        },
        fields_of(model)["id"@] == Some(model.id),
        fields_of(model)["base_url"@] == Some(model.base_url),
        fields_of(model)["client_id"@] == Some(model.client_id),
        fields_of(model)["api_key"@] == Some(model.api_key),
        fields_of(model)["model"@] == Some(model.model),
        fields_of(model)["system_prompt"@] == model.system_prompt,
{
    lemma_inserted_model_reads_back(model);
}

/// The texts of a model are those of its fields.
pub proof fn lemma_texts_of_a_model(model: Model)
    ensures
        model_text(model).id == model->id@,
        model_text(model).base_url == model->base_url@,
        model_text(model).client_id == model->client_id@,
        model_text(model).api_key == model->api_key@,
        model_text(model).model == model->model@,
        model_text(model).system_prompt is Some <==> model->system_prompt is Some,
        model->system_prompt matches Some(text) ==> model_text(model).system_prompt == Some(text@),
{
}

} // verus!
