use marie_core::id::ID;
use marie_core::model::catalog::rotate::{assert_no_rows_at_epoch, reencrypt_model_store, ReencryptReport};
use marie_core::model::catalog::store::{decode_row, encode_row, StoredModel};
use marie_core::model::catalog::{
    model_fields, model_from_fields, ModelCatalog, ModelChange, ModelChangeSet, OPENAI_COMPATIBLE,
};
use marie_core::model::client::{ModelClient, ModelClientError};
use marie_core::model::declaration::Model;
use marie_core::model::execute::{
    build_request, call_parameters, ModelStreamEvent, OutputItem, ProviderEvent, ProviderResponse, ProviderUsage,
    StreamFold,
};
use marie_core::model::model::{ModelId, SecretRef};
use marie_core::model::server::{answer_get, answer_list, procedure, ModelProcedure, ModelServer};
use marie_core::model::{model, CatalogFailure, CreateModel, ModelError, Models, NS_MODEL};
use marie_core::network::bootstrap::BootstrapClient;
use marie_core::node::NodeId;
use marie_core::secret::EncryptedSecret;
use marie_core::tools::ToolSignature;

fn declared(id: &str) -> Model {
    Model::OpenAICompatible {
        id: id.to_string(),
        base_url: "https://example.org/v1".to_string(),
        client_id: "org".to_string(),
        api_key: "clef".to_string(),
        model: "gpt".to_string(),
        system_prompt: Some("Sois bref.".to_string()),
    }
}

fn sealed(epoch: u32) -> EncryptedSecret {
    EncryptedSecret { key_epoch: epoch, ciphertext: vec![1, 2], nonce: vec![3], algorithm: "aes".to_string() }
}

fn item() -> model::EncryptedModel {
    Models::insert(
        CreateModel::OpenAICompatible {
            id: ModelId::new("m".to_string()),
            base_url: "b".to_string(),
            client_id: "c".to_string(),
            api_key: "clef".to_string(),
            model: "g".to_string(),
            system_prompt: None,
        },
        SecretRef(ID(9)),
    )
}

#[test]
fn encrypted_declaration_reads_back() {
    let encrypted = declared("m").encrypt(sealed(1));
    assert_eq!(encrypted.api_key(), &sealed(1));
    assert_eq!(encrypted.decrypt("clef".to_string()), declared("m"));
    assert_eq!(declared("m").api_key(), "clef");
}

#[test]
fn catalog_gives_back_what_was_put() {
    let mut catalog = ModelCatalog::new();
    assert_eq!(catalog.get("m"), None);
    catalog.insert(declared("m"));
    assert_eq!(catalog.get("m"), Some(declared("m")));
    assert_eq!(catalog.get("autre"), None);
    let mut silent = declared("n");
    let Model::OpenAICompatible { system_prompt, .. } = &mut silent;
    *system_prompt = None;
    catalog.insert(silent);
    assert!(matches!(catalog.get("n"), Some(Model::OpenAICompatible { system_prompt: None, .. })));
    let mut changed = declared("m");
    let Model::OpenAICompatible { base_url, .. } = &mut changed;
    *base_url = "ailleurs".to_string();
    catalog.insert(changed);
    assert!(matches!(catalog.get("m"), Some(Model::OpenAICompatible { base_url, .. }) if base_url == "ailleurs"));
}

#[test]
fn catalog_changes_field_by_field() {
    let mut catalog = ModelCatalog::new();
    let changes = |id: &str| ModelChangeSet {
        id: id.to_string(),
        operations: vec![ModelChange::SetModel("gpt".to_string()), ModelChange::SetApiKey("k".to_string())],
    };
    catalog.update(changes("m"));
    catalog.update(changes("m"));
    assert_eq!(catalog.get("m"), None);
    catalog.update(changes(""));
    catalog.update(changes("a/b"));
    catalog.insert(declared("m"));
    assert_eq!(catalog.get("m"), Some(declared("m")));
    assert_eq!(catalog.get("a/b"), None);
}

#[test]
fn updated_models_read_back() {
    let mut catalog = ModelCatalog::new();
    catalog.insert(declared("m"));
    catalog.insert(declared("n"));
    catalog.update(ModelChangeSet {
        id: "m".to_string(),
        operations: vec![
            ModelChange::SetModel("a".to_string()),
            ModelChange::SetClientId("org2".to_string()),
            ModelChange::SetApiKey("k2".to_string()),
            ModelChange::SetModel("b".to_string()),
        ],
    });
    let expected = Model::OpenAICompatible {
        id: "m".to_string(),
        base_url: "https://example.org/v1".to_string(),
        client_id: "org2".to_string(),
        api_key: "k2".to_string(),
        model: "b".to_string(),
        system_prompt: Some("Sois bref.".to_string()),
    };
    assert_eq!(catalog.get("m"), Some(expected));
    assert_eq!(catalog.get("n"), Some(declared("n")));
    catalog.update(ModelChangeSet { id: "n".to_string(), operations: vec![] });
    assert_eq!(catalog.get("n"), Some(declared("n")));
}

#[test]
fn catalog_lists_and_forgets() {
    let ids = |catalog: &ModelCatalog| {
        let mut ids: Vec<String> = catalog
            .list()
            .into_iter()
            .map(|Model::OpenAICompatible { id, .. }| id)
            .collect();
        ids.sort();
        ids
    };
    let mut catalog = ModelCatalog::new();
    assert!(catalog.list().is_empty());
    catalog.remove("m");
    catalog.insert(declared("m"));
    catalog.insert(declared("n"));
    catalog.insert(declared("m"));
    let loose = || ModelChangeSet {
        id: "o".to_string(),
        operations: vec![ModelChange::SetModel("x".to_string())],
    };
    catalog.update(loose());
    assert_eq!(ids(&catalog), vec!["m".to_string(), "n".to_string()]);
    assert!(catalog.list().contains(&declared("n")));
    catalog.remove("m");
    assert_eq!(catalog.get("m"), None);
    assert_eq!(ids(&catalog), vec!["n".to_string()]);
    catalog.remove("o");
    catalog.update(loose());
    assert_eq!(catalog.get("o"), None);
    catalog.insert(declared("m"));
    assert_eq!(ids(&catalog), vec!["m".to_string(), "n".to_string()]);
}

#[test]
fn changes_travel_encrypted() {
    let changes = || ModelChangeSet {
        id: "m".to_string(),
        operations: vec![
            ModelChange::SetApiKey("k1".to_string()),
            ModelChange::SetModel("gpt".to_string()),
            ModelChange::SetApiKey("k2".to_string()),
            ModelChange::SetClientId("org".to_string()),
        ],
    };
    assert_eq!(changes().secrets(), vec!["k1".to_string(), "k2".to_string()]);
    let encrypted = changes().encrypt(vec![sealed(1), sealed(2)]);
    assert_eq!(encrypted.operations.len(), 4);
    assert_eq!(encrypted.operations[0].secret(), Some(&sealed(1)));
    assert_eq!(encrypted.operations[1].secret(), None);
    assert_eq!(encrypted.operations[2].secret(), Some(&sealed(2)));
    assert_eq!(encrypted.decrypt(vec!["k1".to_string(), "k2".to_string()]), changes());
}

#[test]
fn rows_hold_whole_entries() {
    let stored = StoredModel::encrypt(&declared("m"), sealed(u32::MAX));
    assert_eq!(stored.id().as_str(), "m");
    let row = encode_row(stored);
    assert_eq!(row.kind, "openai_compatible");
    assert_eq!(row.api_key_epoch, -1);
    assert_eq!(row.model_name, "gpt");
    let read = decode_row(row).unwrap();
    assert_eq!(read.key_epoch(), u32::MAX);
    assert_eq!(read.api_key(), &sealed(u32::MAX));
    assert_eq!(read.decrypt("clef".to_string()), declared("m"));

    let mut unknown = encode_row(StoredModel::encrypt(&declared("m"), sealed(1)));
    unknown.kind = "autre".to_string();
    assert_eq!(decode_row(unknown), Err("discriminant de modèle inconnu en base : autre".to_string()));
}

#[test]
fn rotation_touches_what_is_outdated() {
    let stored = |epochs: &[u32]| -> Vec<StoredModel> {
        epochs.iter().map(|e| StoredModel::encrypt(&declared("m"), sealed(*e))).collect()
    };
    let mut pass = reencrypt_model_store(stored(&[1, 2, 1, 2]), 2);
    let mut written = Vec::new();
    while pass.next() {
        assert_eq!(pass.api_key().key_epoch, 1);
        written.push(pass.reencrypt("clef".to_string(), sealed(2)));
    }
    assert_eq!(written, stored(&[2, 2]));
    assert_eq!(pass.report(), ReencryptReport { migrated: 2, already_current: 2 });
    assert_eq!(written.remove(0).decrypt("clef".to_string()), declared("m"));

    // A second pass finds nothing to do.
    let mut again = reencrypt_model_store(stored(&[2, 2, 2, 2]), 2);
    assert!(!again.next());
    assert_eq!(again.report(), ReencryptReport { migrated: 0, already_current: 4 });

    // A pass that is broken off counts what it did.
    let mut broken = reencrypt_model_store(stored(&[2, 1, 1]), 2);
    assert!(broken.next());
    broken.reencrypt("clef".to_string(), sealed(2));
    assert_eq!(broken.report(), ReencryptReport { migrated: 1, already_current: 1 });
    assert_eq!(assert_no_rows_at_epoch(&stored(&[2, 2]), 1), Ok(()));
    assert_eq!(
        assert_no_rows_at_epoch(&stored(&[1, 2, 1]), 1),
        Err("2 entrée(s) du catalogue de modèles encore chiffrée(s) sous l'epoch 1 : lancer reencrypt_model_store avant de la retirer".to_string())
    );
}

#[test]
fn changes_keep_identity_and_key_reference() {
    let (changed, keys) = Models::change(
        item(),
        &vec![
            marie_core::model::ModelChange::SetBaseUrl("b2".to_string()),
            marie_core::model::ModelChange::SetApiKey("k2".to_string()),
            marie_core::model::ModelChange::SetSystemPrompt("p".to_string()),
            marie_core::model::ModelChange::SetBaseUrl("b3".to_string()),
        ],
    );
    assert_eq!(keys, vec!["k2".to_string()]);
    assert_eq!(
        changed,
        model::EncryptedModel::OpenAICompatible {
            id: ModelId::new("m".to_string()),
            base_url: "b3".to_string(),
            client_id: "c".to_string(),
            api_key: SecretRef(ID(9)),
            model: "g".to_string(),
            system_prompt: Some("p".to_string()),
        }
    );
    let plan = Models::delete(&item());
    assert_eq!(plan.remove_secret_first, SecretRef(ID(9)));
    assert_eq!(plan.delete_item_after, ModelId::new("m".to_string()));
    assert_eq!(item().id(), "m");
}

#[test]
fn lookups_of_items() {
    assert_eq!(Models::latest(Ok(5)), Ok(Some(5)));
    assert_eq!(Models::latest::<u8>(Err(CatalogFailure::NotFound)), Ok(None));
    let failed = Models::latest::<u8>(Err(CatalogFailure::Failed("x".to_string())));
    assert_eq!(failed, Err(ModelError::CatalogError("x".to_string())));
    assert_eq!(
        failed.unwrap_err().message(),
        "erreur lors des opérations de cataloguage: x"
    );
    assert_eq!(
        ModelError::VaultError("x".to_string()).message(),
        "erreur lors des opérations du coffre-fort: x"
    );
    assert_eq!(
        ModelError::OpenAIError("x".to_string()).message(),
        "erreur lors des appels au service compatible OpenAI: x"
    );
}

#[test]
fn requests_offer_tools() {
    let tool = ToolSignature {
        name: "t".to_string(),
        description: "d".to_string(),
        parameters_schema: "{}".to_string(),
    };
    let request = build_request(item().decrypt("clef".to_string()), vec![tool], "Bonjour".to_string());
    assert_eq!(request.api_base, "b");
    assert_eq!(request.api_key, "clef");
    assert_eq!(request.org_id, "c");
    assert_eq!(request.model, "g");
    assert_eq!(request.input, "Bonjour");
    assert_eq!(request.instructions, None);
    assert_eq!(request.tools.len(), 1);
    assert_eq!(request.tools[0].parameters, "{}");
}

fn response(output: Vec<OutputItem>) -> ProviderResponse {
    ProviderResponse {
        output_text: Some("Salut".to_string()),
        output,
        usage: Some(ProviderUsage {
            input_tokens: 1,
            cached_tokens: 2,
            output_tokens: 3,
            reasoning_tokens: 4,
            total_tokens: 10,
        }),
        payer: Some("moi".to_string()),
    }
}

#[test]
fn stream_ends_with_the_response() {
    let mut fold = StreamFold::new();
    assert_eq!(
        fold.on_event(ProviderEvent::TextDelta("Sa".to_string())),
        Some(ModelStreamEvent::TextDelta("Sa".to_string()))
    );
    let call = |arguments: &str| OutputItem::FunctionCall { name: "t".to_string(), arguments: arguments.to_string() };
    fold.on_event(ProviderEvent::Completed(response(vec![
        call("{ \"a\" : [1, 2] }"),
        OutputItem::Other,
        call("pas du JSON"),
    ])));
    assert_eq!(fold.on_event(ProviderEvent::Other), None);
    assert_eq!(fold.calls_wanted(), 2);
    match fold.finish(&vec![ID(1), ID(2)]) {
        ModelStreamEvent::Completed(response) => {
            assert_eq!(response.text, Some("Salut".to_string()));
            assert_eq!(response.tool_calls.len(), 2);
            assert_eq!(response.tool_calls[0].id, ID(1));
            assert_eq!(response.tool_calls[0].parameters, "{\"a\":[1,2]}");
            assert_eq!(response.tool_calls[1].id, ID(2));
            assert_eq!(response.tool_calls[1].parameters, "null");
            let usage = response.usage.unwrap();
            assert_eq!(usage.total_tokens, 10);
            assert_eq!(usage.payer, Some("moi".to_string()));
        }
        _ => panic!("expected a response"),
    }
    assert_eq!(call_parameters(None), "null");
    assert_eq!(call_parameters(Some("1".to_string())), "1");
}

#[test]
fn failures_win_over_responses() {
    let mut fold = StreamFold::new();
    fold.on_event(ProviderEvent::Failed(None));
    fold.on_event(ProviderEvent::Completed(response(vec![])));
    assert_eq!(fold.finish(&vec![]), ModelStreamEvent::Failed("réponse échouée".to_string()));

    let mut broken = StreamFold::new();
    broken.on_event(ProviderEvent::Error("a".to_string()));
    broken.on_event(ProviderEvent::Broken("b".to_string()));
    assert_eq!(broken.finish(&vec![]), ModelStreamEvent::Failed("b".to_string()));

    let empty = StreamFold::new();
    assert_eq!(
        empty.finish(&vec![]),
        ModelStreamEvent::Failed("le flux s'est terminé sans réponse".to_string())
    );
}

#[test]
fn client_asks_a_catalog() {
    let peer = NodeId::new(vec![0, 1, 4]).to_peer().unwrap();
    let nobody = ModelClient { bootstrap: BootstrapClient::new() };
    assert_eq!(nobody.select_catalog(&vec![1]), Err(ModelClientError::NoCatalogAvailable));
    assert_eq!(nobody.select_to_read(Ok(()), &vec![1]), Err(ModelClientError::NoCatalogAvailable));
    assert_eq!(
        nobody.select_to_read(Err("x".to_string()), &vec![1]),
        Err(ModelClientError::SecretError("x".to_string()))
    );
    let client = ModelClient { bootstrap: BootstrapClient { members: vec![(NS_MODEL.to_string(), peer.clone())] } };
    assert_eq!(client.select_catalog(&vec![1]), Ok(peer));
    let encrypted = || declared("m").encrypt(sealed(1));
    assert_eq!(ModelClient::on_get("m".to_string(), Ok(Some(encrypted()))), Ok(encrypted()));
    assert_eq!(
        ModelClient::on_get("m".to_string(), Ok(None)),
        Err(ModelClientError::UnknownModel("m".to_string()))
    );
    assert_eq!(
        ModelClient::on_get("m".to_string(), Err("x".to_string())),
        Err(ModelClientError::RpcError("x".to_string()))
    );
    assert_eq!(ModelClient::on_opened(encrypted(), Ok("clef".to_string())), Ok(declared("m")));
    let key = || Ok("clef".to_string());
    assert_eq!(
        ModelClient::on_list(vec![encrypted(), encrypted()], vec![key(), key()]),
        Ok(vec![declared("m"), declared("m")])
    );
    assert_eq!(
        ModelClient::on_list(vec![encrypted(), encrypted()], vec![key(), Err("x".to_string())]),
        Err(ModelClientError::SecretError("x".to_string()))
    );
}

#[test]
fn fields_spell_a_model() {
    let fields = model_fields(declared("m"));
    assert_eq!(model_from_fields(OPENAI_COMPATIBLE, &fields), Some(declared("m")));
    assert_eq!(model_from_fields("Autre", &fields), None);
    let mut fewer = model_fields(declared("m"));
    fewer.retain(|(name, _)| name != "api_key");
    assert_eq!(model_from_fields(OPENAI_COMPATIBLE, &fewer), None);
    let mut silent = model_fields(declared("m"));
    silent.retain(|(name, _)| name != "system_prompt");
    assert!(matches!(
        model_from_fields(OPENAI_COMPATIBLE, &silent),
        Some(Model::OpenAICompatible { system_prompt: None, .. })
    ));
}

#[test]
fn server_holds_what_it_is_given() {
    let mut server = ModelServer::new();
    assert_eq!(server.get("m"), None);
    server.insert(declared("m").encrypt(sealed(1)), "clef".to_string());
    let found = server.get("m");
    assert_eq!(found, Some(declared("m")));
    assert_eq!(answer_get(found.as_ref(), sealed(7)), Some(declared("m").encrypt(sealed(7))));
    assert_eq!(answer_get(None, sealed(7)), None);
    let changes = ModelChangeSet {
        id: "n".to_string(),
        operations: vec![ModelChange::SetApiKey("k".to_string())],
    };
    server.update(changes.encrypt(vec![sealed(1)]), vec!["k".to_string()]);
    assert_eq!(server.get("n"), None);
    let changes = ModelChangeSet {
        id: "m".to_string(),
        operations: vec![ModelChange::SetApiKey("k".to_string())],
    };
    server.update(changes.encrypt(vec![sealed(1)]), vec!["k".to_string()]);
    assert_eq!(server.get("m").unwrap().api_key(), "k");
    let listed = server.list();
    assert_eq!(listed.len(), 1);
    assert_eq!(answer_list(&listed, vec![sealed(9)]), vec![declared("m").encrypt(sealed(9))]);
    server.remove("m");
    assert!(server.list().is_empty());
    assert_eq!(server.get("m"), None);
    assert_eq!(procedure("/marie/models/update"), ModelProcedure::Update);
    assert_eq!(procedure("/marie/models"), ModelProcedure::Other);
}
