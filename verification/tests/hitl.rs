use marie_core::hitl::client::{HitlClient, HitlGossipMessage, Ingested, HITL_TOPIC};
use marie_core::hitl::model::{check_upload, ends_with_any, validate_answers, Answer, Answers, Question};
use marie_core::hitl::service::{HitlContainer, HitlError, SessionHitls, StorageFailure};
use marie_core::hitl::store::{InMemoryHitlStore, InMemoryHitlStoreError};
use marie_core::hitl::{Hitl, HitlFrame, HitlId};
use marie_core::id::{GlobalAgentId, SessionId, ID};

fn texts(list: &[&str]) -> Vec<String> {
    list.iter().map(|t| t.to_string()).collect()
}

fn answers(list: Vec<(&str, Answer)>) -> Answers {
    let mut answers = Answers::new();
    for (key, answer) in list {
        answers.insert(key.to_string(), answer);
    }
    answers
}

fn single(text: &str) -> Answer {
    Answer::Single(text.to_string())
}

fn sample_questions() -> Vec<Question> {
    vec![
        Question::short_text("name".to_string(), "Votre nom ?".to_string()),
        Question::select("env".to_string(), "Environnement ?".to_string(), texts(&["prod", "staging"])),
        Question::checkboxes("notify".to_string(), "Notifier qui ?".to_string(), texts(&["slack", "email"])),
    ]
}

fn file_upload_questions(accept: Vec<String>) -> Vec<Question> {
    vec![Question::file_upload("attachment".to_string(), "Joindre un fichier".to_string(), accept)]
}

#[test]
fn test_validate_answers_accepts_matching_answers() {
    let questions = sample_questions();
    let answers = answers(vec![
        ("name", single("Ada")),
        ("env", single("prod")),
        ("notify", Answer::Multiple(vec!["slack".to_string()])),
    ]);

    assert!(validate_answers(&questions, &answers).is_ok());
}

#[test]
fn test_validate_answers_rejects_missing_answer() {
    let questions = sample_questions();
    let answers = answers(vec![("name", single("Ada"))]);

    assert!(validate_answers(&questions, &answers).is_err());
}

#[test]
fn test_validate_answers_rejects_choice_outside_options() {
    let questions = sample_questions();
    let answers = answers(vec![
        ("name", single("Ada")),
        ("env", single("dev")),
        ("notify", Answer::Multiple(vec![])),
    ]);

    assert!(validate_answers(&questions, &answers).is_err());
}

#[test]
fn test_validate_answers_rejects_wrong_answer_shape() {
    let questions = sample_questions();
    let answers = answers(vec![
        ("name", Answer::Multiple(vec!["Ada".to_string()])),
        ("env", single("prod")),
        ("notify", Answer::Multiple(vec![])),
    ]);

    assert!(validate_answers(&questions, &answers).is_err());
}

#[test]
fn test_validate_answers_accepts_matching_file_extension() {
    let questions = file_upload_questions(vec![".pdf".to_string(), ".png".to_string()]);
    let answers = answers(vec![("attachment", single("rapport.PDF"))]);

    assert!(validate_answers(&questions, &answers).is_ok());
}

#[test]
fn test_validate_answers_rejects_unaccepted_file_extension() {
    let questions = file_upload_questions(vec![".pdf".to_string()]);
    let answers = answers(vec![("attachment", single("photo.jpg"))]);

    assert!(validate_answers(&questions, &answers).is_err());
}

#[test]
fn test_validate_answers_rejects_empty_filename() {
    let questions = file_upload_questions(vec![]);
    let answers = answers(vec![("attachment", Answer::Single(String::new()))]);

    assert!(validate_answers(&questions, &answers).is_err());
}

#[test]
fn test_validate_answers_accepts_any_file_when_accept_is_empty() {
    let questions = file_upload_questions(vec![]);
    let answers = answers(vec![("attachment", single("n_importe_quoi.bin"))]);

    assert!(validate_answers(&questions, &answers).is_ok());
}

#[test]
fn validation_messages_name_the_question() {
    let questions = sample_questions();
    let missing = answers(vec![("name", single("Ada"))]);
    assert_eq!(
        validate_answers(&questions, &missing),
        Err("réponse manquante pour 'env'".to_string())
    );

    let outside = answers(vec![("name", single("Ada")), ("env", single("dev"))]);
    assert_eq!(
        validate_answers(&questions, &outside),
        Err("'dev' n'est pas une option valide pour 'env'".to_string())
    );

    let shape = answers(vec![("name", Answer::Multiple(vec![]))]);
    assert_eq!(
        validate_answers(&questions, &shape),
        Err("type de réponse inattendu pour 'name'".to_string())
    );

    let upload = file_upload_questions(vec![".pdf".to_string()]);
    let unaccepted = answers(vec![("attachment", single("photo.jpg"))]);
    assert_eq!(
        validate_answers(&upload, &unaccepted),
        Err("'photo.jpg' n'a pas une extension acceptée pour 'attachment'".to_string())
    );
}

#[test]
fn white_space_is_no_file_name() {
    let upload = file_upload_questions(vec![]);
    let blank = answers(vec![("attachment", single(" \t\u{2003}"))]);
    assert!(validate_answers(&upload, &blank).is_err());
    let named = answers(vec![("attachment", single(" x"))]);
    assert!(validate_answers(&upload, &named).is_ok());
}

#[test]
fn endings_match_in_any_case() {
    let upload = file_upload_questions(vec![".ÉTÉ".to_string()]);
    let lower = answers(vec![("attachment", single("photo.été"))]);
    assert!(validate_answers(&upload, &lower).is_ok());
    let other = answers(vec![("attachment", single("photo.ete"))]);
    assert!(validate_answers(&upload, &other).is_err());
}

#[test]
fn first_invalid_checkbox_is_named() {
    let questions = vec![Question::checkboxes("to".to_string(), "À qui ?".to_string(), texts(&["slack", "email"]))];
    let bad = answers(vec![("to", Answer::Multiple(texts(&["email", "fax", "telex"])))]);
    assert_eq!(
        validate_answers(&questions, &bad),
        Err("'fax' n'est pas une option valide pour 'to'".to_string())
    );
    let none = answers(vec![("to", Answer::Multiple(vec![]))]);
    assert_eq!(validate_answers(&questions, &none), Ok(()));
}

fn session(n: u128) -> SessionId {
    SessionId(ID(n))
}

fn question(id: u128) -> HitlFrame {
    HitlFrame {
        session_id: session(1),
        id: HitlId(ID(id)),
        hitl: Hitl::Question(Question::radio("go".to_string(), "On y va ?".to_string(), texts(&["oui", "non"]))),
        answer: None,
    }
}

#[test]
fn reply_is_recorded_and_announced_only_if_it_fits() {
    let hitls = SessionHitls::new(session(1));
    let mut store = InMemoryHitlStore::new();
    let frame = question(7);
    let asked = hitls.request(&mut store, HitlId(ID(7)), frame.hitl);
    assert_eq!(asked.session_id, session(1));
    assert_eq!(asked.id, HitlId(ID(7)));
    assert_eq!(store.list_pending_hitls(session(1)).len(), 1);

    let refused = hitls.reply(&mut store, HitlId(ID(7)), answers(vec![("go", single("peut-être"))]));
    match refused {
        Err(HitlError::ValidationError(message)) => {
            assert_eq!(message, "'peut-être' n'est pas une option valide pour 'go'")
        }
        _ => panic!("expected a validation error"),
    }
    // The answers are on record all the same.
    assert!(store.list_pending_hitls(session(1)).is_empty());

    let unknown = hitls.reply(&mut store, HitlId(ID(8)), answers(vec![]));
    match unknown {
        Err(error) => {
            let missing = InMemoryHitlStoreError::HitlNotFound(session(1), HitlId(ID(8)));
            assert_eq!(error, HitlError::StorageError(StorageFailure::InMemory(missing)));
            assert_eq!(
                error.message("s1", "h8"),
                "erreur lors des opérations de stockage: hitl h8 introuvable pour la session s1"
            );
        }
        _ => panic!("expected an unknown question"),
    }

    let accepted = hitls.reply(&mut store, HitlId(ID(7)), answers(vec![("go", single("oui"))]));
    match accepted {
        Ok(response) => {
            assert_eq!(response.id, HitlId(ID(7)));
            assert_eq!(response.answers.get(&"go".to_string()), Some(&single("oui")));
        }
        Err(_) => panic!("expected an answer"),
    }
    assert!(store.list_pending_hitls(session(1)).is_empty());
    let kept = match store.get_hitl_frame(&session(1), &HitlId(ID(7))) {
        Ok(frame) => frame,
        Err(_) => panic!("the question is gone"),
    };
    assert!(kept.answer.is_some());
}

#[test]
fn error_messages() {
    assert_eq!(
        HitlError::StorageError(StorageFailure::Other("disque plein".to_string())).message("s", "h"),
        "erreur lors des opérations de stockage: disque plein"
    );
    assert_eq!(HitlError::ValidationError("x".to_string()).message("s", "h"), "erreur de validation: x");
}

#[test]
fn replies_are_settled_alike_in_every_store() {
    let hitls = SessionHitls::new(session(1));
    let id = HitlId(ID(7));
    let full = || StorageFailure::Other("disque plein".to_string());
    match hitls.settle_request(id, question(7).hitl, Ok(())) {
        Ok(request) => assert_eq!((request.session_id, request.id), (session(1), id)),
        Err(_) => panic!("expected a request"),
    }
    match hitls.settle_request(id, question(7).hitl, Err(full())) {
        Err(error) => assert_eq!(error, HitlError::StorageError(full())),
        Ok(_) => panic!("expected a failure"),
    }
    match hitls.settle_reply(id, answers(vec![("go", single("oui"))]), Ok(question(7).hitl)) {
        Ok(response) => assert_eq!((response.session_id, response.id), (session(1), id)),
        Err(_) => panic!("expected an answer"),
    }
    match hitls.settle_reply(id, answers(vec![("go", single("euh"))]), Ok(question(7).hitl)) {
        Err(HitlError::ValidationError(message)) => {
            assert_eq!(message, "'euh' n'est pas une option valide pour 'go'")
        }
        _ => panic!("expected a validation error"),
    }
    match hitls.settle_reply(id, answers(vec![]), Err(full())) {
        Err(error) => assert_eq!(error, HitlError::StorageError(full())),
        Ok(_) => panic!("expected a failure"),
    }
    assert!(hitls.settle_reply(id, answers(vec![]), Ok(Hitl::Text)).is_ok());
}

#[test]
fn stored_questions_are_listed_until_answered() {
    let mut store = InMemoryHitlStore::new();
    assert!(store.get_hitl_frame(&session(1), &HitlId(ID(1))).is_err());
    assert!(store.list_pending_hitls(session(1)).is_empty());
    store.upsert_hitl_frame(question(1));
    store.upsert_hitl_frame(question(2));
    store.upsert_hitl_frame(question(1));
    assert_eq!(store.list_pending_hitls(session(1)).len(), 2);
    assert!(store.list_pending_hitls(session(2)).is_empty());
    assert!(store.write_hitl_response(&session(1), &HitlId(ID(1)), answers(vec![])).is_ok());
    let open: Vec<HitlId> = store.list_pending_hitls(session(1)).iter().map(|p| p.id).collect();
    assert_eq!(open, vec![HitlId(ID(2))]);
}

#[test]
fn white_space_alone_is_no_file_name() {
    let listed: Vec<char> = (0x9..=0xd)
        .chain([0x20, 0x85, 0xa0, 0x1680])
        .chain(0x2000..=0x200a)
        .chain([0x2028, 0x2029, 0x202f, 0x205f, 0x3000])
        .map(|c| char::from_u32(c).unwrap())
        .collect();
    let upload = file_upload_questions(vec![]);
    for c in (0..=0x10ffff).filter_map(char::from_u32) {
        let named = answers(vec![("attachment", single(&c.to_string()))]);
        assert_eq!(validate_answers(&upload, &named).is_err(), listed.contains(&c), "{c:?}");
    }
}

#[test]
fn unanswered_questions_of_other_sessions_are_not_listed() {
    let mut store = InMemoryHitlStore::new();
    store.upsert_hitl_frame(question(1));
    let mut other = question(2);
    other.session_id = session(2);
    store.upsert_hitl_frame(other);
    let mut answered = question(3);
    answered.answer = Some(answers(vec![("go", single("non"))]));
    store.upsert_hitl_frame(answered);
    let open: Vec<HitlId> = store.list_unanswered_hitls_frames(session(1)).iter().map(|f| f.id).collect();
    assert_eq!(open, vec![HitlId(ID(1))]);
    assert!(store.write_hitl_response(&session(1), &HitlId(ID(9)), answers(vec![])).is_err());
}

#[test]
fn container_writes_only_what_changed() {
    let mut loaded = HitlContainer::from_loaded(question(1));
    assert!(loaded.to_write().is_none());
    loaded.get_mut().answer = Some(answers(vec![]));
    assert!(loaded.to_write().is_some());
    loaded.on_flushed(false);
    assert!(loaded.to_write().is_some());
    loaded.on_flushed(true);
    assert!(loaded.to_write().is_none());
    assert!(HitlContainer::from_hitl(question(2)).to_write().is_some());
}

#[test]
fn first_answer_wins() {
    let mut client = HitlClient::new();
    let agent = GlobalAgentId::new(session(1), ID(2));
    let request = match client.ask(ID(5), agent, sample_questions()) {
        HitlGossipMessage::Request(request) => request,
        HitlGossipMessage::Answer(_) => panic!("a form was put"),
    };
    let good = || {
        answers(vec![
            ("name", single("Ada")),
            ("env", single("prod")),
            ("notify", Answer::Multiple(vec![])),
        ])
    };
    assert!(client.answer(&request, answers(vec![])).is_err());
    let first = client.answer(&request, good()).ok();
    let second = client.answer(&request, good()).ok();
    assert!(matches!(client.ingest("autre", client_answer(&request, good())), Ingested::Ignored));
    assert!(matches!(client.ingest(HITL_TOPIC, None), Ingested::Ignored));
    match client.ingest(HITL_TOPIC, first) {
        Ingested::Resolve { request_id, .. } => assert_eq!(request_id, ID(5)),
        _ => panic!("the form waits"),
    }
    assert!(matches!(client.ingest(HITL_TOPIC, second), Ingested::Ignored));
    assert!(matches!(
        client.ingest(HITL_TOPIC, Some(HitlGossipMessage::Request(request))),
        Ingested::Show(_)
    ));
}

fn client_answer(
    request: &marie_core::hitl::client::HumanInputRequest,
    answers: Answers,
) -> Option<HitlGossipMessage> {
    HitlClient::new().answer(request, answers).ok()
}

#[test]
fn unpublished_form_waits_for_nothing() {
    let mut client = HitlClient::new();
    let agent = GlobalAgentId::new(session(1), ID(2));
    client.ask(ID(5), agent, vec![]);
    client.on_publish_failed(ID(5));
    let forgotten = match client.ask_and_forget(ID(6), agent, vec![]) {
        HitlGossipMessage::Request(request) => request,
        HitlGossipMessage::Answer(_) => panic!("a form was put"),
    };
    let message = client.answer(&forgotten, answers(vec![])).ok();
    assert!(matches!(client.ingest(HITL_TOPIC, message), Ingested::Ignored));
}

#[test]
fn uploads_by_name_and_ending() {
    assert!(ends_with_any("rapport.pdf", &texts(&[".png", ".pdf"])));
    assert!(!ends_with_any("rapport.pdf", &texts(&[".PDF"])));
    assert!(ends_with_any("rapport.pdf", &vec![]));
    assert_eq!(check_upload("k", "f", false, true), Ok(()));
    assert_eq!(check_upload("k", " ", true, true), Err("nom de fichier manquant pour 'k'".to_string()));
    assert_eq!(
        check_upload("k", "f", false, false),
        Err("'f' n'a pas une extension acceptée pour 'k'".to_string())
    );
}
