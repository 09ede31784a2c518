//! Persistency nodes: the durable fallback holders of sessions and workspaces.

use crate::id::{SessionId, WorkspaceId};
use crate::network::cp::control::ShutdownSignal;
use crate::network::cp::rpc::{RpcCall, SessionFetchRequest, WorkspaceFetchRequest};
use crate::network::peer::PeerId;
use crate::text::{join2, join3};
use vstd::prelude::*;
use yrs::updates::decoder::Decode;
use yrs::updates::encoder::Encode;

verus! {

/// What a state vector says, if the bytes encode one: for each client, how
/// much of its work has been seen.
pub uninterp spec fn state_vector_of(bytes: Seq<u8>) -> Option<Map<u64, u32>>;

/// The clocks in a list, by client. A later entry replaces an earlier one.
pub open spec fn clocks(list: Seq<(u64, u32)>) -> Map<u64, u32>
    decreases list.len(),
{
    if list.len() == 0 {
        Map::empty()
    } else {
        clocks(list.drop_last()).insert(list.last().0, list.last().1)
    }
}

/// Whether seven bytes in a row, from position `i` on, have their high bit
/// set.
pub open spec fn seven_high(bytes: Seq<u8>, i: int) -> bool {
    forall|j: int| i <= j < i + 7 ==> #[trigger] bytes[j] >= 0x80
}

/// Whether no number in `bytes` takes more than 53 bits: seven bytes of seven
/// bits each leave room for four more bits.
pub open spec fn narrow(bytes: Seq<u8>) -> bool {
    forall|i: int|
        0 <= i && i + 7 < bytes.len() && #[trigger] seven_high(bytes, i) ==> bytes[i + 7] < 16
}

/// Calls `yrs::StateVector::decode_v1` and lists what came out. The outcome
/// depends on the bytes alone and is named by [`state_vector_of`]; of the text
/// of an error nothing is stated, since it may come from a failed allocation.
/// The order of the list is that of a hash map, so nothing is stated of it
/// either. Clients are 53-bit numbers: `ClientID::new` panics, where debug
/// assertions are on, on one that is not, so such bytes are left out.
#[verifier::external_body]
fn decode_state_vector(bytes: &Vec<u8>) -> (r: Result<Vec<(u64, u32)>, String>)
    requires
        narrow(bytes@),
    ensures
        match r {
            Ok(list) => state_vector_of(bytes@) == Some(clocks(list@)),
            Err(_) => state_vector_of(bytes@) is None,
        },
{
    match yrs::StateVector::decode_v1(bytes) {
        Ok(vector) => Ok(vector.iter().map(|e| (e.0.get(), *e.1)).collect()),
        Err(error) => Err(error.to_string()),
    }
}

/// Calls `yrs::StateVector::default` and its `encode_v1`: a state vector
/// without clients is its length alone, zero in one byte.
#[verifier::external_body]
fn empty_state_vector() -> (r: Vec<u8>)
    ensures
        r@ == seq![0u8],
{
    yrs::StateVector::default().encode_v1()
}

/// Whether no number in `bytes` takes more than 53 bits.
pub fn is_narrow(bytes: &Vec<u8>) -> (r: bool)
    ensures
        r == narrow(bytes@),
{
    let mut run: usize = 0;
    let mut i: usize = 0;
    while i < bytes.len()
        invariant
            i <= bytes@.len(),
            run <= 7,
            run <= i,
            forall|j: int| i - run <= j < i ==> #[trigger] bytes@[j] >= 0x80,
            run < 7 ==> run == i || bytes@[i - run - 1] < 0x80,
            forall|k: int|
                0 <= k && k + 7 < i && #[trigger] seven_high(bytes@, k) ==> bytes@[k + 7] < 16,
        decreases bytes@.len() - i,
    {
        if run == 7 && bytes[i] >= 16 {
            assert(seven_high(bytes@, i - 7));
            return false;
        }
        proof {
            assert forall|k: int|
                0 <= k && k + 7 < i + 1 && #[trigger] seven_high(bytes@, k) implies bytes@[k + 7]
                < 16 by {
                if k + 7 == i && run < 7 {
                    assert(bytes@[i - run - 1] >= 0x80);
                }
            }
        }
        if bytes[i] >= 0x80 {
            run = run + 1;
        } else {
            run = 0;
        }
        i = i + 1;
    }
    true
}

/// What a persistency node holds.
#[derive(Clone, Copy, Debug, PartialEq, Eq, Structural)]
pub enum Document {
    Session(SessionId),
    Workspace(WorkspaceId),
}

/// A call that a persistency node serves, with its arguments, or the name of
/// one that it does not.
#[derive(Debug, PartialEq)]
pub enum PersistencyRequest {
    FetchSession(SessionFetchRequest),
    FetchWorkspace(WorkspaceFetchRequest),
    DeleteSession(SessionId),
    Unmanaged { name: String },
}

/// The procedures that a persistency node serves, and the others.
#[derive(Clone, Copy, Debug, PartialEq, Eq, Structural)]
pub enum PersistencyRoute {
    FetchSession,
    FetchWorkspace,
    DeleteSession,
    Unmanaged,
}

/// Which procedure a name stands for.
pub open spec fn route_of(name: Seq<char>) -> PersistencyRoute {
    if name == RpcCall::FETCH_SESSION@ {
        PersistencyRoute::FetchSession
    } else if name == RpcCall::FETCH_WORKSPACE@ {
        PersistencyRoute::FetchWorkspace
    } else if name == RpcCall::DELETE_SESSION@ {
        PersistencyRoute::DeleteSession
    } else {
        PersistencyRoute::Unmanaged
    }
}

/// Which procedure a name stands for.
pub fn route(name: &str) -> (r: PersistencyRoute)
    ensures
        r == route_of(name@),
{
    if crate::text::same_text(name, RpcCall::FETCH_SESSION) {
        PersistencyRoute::FetchSession
    } else if crate::text::same_text(name, RpcCall::FETCH_WORKSPACE) {
        PersistencyRoute::FetchWorkspace
    } else if crate::text::same_text(name, RpcCall::DELETE_SESSION) {
        PersistencyRoute::DeleteSession
    } else {
        PersistencyRoute::Unmanaged
    }
}

/// What a call comes to.
#[derive(Debug, PartialEq)]
pub enum PersistencyReply {
    /// What the caller misses of a document.
    Diff(Vec<u8>),
    /// Nothing, successfully.
    Null,
    Error(String),
}

/// What is to be done next for a call.
#[derive(Debug, PartialEq)]
#[allow(inconsistent_fields)]
pub enum PersistencyStep {
    /// Compute what a document has that a caller with these clocks misses.
    Diff { document: Document, clocks: Vec<(u64, u32)> },
    /// Delete the content of a session.
    DeleteSession { session_id: SessionId },
    /// Ask the control plane which workspace a session belongs to.
    FindWorkspace { session_id: SessionId },
    /// Delete the files of a session in its workspace.
    DeleteFiles { workspace_id: WorkspaceId, session_id: SessionId },
    Reply(PersistencyReply),
}

/// The error for a procedure that is not served.
pub open spec fn unmanaged_text(name: Seq<char>) -> Seq<char> {
    "unmanaged remote procedure "@ + name
}

/// The error for a state vector with a number in it that is no client's and no
/// clock's.
pub const WIDE_STATE_VECTOR: &'static str = "the state vector holds a number of more than 53 bits";

/// Whether `step` starts a fetch of `document` for a caller with this state
/// vector: a diff against its clocks, or an error where the bytes encode none
/// or hold a number that is too wide.
pub open spec fn starts_fetch(
    step: PersistencyStep,
    document: Document,
    state_vector: Seq<u8>,
) -> bool {
    if !narrow(state_vector) {
        match step {
            PersistencyStep::Reply(PersistencyReply::Error(error)) => error@ == WIDE_STATE_VECTOR@,
            _ => false,
        }
    } else {
        match state_vector_of(state_vector) {
            Some(seen) => match step {
                PersistencyStep::Diff { document: asked, clocks: list } => asked == document
                    && clocks(list@) == seen,
                _ => false,
            },
            None => match step {
                PersistencyStep::Reply(PersistencyReply::Error(_)) => true,
                _ => false,
            },
        }
    }
}

/// What a state vector says: its clocks, by client.
fn read_state_vector(bytes: &Vec<u8>) -> (r: Result<Vec<(u64, u32)>, String>)
    ensures
        match r {
            Ok(list) => narrow(bytes@) && state_vector_of(bytes@) == Some(clocks(list@)),
            Err(error) => if narrow(bytes@) {
                state_vector_of(bytes@) is None
            } else {
                error@ == WIDE_STATE_VECTOR@
            },
        },
{
    if is_narrow(bytes) {
        decode_state_vector(bytes)
    } else {
        Err(WIDE_STATE_VECTOR.to_owned())
    }
}

/// The first step of a fetch, for a state vector that decoded to `seen` or
/// failed to decode.
pub fn start_fetch(document: Document, seen: Result<Vec<(u64, u32)>, String>) -> (r:
    PersistencyStep)
    ensures
        r == (match seen {
            Ok(clocks) => PersistencyStep::Diff { document, clocks },
            Err(error) => PersistencyStep::Reply(PersistencyReply::Error(error)),
        }),
{
    match seen {
        Ok(clocks) => PersistencyStep::Diff { document, clocks },
        Err(error) => PersistencyStep::Reply(PersistencyReply::Error(error)),
    }
}

/// The first step for a call.
pub fn execute_rpc(request: PersistencyRequest) -> (r: PersistencyStep)
    ensures
        match request {
            PersistencyRequest::FetchSession(fetch) => starts_fetch(
                r,
                Document::Session(fetch.session_id),
                fetch.state_vector@,
            ),
            PersistencyRequest::FetchWorkspace(fetch) => starts_fetch(
                r,
                Document::Workspace(fetch.workspace_id),
                fetch.state_vector@,
            ),
            PersistencyRequest::DeleteSession(session_id) => r
                == (PersistencyStep::DeleteSession { session_id }),
            PersistencyRequest::Unmanaged { name } => match r {
                PersistencyStep::Reply(PersistencyReply::Error(error)) => error@ == unmanaged_text(
                    name@,
                ),
                _ => false,
            },
        },
{
    match request {
        PersistencyRequest::FetchSession(fetch) => start_fetch(
            Document::Session(fetch.session_id),
            read_state_vector(&fetch.state_vector),
        ),
        PersistencyRequest::FetchWorkspace(fetch) => start_fetch(
            Document::Workspace(fetch.workspace_id),
            read_state_vector(&fetch.state_vector),
        ),
        PersistencyRequest::DeleteSession(session_id) => PersistencyStep::DeleteSession {
            session_id,
        },
        PersistencyRequest::Unmanaged { name } => PersistencyStep::Reply(
            PersistencyReply::Error(join2("unmanaged remote procedure ", name.as_str())),
        ),
    }
}

/// The error for a document that is not held; `id` is the text of its
/// identifier.
pub open spec fn unknown_text(document: Document, id: Seq<char>) -> Seq<char> {
    match document {
        Document::Session(_) => "session "@ + id + " inconnue de ce nœud de persistance"@,
        Document::Workspace(_) => "workspace "@ + id + " inconnu de ce nœud de persistance"@,
    }
}

/// The reply to a fetch, once the store has answered: the diff, nothing where
/// it does not hold the document, or an error.
pub fn on_diff(
    document: Document,
    id_text: &str,
    outcome: Result<Option<Vec<u8>>, String>,
) -> (r: PersistencyReply)
    ensures
        match outcome {
            Ok(Some(diff)) => r == PersistencyReply::Diff(diff),
            Ok(None) => match r {
                PersistencyReply::Error(error) => error@ == unknown_text(document, id_text@),
                _ => false,
            },
            Err(error) => r == PersistencyReply::Error(error),
        },
{
    match outcome {
        Ok(Some(diff)) => PersistencyReply::Diff(diff),
        Ok(None) => {
            match document {
                Document::Session(_) => PersistencyReply::Error(
                    join3("session ", id_text, " inconnue de ce nœud de persistance"),
                ),
                Document::Workspace(_) => PersistencyReply::Error(
                    join3("workspace ", id_text, " inconnu de ce nœud de persistance"),
                ),
            }
        },
        Err(error) => PersistencyReply::Error(error),
    }
}

/// The step after the content of a session was deleted, or was not.
pub fn on_session_deleted(session_id: SessionId, outcome: Result<(), String>) -> (r:
    PersistencyStep)
    ensures
        r == (match outcome {
            Ok(_) => PersistencyStep::FindWorkspace { session_id },
            Err(error) => PersistencyStep::Reply(PersistencyReply::Error(error)),
        }),
{
    match outcome {
        Ok(_) => PersistencyStep::FindWorkspace { session_id },
        Err(error) => PersistencyStep::Reply(PersistencyReply::Error(error)),
    }
}

/// The step after the control plane was asked for the workspace of a deleted
/// session. A session without one, or a failed call, leaves nothing to do.
pub fn on_workspace_found(
    session_id: SessionId,
    outcome: Result<Option<WorkspaceId>, String>,
) -> (r: PersistencyStep)
    ensures
        r == (match outcome {
            Ok(Some(workspace_id)) => PersistencyStep::DeleteFiles { workspace_id, session_id },
            _ => PersistencyStep::Reply(PersistencyReply::Null),
        }),
{
    match outcome {
        Ok(Some(workspace_id)) => PersistencyStep::DeleteFiles { workspace_id, session_id },
        _ => PersistencyStep::Reply(PersistencyReply::Null),
    }
}

/// The reply after the files of a deleted session were deleted, or were not.
pub fn on_files_deleted(outcome: Result<(), String>) -> (r: PersistencyReply)
    ensures
        r == (match outcome {
            Ok(_) => PersistencyReply::Null,
            Err(error) => PersistencyReply::Error(error),
        }),
{
    match outcome {
        Ok(_) => PersistencyReply::Null,
        Err(error) => PersistencyReply::Error(error),
    }
}

/// The merge of a diff that a peer gossiped into what is stored.
#[derive(Debug, PartialEq)]
pub struct Ingest {
    pub document: Document,
    pub source: PeerId,
    pub diff: Vec<u8>,
}

/// What is to be done next for a merge.
#[derive(Debug, PartialEq)]
#[allow(inconsistent_fields)]
pub enum IngestAction {
    /// Ask `source` for all of the document.
    Fetch { source: PeerId, document: Document, state_vector: Vec<u8> },
    /// Build the document from all of it.
    Build { full_diff: Vec<u8> },
    /// Apply the diff that was gossiped.
    Apply { diff: Vec<u8> },
    /// Store the document.
    Store { document: Document },
    Done,
    /// Give the merge up, and go on.
    GiveUp { error: String },
}

/// What happened for a merge.
#[derive(Debug, PartialEq)]
#[allow(inconsistent_fields)]
pub enum IngestEvent {
    /// The store was asked for the document, and holds it or not.
    Loaded { held: bool },
    /// The source sent all of the document.
    Fetched { full_diff: Vec<u8> },
    Built,
    Applied,
    Stored,
    Failed { error: String },
}

impl Ingest {
    /// What to do after `event`. A document that is not held cannot be built
    /// from a diff alone: all of it is fetched first, from the peer that
    /// gossiped the diff, which holds it. Then the diff is applied, and the
    /// document stored. Any failure ends the merge.
    pub fn on_event(&self, event: IngestEvent) -> (r: IngestAction)
        ensures
            match event {
                IngestEvent::Loaded { held } => if held {
                    r matches IngestAction::Apply { diff } && diff@ == self.diff@
                } else {
                    r matches IngestAction::Fetch { source, document, state_vector } && source
                        == self.source && document == self.document && state_vector@ == seq![0u8]
                },
                IngestEvent::Fetched { full_diff } => r == (IngestAction::Build { full_diff }),
                IngestEvent::Built => r matches IngestAction::Apply { diff } && diff@ == self.diff@,
                IngestEvent::Applied => r == (IngestAction::Store { document: self.document }),
                IngestEvent::Stored => r == IngestAction::Done,
                IngestEvent::Failed { error } => r == (IngestAction::GiveUp { error }),
            },
    {
        match event {
            IngestEvent::Loaded { held } => {
                if held {
                    IngestAction::Apply { diff: crate::collections::copy_bytes(&self.diff) }
                } else {
                    IngestAction::Fetch {
                        source: self.source.clone(),
                        document: self.document,
                        state_vector: empty_state_vector(),
                    }
                }
            },
            IngestEvent::Fetched { full_diff } => IngestAction::Build { full_diff },
            IngestEvent::Built => IngestAction::Apply {
                diff: crate::collections::copy_bytes(&self.diff),
            },
            IngestEvent::Applied => IngestAction::Store { document: self.document },
            IngestEvent::Stored => IngestAction::Done,
            IngestEvent::Failed { error } => IngestAction::GiveUp { error },
        }
    }
}

/// Which kind of document a gossiped message is about.
#[derive(Clone, Copy, Debug, PartialEq, Eq, Structural)]
pub enum SyncTopic {
    Sessions,
    Workspaces,
    /// None of this node's business.
    Other,
}

/// What a topic is about, given those of sessions and of workspaces.
pub fn sync_topic(topic: &str, sessions: &str, workspaces: &str) -> (r: SyncTopic)
    ensures
        r == (if topic@ == sessions@ {
            SyncTopic::Sessions
        } else if topic@ == workspaces@ {
            SyncTopic::Workspaces
        } else {
            SyncTopic::Other
        }),
{
    if crate::text::same_text(topic, sessions) {
        SyncTopic::Sessions
    } else if crate::text::same_text(topic, workspaces) {
        SyncTopic::Workspaces
    } else {
        SyncTopic::Other
    }
}

/// What a persistency node keeps between events.
pub struct PersistencyNode {
    /// Whether nobody can ask for a stop any more.
    pub shutdown_gone: bool,
}

impl PersistencyNode {
    pub fn new() -> (r: Self)
        ensures
            !r.shutdown_gone,
    {
        PersistencyNode { shutdown_gone: false }
    }

    /// The signal to stop changed. Says whether the node stops, which it can
    /// do at once: events are handled one by one. Dropping the handle that
    /// could ask for a stop does not stop the node.
    pub fn on_shutdown(&mut self, signal: ShutdownSignal) -> (r: bool)
        ensures
            r == (signal is Requested),
            final(self).shutdown_gone == (old(self).shutdown_gone || signal is Gone),
    {
        match signal {
            ShutdownSignal::Requested => true,
            ShutdownSignal::NotRequested => false,
            ShutdownSignal::Gone => {
                self.shutdown_gone = true;
                false
            },
        }
    }
}

/// The names of the three procedures that a persistency node serves lead to
/// three different ones.
pub proof fn lemma_procedures_differ()
    ensures
        route_of(RpcCall::FETCH_SESSION@) == PersistencyRoute::FetchSession,
        route_of(RpcCall::FETCH_WORKSPACE@) == PersistencyRoute::FetchWorkspace,
        route_of(RpcCall::DELETE_SESSION@) == PersistencyRoute::DeleteSession,
{
    reveal_strlit("fetch-session");
    reveal_strlit("fetch-workspace");
    reveal_strlit("delete-session");
    assert("fetch-session"@.len() == 13);
    assert("fetch-workspace"@.len() == 15);
    assert("delete-session"@.len() == 14);
}

/// Each procedure goes by one name, and every other name is unmanaged.
pub proof fn lemma_one_name_per_route(name: Seq<char>)
    ensures
        route_of(name) == PersistencyRoute::FetchSession <==> name == "fetch-session"@,
        route_of(name) == PersistencyRoute::FetchWorkspace <==> name == "fetch-workspace"@,
        route_of(name) == PersistencyRoute::DeleteSession <==> name == "delete-session"@,
{
    lemma_procedures_differ();
}

/// Of the clocks of one client the last one counts.
pub proof fn lemma_last_clock_counts(list: Seq<(u64, u32)>, i: int)
    requires
        0 <= i < list.len(),
        forall|j: int| i < j < list.len() ==> (#[trigger] list[j]).0 != list[i].0,
    ensures
        clocks(list).contains_key(list[i].0),
        clocks(list)[list[i].0] == list[i].1,
    decreases list.len(),
{
    if i < list.len() - 1 {
        let front = list.drop_last();
        assert forall|j: int| 0 <= j < front.len() implies front[j] == list[j] by {}
        let last = list[list.len() - 1];
        lemma_last_clock_counts(front, i);
    }
}

/// A client that is not in the list has no clock.
pub proof fn lemma_only_listed_clients_have_clocks(list: Seq<(u64, u32)>, client: u64)
    requires
        forall|j: int| 0 <= j < list.len() ==> (#[trigger] list[j]).0 != client,
    ensures
        !clocks(list).contains_key(client),
    decreases list.len(),
{
    if list.len() > 0 {
        let front = list.drop_last();
        assert forall|j: int| 0 <= j < front.len() implies front[j] == list[j] by {}
        let last = list[list.len() - 1];
        lemma_only_listed_clients_have_clocks(front, client);
    }
}

/// A fetch asks for what the document has beyond the state vector, and only
/// where that can be read; else the answer is an error.
pub proof fn lemma_fetch_starts_with_the_state_vector(
    step: PersistencyStep,
    document: Document,
    state_vector: Seq<u8>,
)
    requires
        starts_fetch(step, document, state_vector),
    ensures
        narrow(state_vector) && state_vector_of(state_vector) is Some ==> {
            &&& step is Diff
            &&& step->Diff_document == document
            &&& Some(clocks(step->clocks@)) == state_vector_of(state_vector)
        },
        !narrow(state_vector) || state_vector_of(state_vector) is None
            ==> (step matches PersistencyStep::Reply(reply) && reply is Error),
        step is Diff <==> narrow(state_vector) && state_vector_of(state_vector) is Some,
{
}

/// A document that is not known is named in the answer, as what it is.
pub proof fn lemma_unknown_documents_are_named(
    session: SessionId,
    workspace: WorkspaceId,
    id: Seq<char>,
    name: Seq<char>,
)
    ensures
        unknown_text(Document::Session(session), id) == "session "@ + id
            + " inconnue de ce nœud de persistance"@,
        unknown_text(Document::Workspace(workspace), id) == "workspace "@ + id
            + " inconnu de ce nœud de persistance"@,
        unmanaged_text(name) == "unmanaged remote procedure "@ + name,
{
}

} // verus!
