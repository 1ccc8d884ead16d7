//! The requests and notifications of an editor session, and what the server
//! makes of each. Reading and writing messages is left to the caller: this
//! module decides on plain values.

use vstd::prelude::*;
use vstd::string::*;
use crate::completion::CompletionItem;
use crate::completion::completions;
use crate::completion::items_view;
use crate::document::DocumentView;
use crate::document::next_revision;
use crate::document::Position;
use crate::hover::HoverInfo;
use crate::hover::info_view;
use crate::store::DocumentStore;
use crate::store::StoreError;
use crate::text::same_text;

verus! {

/// The error code of a request whose method the server does not know.
pub const METHOD_NOT_FOUND: i32 = -32601;

/// The number of `lsp_server::ErrorCode::MethodNotFound`. The contract
/// claims that the variant is declared with the number -32601, which is not
/// proved here.
#[verifier::external_body]
fn method_not_found_code() -> (code: i32)
    ensures
        code == METHOD_NOT_FOUND,
{
    lsp_server::ErrorCode::MethodNotFound as i32
}

/// The requests that the server answers.
#[derive(Clone, Copy, Debug, PartialEq, Eq, Structural)]
pub enum RequestKind {
    Initialize,
    Completion,
    Hover,
    Unknown,
}

/// The notifications that the server acts on.
#[derive(Clone, Copy, Debug, PartialEq, Eq, Structural)]
pub enum NotificationKind {
    DidOpen,
    DidChange,
    DidClose,
    Other,
}

/// The request that a method name stands for.
pub open spec fn request_kind(method: Seq<char>) -> RequestKind {
    if method == "initialize"@ {
        RequestKind::Initialize
    } else if method == "textDocument/completion"@ {
        RequestKind::Completion
    } else if method == "textDocument/hover"@ {
        RequestKind::Hover
    } else {
        RequestKind::Unknown
    }
}

/// The notification that a method name stands for.
pub open spec fn notification_kind(method: Seq<char>) -> NotificationKind {
    if method == "textDocument/didOpen"@ {
        NotificationKind::DidOpen
    } else if method == "textDocument/didChange"@ {
        NotificationKind::DidChange
    } else if method == "textDocument/didClose"@ {
        NotificationKind::DidClose
    } else {
        NotificationKind::Other
    }
}

/// Tells which request a method name stands for.
pub fn route_request(method: &str) -> (kind: RequestKind)
    ensures
        kind == request_kind(method@),
{
    if same_text(method, "initialize") {
        RequestKind::Initialize
    } else if same_text(method, "textDocument/completion") {
        RequestKind::Completion
    } else if same_text(method, "textDocument/hover") {
        RequestKind::Hover
    } else {
        RequestKind::Unknown
    }
}

/// Tells which notification a method name stands for.
pub fn route_notification(method: &str) -> (kind: NotificationKind)
    ensures
        kind == notification_kind(method@),
{
    if same_text(method, "textDocument/didOpen") {
        NotificationKind::DidOpen
    } else if same_text(method, "textDocument/didChange") {
        NotificationKind::DidChange
    } else if same_text(method, "textDocument/didClose") {
        NotificationKind::DidClose
    } else {
        NotificationKind::Other
    }
}

/// What the server tells an editor that it can do.
#[derive(Debug)]
pub struct ServerCapabilities {
    /// Documents are synchronised by sending their full text on every change.
    pub full_text_sync: bool,
    pub hover_provider: bool,
    pub completion_provider: bool,
    /// The characters that make the editor ask for completions.
    pub trigger_characters: Vec<char>,
}

/// The capabilities of this server: full-text synchronisation, hover, and
/// completion triggered by `.` and `:`.
pub fn initialize_capabilities() -> (capabilities: ServerCapabilities)
    ensures
        capabilities.full_text_sync,
        capabilities.hover_provider,
        capabilities.completion_provider,
        capabilities.trigger_characters@ == seq!['.', ':'],
{
    let mut trigger_characters: Vec<char> = Vec::new();
    trigger_characters.push('.');
    trigger_characters.push(':');
    assert(trigger_characters@ =~= seq!['.', ':']);
    ServerCapabilities { full_text_sync: true, hover_provider: true, completion_provider: true, trigger_characters }
}

/// A request, with what it asks about.
#[derive(Debug)]
pub enum Request {
    Initialize,
    Completion { uri: String, position: Position },
    Hover { uri: String, position: Position },
    Unknown { method: String },
}

/// Why a request was not answered.
#[derive(Debug)]
pub struct Failure {
    pub code: i32,
    pub message: String,
}

/// The answer to a request.
#[derive(Debug)]
pub enum Reply {
    Capabilities(ServerCapabilities),
    Completions(Vec<CompletionItem>),
    Hover(Option<HoverInfo>),
    /// The request names a document that is not open.
    DocumentNotFound,
    /// The server does not know the method of the request.
    Failure(Failure),
}

/// The failure to report for a method that the server does not know.
pub fn method_not_found(method: &str) -> (failure: Failure)
    ensures
        failure.code == METHOD_NOT_FOUND,
        failure.message@ == "Method not found: "@ + method@,
{
    let mut message = String::from_str("Method not found: ");
    message.append(method);
    Failure { code: method_not_found_code(), message }
}

/// `reply` is the answer to `request` for the open documents `documents`.
pub open spec fn answers(documents: Map<Seq<char>, DocumentView>, request: Request, reply: Reply) -> bool {
    match request {
        Request::Initialize => match reply {
            Reply::Capabilities(capabilities) => {
                &&& capabilities.full_text_sync
                &&& capabilities.hover_provider
                &&& capabilities.completion_provider
                &&& capabilities.trigger_characters@ == seq!['.', ':']
            },
            _ => false,
        },
        Request::Completion { uri, position } => if documents.contains_key(uri@) {
            match reply {
                Reply::Completions(items) => items_view(items@) == completions(
                    documents[uri@].listing,
                    documents[uri@].context(position),
                ),
                _ => false,
            }
        } else {
            reply is DocumentNotFound
        },
        Request::Hover { uri, position } => if documents.contains_key(uri@) {
            match reply {
                Reply::Hover(info) => info_view(info) == documents[uri@].hover(position),
                _ => false,
            }
        } else {
            reply is DocumentNotFound
        },
        Request::Unknown { method } => match reply {
            Reply::Failure(failure) => failure.code == METHOD_NOT_FOUND && failure.message@
                == "Method not found: "@ + method@,
            _ => false,
        },
    }
}

/// Answers a request from the open documents.
///
/// A request for completions or hover on a document that is not open is
/// answered with `DocumentNotFound`, a request of an unknown method with a
/// failure that names the method.
pub fn handle_request(store: &DocumentStore, request: &Request) -> (reply: Reply)
    requires
        store.wf(),
    ensures
        answers(store@, *request, reply),
{
    match request {
        Request::Initialize => Reply::Capabilities(initialize_capabilities()),
        Request::Completion { uri, position } => match store.query_completion(uri.as_str(), *position) {
            Ok(items) => Reply::Completions(items),
            Err(_) => Reply::DocumentNotFound,
        },
        Request::Hover { uri, position } => match store.query_hover(uri.as_str(), *position) {
            Ok(info) => Reply::Hover(info),
            Err(_) => Reply::DocumentNotFound,
        },
        Request::Unknown { method } => Reply::Failure(method_not_found(method.as_str())),
    }
}

/// A notification, with what it tells.
#[derive(Debug)]
pub enum Notification {
    DidOpen { uri: String, text: String },
    DidChange { uri: String, text: String },
    DidClose { uri: String },
    Other,
}

/// `after` is what `notification` makes of the open documents `before`, and
/// `outcome` what the server reports of it.
pub open spec fn follows(
    before: Map<Seq<char>, DocumentView>,
    notification: Notification,
    after: Map<Seq<char>, DocumentView>,
    outcome: Result<(), StoreError>,
) -> bool {
    match notification {
        Notification::DidOpen { uri, text } => {
            &&& outcome is Ok
            &&& after.contains_key(uri@)
            &&& after[uri@].is_snapshot_of(uri@, text@, 0)
            &&& after == before.insert(uri@, after[uri@])
        },
        Notification::DidChange { uri, text } => if before.contains_key(uri@) {
            &&& outcome is Ok
            &&& after.contains_key(uri@)
            &&& after[uri@].is_snapshot_of(uri@, text@, next_revision(before[uri@].revision))
            &&& after == before.insert(uri@, after[uri@])
        } else {
            outcome == Err::<(), StoreError>(StoreError::DocumentNotFound) && after == before
        },
        Notification::DidClose { uri } => if before.contains_key(uri@) {
            outcome is Ok && after == before.remove(uri@)
        } else {
            outcome == Err::<(), StoreError>(StoreError::DocumentNotFound) && after == before
        },
        Notification::Other => outcome is Ok && after == before,
    }
}

/// Acts on a notification: opens, replaces or closes a document. A change
/// or a close of a document that is not open fails and leaves the store as
/// it was; a notification of another kind is passed over.
pub fn handle_notification(store: &mut DocumentStore, notification: &Notification) -> (outcome: Result<
    (),
    StoreError,
>)
    requires
        old(store).wf(),
    ensures
        final(store).wf(),
        follows(old(store)@, *notification, final(store)@, outcome),
{
    match notification {
        Notification::DidOpen { uri, text } => {
            store.open(uri.as_str(), text.as_str());
            Ok(())
        },
        Notification::DidChange { uri, text } => match store.change(uri.as_str(), text.as_str()) {
            Ok(_) => Ok(()),
            Err(e) => Err(e),
        },
        Notification::DidClose { uri } => store.close(uri.as_str()),
        Notification::Other => Ok(()),
    }
}

} // verus!
