//! The other things the hub can be asked for.

use vstd::prelude::*;
use vstd::utf8::encode_utf8;

use crate::auth::{read_text_or, text_at_or};
use crate::chance::random_number;
use crate::facts::lemma_first_worker;
use crate::hash::{sha256, sha256_hex};
use crate::http::{lossy, lossy_text, model_header, model_header_of};
use crate::hub::{first_worker_of, FirstWorker, FirstWorkerView, Hub, HubView};
use crate::json::{
    double_at, is_json, json_node, json_valid, json_views, lemma_texts_at, lemma_with, opt_texts,
    read_double, read_texts, read_whole, text_at, texts_at, whole_at, Json, JsonNodeView, JsonView,
};
use crate::message::{
    opt_text, InferenceRequest, InferenceRequestView, InferenceResponse, InferenceResponseView,
    WorkerInfo, WorkerView,
};
use crate::narrow::{narrow, narrowed};
use crate::pipeline::{worker_score, worker_views};
use crate::reply::{
    error_of, error_reply, invalid_body, invalid_body_reply, server_error, server_error_of, Reply,
    ReplyView,
};
use crate::text::{
    decimal, digits_value, hex, is_digit, join, join_all, joined, lemma_decimal_injective,
    lemma_decimal_value, lemma_join_push, texts, to_decimal,
};

verus! {

// ---------------------------------------------------------------------------
// Health
// ---------------------------------------------------------------------------

/// A worker in the report on health. Its layers are written as the first one
/// and the one behind the last.
pub open spec fn worker_health(w: WorkerView) -> JsonView {
    JsonView::object().with_text("id"@, w.id).with_text(
        "layers"@,
        decimal(w.layer_offset as nat) + "-"@ + decimal((w.layer_offset + w.num_layers) as nat),
    ).with("gpu"@, JsonView::Bool(w.has_gpu)).with("vram_gb"@, JsonView::Single(w.vram_gb)).with(
        "load"@,
        JsonView::Single(w.load),
    )
}

/// The report on health.
pub open spec fn health_of(h: HubView) -> ReplyView {
    ReplyView {
        status: 200,
        body: JsonView::object().with_text("status"@, "ok"@).with_text(
            "model"@,
            h.model.name,
        ).with_text("model_url"@, h.model_url).with(
            "num_layers"@,
            JsonView::Number(h.model.num_layers as u64),
        ).with("workers"@, JsonView::List(h.workers.map_values(|w: WorkerView| worker_health(w)))),
    }
}

fn worker_report(w: &WorkerInfo) -> (r: Json)
    requires
        w@.layer_offset + w@.num_layers <= usize::MAX,
    ensures
        r@ == worker_health(w@),
{
    let from = to_decimal(w.layer_offset as u64);
    let to = to_decimal((w.layer_offset + w.num_layers) as u64);
    let mut layers = joined(from.as_str(), "-");
    layers.append(to.as_str());
    Json::object().with_text("id", w.id.as_str()).with_text("layers", layers.as_str()).with(
        "gpu",
        Json::Bool(w.has_gpu),
    ).with("vram_gb", Json::Single(w.vram_gb)).with("load", Json::Single(w.load))
}

/// The report on health.
pub fn health(hub: &Hub) -> (r: Reply)
    requires
        hub.wf(),
    ensures
        r@ == health_of(hub@),
{
    proof {
        hub.lemma_inv();
    }
    let workers = hub.workers();
    let ghost views = hub@.workers;
    let mut list: Vec<Json> = Vec::new();
    for i in 0..workers.len()
        invariant
            hub@.inv(),
            views == hub@.workers,
            views == worker_views(workers@),
            json_views(list@) == views.take(i as int).map_values(|w: WorkerView| worker_health(w)),
    {
        let ghost before = json_views(list@);
        assert(views[i as int] == workers@[i as int]@);
        let report = worker_report(&workers[i]);
        list.push(report);
        assert(json_views(list@) =~= before.push(report@));
        assert(views.take(i + 1) =~= views.take(i as int).push(views[i as int]));
        assert(json_views(list@) =~= views.take(i + 1).map_values(
            |w: WorkerView| worker_health(w),
        ));
    }
    assert(views.take(workers@.len() as int) =~= views);
    let model = hub.model();
    Reply {
        status: 200,
        body: Json::object().with_text("status", "ok").with_text(
            "model",
            model.name.as_str(),
        ).with_text("model_url", hub.model_url()).with(
            "num_layers",
            Json::Number(model.num_layers as u64),
        ).with("workers", Json::list(list)),
    }
}

// ---------------------------------------------------------------------------
// Models
// ---------------------------------------------------------------------------

/// When the model was made, as far as clients are told.
pub const MODEL_CREATED: u64 = 1234567890;

/// The list of models: the one that is served, under its alias.
pub open spec fn models_of(h: HubView) -> ReplyView {
    ReplyView {
        status: 200,
        body: JsonView::object().with_text("object"@, "list"@).with(
            "data"@,
            JsonView::List(
                seq![
                    JsonView::object().with_text("id"@, h.model_alias).with_text(
                        "object"@,
                        "model"@,
                    ).with("created"@, JsonView::Number(MODEL_CREATED)).with_text(
                        "owned_by"@,
                        "akai-net"@,
                    ),
                ],
            ),
        ),
    }
}

/// A list of one tree.
fn list_of_one(item: Json) -> (r: Json)
    ensures
        r@ == JsonView::List(seq![item@]),
{
    let mut items: Vec<Json> = Vec::new();
    items.push(item);
    assert(json_views(items@) =~= seq![item@]);
    Json::list(items)
}

/// The list of models.
pub fn models(hub: &Hub) -> (r: Reply)
    ensures
        r@ == models_of(hub@),
{
    let entry = Json::object().with_text("id", hub.model_alias()).with_text(
        "object",
        "model",
    ).with("created", Json::Number(MODEL_CREATED)).with_text("owned_by", "akai-net");
    Reply {
        status: 200,
        body: Json::object().with_text("object", "list").with("data", list_of_one(entry)),
    }
}

/// The fixed reply to a prompt.
pub open spec fn completions_of() -> ReplyView {
    ReplyView {
        status: 200,
        body: JsonView::object().with(
            "choices"@,
            JsonView::List(
                seq![
                    JsonView::object().with_text(
                        "text"@,
                        "Pipeline hub ready. Awaiting worker connections."@,
                    ),
                ],
            ),
        ),
    }
}

/// The fixed reply to a prompt.
pub fn completions() -> (r: Reply)
    ensures
        r@ == completions_of(),
{
    let choice = Json::object().with_text(
        "text",
        "Pipeline hub ready. Awaiting worker connections.",
    );
    Reply { status: 200, body: Json::object().with("choices", list_of_one(choice)) }
}

/// The reply to what the hub does not know.
pub fn not_found() -> (r: Reply)
    ensures
        r@ == (ReplyView { status: 404, body: JsonView::object() }),
{
    Reply { status: 404, body: Json::object() }
}

// ---------------------------------------------------------------------------
// A worker says that it exists
// ---------------------------------------------------------------------------

/// The reply to a worker that says that it exists.
pub open spec fn worker_noted(valid: bool, id: Seq<char>) -> ReplyView {
    if valid {
        ReplyView {
            status: 200,
            body: JsonView::object().with_text("status"@, "registered"@).with_text(
                "worker_id"@,
                id,
            ).with_text("message"@, "Worker registered successfully"@),
        }
    } else {
        invalid_body()
    }
}

/// The reply to a worker that says that it exists, given whether its body is
/// JSON and which identifier stands in it.
pub fn note_worker(valid: bool, id: &str) -> (r: Reply)
    ensures
        r@ == worker_noted(valid, id@),
{
    if valid {
        Reply {
            status: 200,
            body: Json::object().with_text("status", "registered").with_text(
                "worker_id",
                id,
            ).with_text("message", "Worker registered successfully"),
        }
    } else {
        invalid_body_reply()
    }
}

/// The reply to a worker that says that it exists. Nothing is remembered of
/// it: that takes a registration over the wire.
pub fn worker_register(body: &str) -> (r: Reply)
    ensures
        ({
            let bytes = encode_utf8(body@);
            r@ == worker_noted(json_valid(bytes), text_at_or(bytes, "/id"@, ""@))
        }),
{
    let bytes = body.as_bytes();
    let id = read_text_or(bytes, "/id", "");
    note_worker(is_json(bytes), id.as_str())
}

// ---------------------------------------------------------------------------
// The certificates of the tunnel
// ---------------------------------------------------------------------------

/// Where the tunnel is reached.
pub const TUNNEL_HOST: &'static str = "tunnel.akinus21.com";

/// The port at which the tunnel is reached.
pub const TUNNEL_PORT: u64 = 443;

/// Where a certificate lies.
pub fn cert_path(dir: &str, file: &str) -> (r: String)
    ensures
        r@ == dir@ + "/"@ + file@,
{
    let mut path = joined(dir, "/");
    path.append(file);
    path
}

/// The certificates of the tunnel, from the bytes of their files; a file that
/// cannot be read counts as empty.
pub open spec fn certs_of(ca: Seq<u8>, cert: Seq<u8>, key: Seq<u8>) -> ReplyView {
    if ca.len() == 0 {
        error_of(500, "tunnel certs not available"@)
    } else {
        ReplyView {
            status: 200,
            body: JsonView::object().with_text("ca_cert"@, lossy(ca)).with_text(
                "worker_cert"@,
                lossy(cert),
            ).with_text("worker_key"@, lossy(key)).with_text("tunnel_host"@, TUNNEL_HOST@).with(
                "tunnel_port"@,
                JsonView::Number(TUNNEL_PORT),
            ),
        }
    }
}

/// The certificates of the tunnel, from the bytes of their files.
pub fn tunnel_certs(ca: &[u8], cert: &[u8], key: &[u8]) -> (r: Reply)
    ensures
        r@ == certs_of(ca@, cert@, key@),
{
    if ca.len() == 0 {
        return error_reply(500, "tunnel certs not available");
    }
    let ca_text = lossy_text(ca);
    let cert_text = lossy_text(cert);
    let key_text = lossy_text(key);
    Reply {
        status: 200,
        body: Json::object().with_text("ca_cert", ca_text.as_str()).with_text(
            "worker_cert",
            cert_text.as_str(),
        ).with_text("worker_key", key_text.as_str()).with_text("tunnel_host", TUNNEL_HOST).with(
            "tunnel_port",
            Json::Number(TUNNEL_PORT),
        ),
    }
}

// ---------------------------------------------------------------------------
// The model itself
// ---------------------------------------------------------------------------

/// How many seconds fetching a model may take.
pub const MODEL_TIMEOUT_SECS: u64 = 600;

/// Where the model is fetched from, or the reply where no model is set.
pub fn model_source(hub: &Hub) -> (r: Result<String, Reply>)
    ensures
        (match r {
            Ok(url) => Ok(url@),
            Err(reply) => Err(reply@),
        }) == (if hub@.model_url.len() == 0 {
            Err(error_of(404, "no model configured"@))
        } else {
            Ok(hub@.model_url)
        }),
{
    let url = hub.model_url();
    if url.is_empty() {
        Err(error_reply(404, "no model configured"))
    } else {
        Ok(url.to_string())
    }
}

/// The model was fetched: its fingerprint is kept, and what goes ahead of its
/// bytes is given.
pub fn model_fetched(hub: &mut Hub, data: &[u8]) -> (r: String)
    requires
        old(hub).wf(),
    ensures
        final(hub).wf(),
        final(hub)@ == (HubView { model_hash: hex(sha256(data@)), ..old(hub)@ }),
        r@ == model_header_of(data@.len(), hex(sha256(data@))),
{
    let hash = sha256_hex(data);
    let header = model_header(data.len(), hash.as_str());
    hub.set_model_hash(hash);
    header
}

/// Why a model was not fetched.
pub enum FetchError {
    /// There was no reply.
    NoReply(String),
    /// The reply's status is not one of success.
    Status(String),
    /// The reply broke off.
    Broken(String),
}

/// What a [`FetchError`] holds.
pub enum FetchErrorView {
    NoReply(Seq<char>),
    Status(Seq<char>),
    Broken(Seq<char>),
}

impl View for FetchError {
    type V = FetchErrorView;

    open spec fn view(&self) -> FetchErrorView {
        match self {
            FetchError::NoReply(s) => FetchErrorView::NoReply(s@),
            FetchError::Status(s) => FetchErrorView::Status(s@),
            FetchError::Broken(s) => FetchErrorView::Broken(s@),
        }
    }
}

/// The reply where a model was not fetched.
pub open spec fn unfetched(e: FetchErrorView) -> ReplyView {
    error_of(
        502,
        match e {
            FetchErrorView::NoReply(s) => "model fetch failed: "@ + s,
            FetchErrorView::Status(s) => "upstream status: "@ + s,
            FetchErrorView::Broken(s) => "model download failed: "@ + s,
        },
    )
}

/// The reply where a model was not fetched.
pub fn fetch_failed_reply(e: &FetchError) -> (r: Reply)
    ensures
        r@ == unfetched(e@),
{
    let message = match e {
        FetchError::NoReply(s) => joined("model fetch failed: ", s.as_str()),
        FetchError::Status(s) => joined("upstream status: ", s.as_str()),
        FetchError::Broken(s) => joined("model download failed: ", s.as_str()),
    };
    error_reply(502, message.as_str())
}

// ---------------------------------------------------------------------------
// Conversations
// ---------------------------------------------------------------------------

/// How many seconds an answer may take.
pub const CHAT_TIMEOUT_SECS: u64 = 120;

/// The temperature where none is given: 0.7 as a double-precision number.
pub const DEFAULT_TEMPERATURE: u64 = 0x3fe6666666666666;

/// How many tokens an answer may have where nothing is given.
pub const DEFAULT_MAX_TOKENS: u64 = 128;

/// What the hub reads of a conversation. The temperature is a double-precision
/// number, kept as its bit pattern.
pub struct ChatRequest {
    /// Whether the body is JSON.
    pub valid: bool,
    /// The model that is asked for.
    pub model: String,
    /// The texts of the messages, each as far as it has one.
    pub contents: Vec<Option<String>>,
    /// How many tokens the answer may have.
    pub max_tokens: u64,
    /// How daring the answer may be.
    pub temperature: u64,
}

/// What a [`ChatRequest`] holds.
#[verifier::ext_equal]
pub struct ChatRequestView {
    pub valid: bool,
    pub model: Seq<char>,
    pub contents: Seq<Option<Seq<char>>>,
    pub max_tokens: u64,
    pub temperature: u64,
}

impl View for ChatRequest {
    type V = ChatRequestView;

    open spec fn view(&self) -> ChatRequestView {
        ChatRequestView {
            valid: self.valid,
            model: self.model@,
            contents: opt_texts(self.contents@),
            max_tokens: self.max_tokens,
            temperature: self.temperature,
        }
    }
}

/// What the hub reads of a conversation.
pub open spec fn chat_request(body: Seq<u8>) -> ChatRequestView {
    ChatRequestView {
        valid: json_valid(body),
        model: text_at_or(body, "/model"@, "unknown"@),
        contents: match texts_at(body, "/messages"@, "content"@) {
            Some(list) => list,
            None => seq![],
        },
        max_tokens: match whole_at(body, "/max_tokens"@) {
            Some(n) => n,
            None => DEFAULT_MAX_TOKENS,
        },
        temperature: match double_at(body, "/temperature"@) {
            Some(bits) => bits,
            None => DEFAULT_TEMPERATURE,
        },
    }
}

/// What the hub reads of a conversation.
pub fn read_chat_request(body: &str) -> (r: ChatRequest)
    ensures
        r@ == chat_request(encode_utf8(body@)),
{
    let bytes = body.as_bytes();
    let contents = match read_texts(bytes, "/messages", "content") {
        Some(list) => list,
        None => Vec::new(),
    };
    let r = ChatRequest {
        valid: is_json(bytes),
        model: read_text_or(bytes, "/model", "unknown"),
        contents,
        max_tokens: match read_whole(bytes, "/max_tokens") {
            Some(n) => n,
            None => DEFAULT_MAX_TOKENS,
        },
        temperature: match read_double(bytes, "/temperature") {
            Some(bits) => bits,
            None => DEFAULT_TEMPERATURE,
        },
    };
    assert(r@.contents =~= chat_request(encode_utf8(body@)).contents);
    r
}

/// The texts that are there.
pub open spec fn present(contents: Seq<Option<Seq<char>>>) -> Seq<Seq<char>>
    decreases contents.len(),
{
    if contents.len() == 0 {
        seq![]
    } else {
        let front = present(contents.drop_last());
        match contents.last() {
            Some(text) => front.push(text),
            None => front,
        }
    }
}

/// The prompt for a conversation: the texts of its messages, a line each.
pub open spec fn prompt_of(contents: Seq<Option<Seq<char>>>) -> Seq<char> {
    join(present(contents), "\n"@)
}

/// The prompt for a conversation.
pub fn prompt(contents: &Vec<Option<String>>) -> (r: String)
    ensures
        r@ == prompt_of(opt_texts(contents@)),
{
    let ghost views = opt_texts(contents@);
    let mut list: Vec<String> = Vec::new();
    assert(views.take(0) =~= seq![]);
    assert(texts(list@) =~= present(views.take(0)));
    for i in 0..contents.len()
        invariant
            views == opt_texts(contents@),
            texts(list@) == present(views.take(i as int)),
    {
        let ghost before = texts(list@);
        assert(views.take(i + 1).drop_last() =~= views.take(i as int));
        assert(views[i as int] == opt_text(contents@[i as int]));
        if let Some(text) = &contents[i] {
            list.push(text.clone());
            assert(texts(list@) =~= before.push(text@));
        }
    }
    assert(views.take(contents@.len() as int) =~= views);
    join_all(&list, "\n")
}

/// The name of a prompt with a number.
pub open spec fn request_id(number: u64) -> Seq<char> {
    "inf-"@ + decimal(number as nat)
}

/// What the first worker is sent for a conversation: the prompt, and the
/// temperature in single precision.
pub open spec fn inference_for(request: ChatRequestView, number: u64) -> InferenceRequestView {
    InferenceRequestView {
        id: request_id(number),
        tokens: seq![],
        is_first: true,
        is_last: true,
        max_new_tokens: request.max_tokens as usize,
        temperature: narrow(request.temperature),
        prompt: Some(prompt_of(request.contents)),
    }
}

/// How a conversation begins.
pub enum ChatStart {
    /// With a reply that ends it.
    End(Reply),
    /// With a prompt to a worker.
    Send {
        /// The worker.
        worker_id: String,
        /// Its connection.
        conn: u64,
        /// The prompt.
        request: InferenceRequest,
    },
}

/// What a [`ChatStart`] holds.
pub enum ChatStartView {
    End(ReplyView),
    Send { worker_id: Seq<char>, conn: u64, request: InferenceRequestView },
}

impl View for ChatStart {
    type V = ChatStartView;

    open spec fn view(&self) -> ChatStartView {
        match self {
            ChatStart::End(reply) => ChatStartView::End(reply@),
            ChatStart::Send { worker_id, conn, request } => ChatStartView::Send {
                worker_id: worker_id@,
                conn: *conn,
                request: request@,
            },
        }
    }
}

/// How a conversation begins, with a number for the prompt.
pub open spec fn chat_start(h: HubView, request: ChatRequestView, number: u64) -> ChatStartView {
    if !request.valid {
        ChatStartView::End(invalid_body())
    } else {
        match first_worker_of(h) {
            FirstWorkerView::Missing => ChatStartView::End(
                server_error_of(503, "No workers available"@),
            ),
            FirstWorkerView::NotConnected(_) => ChatStartView::End(
                server_error_of(503, "Worker not connected"@),
            ),
            FirstWorkerView::Connected(worker_id, conn) => ChatStartView::Send {
                worker_id,
                conn,
                request: inference_for(request, number),
            },
        }
    }
}

/// The memory after a conversation has begun: someone waits for the answer to
/// the prompt, if one goes out.
pub open spec fn chat_begun(
    h: HubView,
    request: ChatRequestView,
    number: u64,
    waiter: u64,
) -> HubView {
    if chat_start(h, request, number) is Send {
        HubView { pending: h.pending.insert(request_id(number), waiter), ..h }
    } else {
        h
    }
}

/// Begins a conversation, with a number for the prompt.
pub fn begin_chat(hub: &mut Hub, request: &ChatRequest, number: u64, waiter: u64) -> (r:
    ChatStart)
    requires
        old(hub).wf(),
    ensures
        final(hub).wf(),
        r@ == chat_start(old(hub)@, request@, number),
        final(hub)@ == chat_begun(old(hub)@, request@, number, waiter),
{
    if !request.valid {
        return ChatStart::End(invalid_body_reply());
    }
    match hub.first_worker() {
        FirstWorker::Missing => ChatStart::End(server_error(503, "No workers available")),
        FirstWorker::NotConnected(_) => ChatStart::End(server_error(503, "Worker not connected")),
        FirstWorker::Connected(worker_id, conn) => {
            let digits = to_decimal(number);
            let id = joined("inf-", digits.as_str());
            hub.await_answer(id.as_str(), waiter);
            let inference = InferenceRequest {
                id,
                tokens: Vec::new(),
                is_first: true,
                is_last: true,
                max_new_tokens: request.max_tokens as usize,
                temperature: narrowed(request.temperature),
                prompt: Some(prompt(&request.contents)),
            };
            assert(inference@ =~= inference_for(request@, number));
            ChatStart::Send { worker_id, conn, request: inference }
        },
    }
}

/// How a conversation ends.
pub enum ChatEnd {
    /// The worker answered.
    Answered(InferenceResponse),
    /// The worker went away.
    Dropped,
    /// The worker took too long.
    TimedOut,
    /// The prompt could not be sent.
    Unsent,
    /// The prompt could not be put into a message.
    Unencoded(String),
}

/// The answer to a conversation, with a number for its name and the time in
/// seconds.
pub open spec fn chat_answer(
    model: Seq<char>,
    response: InferenceResponseView,
    number: u64,
    created: u64,
) -> ReplyView {
    let content = match response.text {
        Some(text) => text,
        None => ""@,
    };
    let message = JsonView::object().with_text("role"@, "assistant"@).with_text(
        "content"@,
        content,
    );
    let choice = JsonView::object().with("index"@, JsonView::Number(0)).with(
        "message"@,
        message,
    ).with_text("finish_reason"@, "stop"@);
    let usage = JsonView::object().with(
        "prompt_tokens"@,
        JsonView::Number(response.prompt_tokens as u64),
    ).with("completion_tokens"@, JsonView::Number(response.completion_tokens as u64)).with(
        "total_tokens"@,
        JsonView::Number((response.prompt_tokens + response.completion_tokens) as u64),
    );
    ReplyView {
        status: 200,
        body: JsonView::object().with_text("id"@, "chatcmpl-"@ + decimal(number as nat)).with_text(
            "object"@,
            "chat.completion"@,
        ).with("created"@, JsonView::Number(created)).with_text("model"@, model).with(
            "choices"@,
            JsonView::List(seq![choice]),
        ).with("usage"@, usage),
    }
}

/// Whether the tokens of an answer can be counted.
pub open spec fn countable(end: ChatEnd) -> bool {
    end matches ChatEnd::Answered(response) ==> response@.prompt_tokens
        + response@.completion_tokens <= usize::MAX
}

/// The reply to a conversation.
pub open spec fn chat_reply(model: Seq<char>, end: ChatEnd, number: u64, created: u64) -> ReplyView {
    match end {
        ChatEnd::Answered(response) => chat_answer(model, response@, number, created),
        ChatEnd::Dropped => server_error_of(502, "Worker disconnected"@),
        ChatEnd::TimedOut => server_error_of(504, "Request timed out"@),
        ChatEnd::Unsent => server_error_of(500, "Failed to send request to worker"@),
        ChatEnd::Unencoded(e) => server_error_of(500, "Internal error: "@ + e@),
    }
}

/// The memory after a conversation: nobody waits any more where no answer can
/// come.
pub open spec fn chat_over(h: HubView, id: Seq<char>, end: ChatEnd) -> HubView {
    match end {
        ChatEnd::Answered(_) | ChatEnd::Dropped => h,
        _ => HubView { pending: h.pending.remove(id), ..h },
    }
}

/// Answers a conversation, with a number for the answer's name.
fn answer_reply(model: &str, response: &InferenceResponse, number: u64, created: u64) -> (r: Reply)
    requires
        response@.prompt_tokens + response@.completion_tokens <= usize::MAX,
    ensures
        r@ == chat_answer(model@, response@, number, created),
{
    let content = match &response.text {
        Some(text) => text.clone(),
        None => "".to_string(),
    };
    let message = Json::object().with_text("role", "assistant").with_text(
        "content",
        content.as_str(),
    );
    let choice = Json::object().with("index", Json::Number(0)).with("message", message).with_text(
        "finish_reason",
        "stop",
    );
    let total: usize = response.prompt_tokens + response.completion_tokens;
    let usage = Json::object().with(
        "prompt_tokens",
        Json::Number(response.prompt_tokens as u64),
    ).with("completion_tokens", Json::Number(response.completion_tokens as u64)).with(
        "total_tokens",
        Json::Number(total as u64),
    );
    let digits = to_decimal(number);
    let id = joined("chatcmpl-", digits.as_str());
    Reply {
        status: 200,
        body: Json::object().with_text("id", id.as_str()).with_text(
            "object",
            "chat.completion",
        ).with("created", Json::Number(created)).with_text("model", model).with(
            "choices",
            list_of_one(choice),
        ).with("usage", usage),
    }
}

/// Ends a conversation, with a number for the answer's name.
pub fn end_chat_with(
    hub: &mut Hub,
    id: &str,
    model: &str,
    end: &ChatEnd,
    number: u64,
    created: u64,
) -> (r: Reply)
    requires
        old(hub).wf(),
        countable(*end),
    ensures
        final(hub).wf(),
        r@ == chat_reply(model@, *end, number, created),
        final(hub)@ == chat_over(old(hub)@, id@, *end),
{
    match end {
        ChatEnd::Answered(response) => answer_reply(model, response, number, created),
        ChatEnd::Dropped => server_error(502, "Worker disconnected"),
        ChatEnd::TimedOut => {
            let _ = hub.take_waiter(id);
            server_error(504, "Request timed out")
        },
        ChatEnd::Unsent => {
            let _ = hub.take_waiter(id);
            server_error(500, "Failed to send request to worker")
        },
        ChatEnd::Unencoded(e) => {
            let _ = hub.take_waiter(id);
            let message = joined("Internal error: ", e.as_str());
            server_error(500, message.as_str())
        },
    }
}

/// Ends a conversation.
pub fn end_chat(hub: &mut Hub, id: &str, model: &str, end: &ChatEnd, created: u64) -> (r: Reply)
    requires
        old(hub).wf(),
        countable(*end),
    ensures
        final(hub).wf(),
        exists|number: u64| r@ == #[trigger] chat_reply(model@, *end, number, created),
        final(hub)@ == chat_over(old(hub)@, id@, *end),
{
    let number: u64 = random_number();
    end_chat_with(hub, id, model, end, number, created)
}

/// A prompt that goes out and then cannot be answered leaves the hub as it
/// was.
pub proof fn lemma_failed_chat(
    h: HubView,
    request: ChatRequestView,
    number: u64,
    waiter: u64,
    end: ChatEnd,
)
    requires
        chat_start(h, request, number) is Send,
        !h.pending.dom().contains(request_id(number)),
        end is TimedOut || end is Unsent || end is Unencoded,
    ensures
        chat_over(chat_begun(h, request, number, waiter), request_id(number), end) == h,
{
    let after = chat_over(chat_begun(h, request, number, waiter), request_id(number), end);
    assert(after.pending =~= h.pending);
    assert(after =~= h);
}

// ---------------------------------------------------------------------------
// What always holds of conversations
// ---------------------------------------------------------------------------

/// There are texts if and only if some message has one.
proof fn lemma_present(contents: Seq<Option<Seq<char>>>)
    ensures
        present(contents).len() == 0 <==> forall|i: int|
            0 <= i < contents.len() ==> (#[trigger] contents[i]) is None,
    decreases contents.len(),
{
    if contents.len() > 0 {
        let front = contents.drop_last();
        lemma_present(front);
        if present(contents).len() == 0 {
            assert forall|i: int| 0 <= i < contents.len() implies (
            #[trigger] contents[i]) is None by {
                if i < front.len() {
                    assert(front[i] == contents[i]);
                }
            }
        }
        if forall|i: int| 0 <= i < contents.len() ==> (#[trigger] contents[i]) is None {
            assert forall|i: int| 0 <= i < front.len() implies (#[trigger] front[i]) is None by {
                assert(contents[i] is None);
            }
            assert(contents[contents.len() - 1] is None);
        }
    }
}

/// The prompt of a conversation without messages is empty. One more message
/// with a text puts it on a line of its own behind the prompt so far, or makes
/// it the prompt where no message before has a text; one without a text changes
/// nothing. Neither changes anything else that the worker is sent, nor who it
/// is sent to.
pub proof fn lemma_prompt_grows(
    h: HubView,
    request: ChatRequestView,
    number: u64,
    text: Seq<char>,
)
    requires
        chat_start(h, request, number) is Send,
    ensures
        ({
            let more = ChatRequestView { contents: request.contents.push(Some(text)), ..request };
            let blank = ChatRequestView { contents: request.contents.push(None), ..request };
            let sent = chat_start(h, request, number);
            let grown = chat_start(h, more, number);
            &&& sent->request.prompt is Some
            &&& request.contents.len() == 0 ==> sent->request.prompt == Some(Seq::<char>::empty())
            &&& grown is Send
            &&& grown->worker_id == sent->worker_id
            &&& grown->conn == sent->conn
            &&& grown->request == (InferenceRequestView {
                prompt: Some(
                    if forall|i: int|
                        0 <= i < request.contents.len() ==> (
                        #[trigger] request.contents[i]) is None {
                        text
                    } else {
                        sent->request.prompt->0 + "\n"@ + text
                    },
                ),
                ..sent->request
            })
            &&& chat_start(h, blank, number) == sent
        }),
{
    let contents = request.contents;
    let more = contents.push(Some(text));
    let blank = contents.push(None);
    let none: Seq<Option<Seq<char>>> = seq![];
    lemma_present(contents);
    lemma_join_push(present(contents), "\n"@, text);
    assert(more.drop_last() =~= contents);
    assert(blank.drop_last() =~= contents);
    if contents.len() == 0 {
        assert(contents =~= none);
    }
}

/// What a worker is sent besides the prompt: the number's name, no tokens, the
/// bounds that were asked for, and that it is the first and the last to work
/// on it.
pub proof fn lemma_prompt_bounds(h: HubView, request: ChatRequestView, number: u64)
    ensures
        chat_start(h, request, number) matches ChatStartView::Send { request: sent, .. } ==> {
            &&& sent.id == "inf-"@ + decimal(number as nat)
            &&& sent.tokens.len() == 0
            &&& sent.is_first
            &&& sent.is_last
            &&& request.max_tokens <= usize::MAX ==> sent.max_new_tokens == request.max_tokens
            &&& sent.temperature == narrow(request.temperature)
        },
{
}

/// A prompt goes to a registered worker that no other scores below, over that
/// worker's own connection. It goes out wherever the request can be read and
/// that worker is connected; otherwise the reply says which of the two is
/// missing.
pub proof fn lemma_prompt_goes_to_lowest(h: HubView, request: ChatRequestView, number: u64)
    ensures
        chat_start(h, request, number) matches ChatStartView::Send { worker_id, conn, .. } ==> {
            &&& request.valid
            &&& h.pipeline().workers[0].worker_id == worker_id
            &&& h.streams.dom().contains(worker_id)
            &&& conn == h.streams[worker_id]
            &&& exists|w: WorkerView| #[trigger]
                h.workers.contains(w) && w.id == worker_id && forall|x: WorkerView| #[trigger]
                    h.workers.contains(x) ==> worker_score(w) <= worker_score(x)
        },
        chat_start(h, request, number) is Send <==> request.valid && h.workers.len() > 0
            && h.streams.dom().contains(h.pipeline().workers[0].worker_id),
        chat_start(h, request, number) matches ChatStartView::End(reply) ==> reply.status == (
        if request.valid {
            503u16
        } else {
            400u16
        }),
{
    lemma_first_worker(h);
}

/// Prompts with different numbers have different names.
pub proof fn lemma_request_ids_differ(a: u64, b: u64)
    requires
        request_id(a) == request_id(b),
    ensures
        a == b,
{
    let d = decimal(a as nat);
    let e = decimal(b as nat);
    let prefix = "inf-"@;
    assert((prefix + d).skip(prefix.len() as int) =~= d);
    assert((prefix + e).skip(prefix.len() as int) =~= e);
    lemma_decimal_injective(a as nat, b as nat);
}

/// A conversation that begins changes nothing but who waits: where a prompt
/// goes out the one that asked waits under its name, and everybody else waits
/// as before.
pub proof fn lemma_chat_begun_changes(
    h: HubView,
    request: ChatRequestView,
    number: u64,
    waiter: u64,
    other: u64,
)
    ensures
        ({
            let after = chat_begun(h, request, number, waiter);
            &&& after == (HubView { pending: after.pending, ..h })
            &&& chat_start(h, request, number) is Send ==> after.pending.dom().contains(
                request_id(number),
            ) && after.pending[request_id(number)] == waiter
            &&& chat_start(h, request, number) is End ==> after.pending == h.pending
            &&& other != number ==> after.pending.dom().contains(request_id(other))
                == h.pending.dom().contains(request_id(other))
            &&& other != number && h.pending.dom().contains(request_id(other))
                ==> after.pending[request_id(other)] == h.pending[request_id(other)]
        }),
{
    if request_id(other) == request_id(number) {
        lemma_request_ids_differ(other, number);
    }
}

/// The end of a conversation changes nothing but who waits: where no answer
/// can come any more nobody waits for it, and everybody else waits as before.
/// An answer, or a worker that went away, changes nothing.
pub proof fn lemma_chat_over_changes(h: HubView, id: Seq<char>, end: ChatEnd)
    ensures
        ({
            let after = chat_over(h, id, end);
            &&& after == (HubView { pending: after.pending, ..h })
            &&& end is Answered || end is Dropped ==> after.pending == h.pending
            &&& end is TimedOut || end is Unsent || end is Unencoded ==> after.pending
                == h.pending.remove(id)
        }),
{
}

/// The reply to an answered conversation has the worker's text, or an empty
/// one, as the assistant's only message, the model that was asked for, the
/// time, and the worker's counts of tokens with their sum.
pub proof fn lemma_answer_passed_on(
    model: Seq<char>,
    response: InferenceResponse,
    number: u64,
    created: u64,
)
    requires
        countable(ChatEnd::Answered(response)),
    ensures
        ({
            let reply = chat_reply(model, ChatEnd::Answered(response), number, created);
            let said = match response@.text {
                Some(text) => text,
                None => Seq::<char>::empty(),
            };
            &&& reply.status == 200
            &&& reply.body.has("model"@, JsonView::Text(model))
            &&& reply.body.has("created"@, JsonView::Number(created))
            &&& exists|choice: JsonView, message: JsonView| #[trigger]
                reply.body.has("choices"@, JsonView::List(seq![choice])) && #[trigger] choice.has(
                    "message"@,
                    message,
                ) && message.has("role"@, JsonView::Text("assistant"@)) && message.has(
                    "content"@,
                    JsonView::Text(said),
                )
            &&& exists|usage: JsonView, prompt: u64, completion: u64, total: u64|
                reply.body.has("usage"@, usage) && #[trigger] usage.has(
                    "prompt_tokens"@,
                    JsonView::Number(prompt),
                ) && #[trigger] usage.has("completion_tokens"@, JsonView::Number(completion))
                    && #[trigger] usage.has("total_tokens"@, JsonView::Number(total)) && prompt
                    == response@.prompt_tokens && completion == response@.completion_tokens && total
                    == prompt + completion
        }),
{
    reveal_strlit("id");
    assert("id"@.len() == 2);
    reveal_strlit("object");
    assert("object"@.len() == 6);
    reveal_strlit("created");
    assert("created"@.len() == 7);
    reveal_strlit("model");
    assert("model"@.len() == 5);
    reveal_strlit("choices");
    assert("choices"@.len() == 7);
    reveal_strlit("usage");
    assert("usage"@.len() == 5);
    reveal_strlit("index");
    assert("index"@.len() == 5);
    reveal_strlit("message");
    assert("message"@.len() == 7);
    reveal_strlit("finish_reason");
    assert("finish_reason"@.len() == 13);
    reveal_strlit("role");
    assert("role"@.len() == 4);
    reveal_strlit("content");
    assert("content"@.len() == 7);
    reveal_strlit("prompt_tokens");
    assert("prompt_tokens"@.len() == 13);
    reveal_strlit("completion_tokens");
    assert("completion_tokens"@.len() == 17);
    reveal_strlit("total_tokens");
    assert("total_tokens"@.len() == 12);
    reveal_strlit("");
    assert("created"@[1] != "choices"@[1]);
    assert("model"@[0] != "usage"@[0]);
    let r = response@;
    let said = match r.text {
        Some(text) => text,
        None => ""@,
    };
    assert(""@ =~= Seq::<char>::empty());
    let e = JsonView::object();
    let m1 = e.with_text("role"@, "assistant"@);
    let message = m1.with_text("content"@, said);
    lemma_with(e, "role"@, JsonView::Text("assistant"@));
    lemma_with(m1, "content"@, JsonView::Text(said));
    assert(m1.has("role"@, JsonView::Text("assistant"@)));
    assert(m1.lacks("content"@));
    assert(message.has("content"@, JsonView::Text(said)));
    let c1 = e.with("index"@, JsonView::Number(0));
    let c2 = c1.with("message"@, message);
    let choice = c2.with_text("finish_reason"@, "stop"@);
    lemma_with(e, "index"@, JsonView::Number(0));
    lemma_with(c1, "message"@, message);
    lemma_with(c2, "finish_reason"@, JsonView::Text("stop"@));
    assert(c1.lacks("message"@));
    assert(c2.has("message"@, message));
    assert(choice.has("message"@, message));
    let p = r.prompt_tokens as u64;
    let c = r.completion_tokens as u64;
    let t = (r.prompt_tokens + r.completion_tokens) as u64;
    let u1 = e.with("prompt_tokens"@, JsonView::Number(p));
    let u2 = u1.with("completion_tokens"@, JsonView::Number(c));
    let usage = u2.with("total_tokens"@, JsonView::Number(t));
    lemma_with(e, "prompt_tokens"@, JsonView::Number(p));
    lemma_with(u1, "completion_tokens"@, JsonView::Number(c));
    lemma_with(u2, "total_tokens"@, JsonView::Number(t));
    assert(u1.lacks("completion_tokens"@) && u1.lacks("total_tokens"@));
    assert(u1.has("prompt_tokens"@, JsonView::Number(p)));
    assert(u2.has("prompt_tokens"@, JsonView::Number(p)));
    assert(u2.has("completion_tokens"@, JsonView::Number(c)));
    assert(u2.lacks("total_tokens"@));
    assert(usage.has("prompt_tokens"@, JsonView::Number(p)));
    assert(usage.has("completion_tokens"@, JsonView::Number(c)));
    assert(usage.has("total_tokens"@, JsonView::Number(t)));
    let name = JsonView::Text("chatcmpl-"@ + decimal(number as nat));
    let kind = JsonView::Text("chat.completion"@);
    let choices = JsonView::List(seq![choice]);
    let b1 = e.with("id"@, name);
    let b2 = b1.with("object"@, kind);
    let b3 = b2.with("created"@, JsonView::Number(created));
    let b4 = b3.with("model"@, JsonView::Text(model));
    let b5 = b4.with("choices"@, choices);
    let b6 = b5.with("usage"@, usage);
    lemma_with(e, "id"@, name);
    lemma_with(b1, "object"@, kind);
    lemma_with(b2, "created"@, JsonView::Number(created));
    lemma_with(b3, "model"@, JsonView::Text(model));
    lemma_with(b4, "choices"@, choices);
    lemma_with(b5, "usage"@, usage);
    assert(b1.lacks("created"@) && b1.lacks("model"@) && b1.lacks("choices"@) && b1.lacks(
        "usage"@,
    ));
    assert(b2.lacks("created"@) && b2.lacks("model"@) && b2.lacks("choices"@) && b2.lacks(
        "usage"@,
    ));
    assert(b3.has("created"@, JsonView::Number(created)));
    assert(b3.lacks("model"@) && b3.lacks("choices"@) && b3.lacks("usage"@));
    assert(b4.has("created"@, JsonView::Number(created)));
    assert(b4.has("model"@, JsonView::Text(model)));
    assert(b4.lacks("choices"@) && b4.lacks("usage"@));
    assert(b5.has("created"@, JsonView::Number(created)));
    assert(b5.has("model"@, JsonView::Text(model)));
    assert(b5.has("choices"@, choices) && b5.lacks("usage"@));
    assert(b6.has("created"@, JsonView::Number(created)));
    assert(b6.has("model"@, JsonView::Text(model)));
    assert(b6.has("choices"@, choices) && b6.has("usage"@, usage));
    assert(chat_reply(model, ChatEnd::Answered(response), number, created).body == b6);
}

/// A conversation that ends without an answer is replied to with the status of
/// what went wrong, and none ends with a success but by an answer.
pub proof fn lemma_unanswered_status(model: Seq<char>, end: ChatEnd, number: u64, created: u64)
    ensures
        ({
            let status = chat_reply(model, end, number, created).status;
            &&& status == 200 <==> end is Answered
            &&& end is Dropped ==> status == 502
            &&& end is TimedOut ==> status == 504
            &&& end is Unsent || end is Unencoded ==> status == 500
        }),
{
}

/// Of a conversation the texts of the messages are read in their order, each
/// from under its own message, and the model and the two bounds from under
/// their keys; what is missing is unknown or has its default.
pub proof fn lemma_chat_request_read(body: Seq<u8>)
    ensures
        ({
            let request = chat_request(body);
            let messages = json_node(body, "/messages"@);
            &&& request.valid == json_valid(body)
            &&& text_at(body, "/model"@) matches Some(name) ==> request.model == name
            &&& text_at(body, "/model"@) is None ==> request.model == "unknown"@
            &&& whole_at(body, "/max_tokens"@) matches Some(n) ==> request.max_tokens == n
            &&& whole_at(body, "/max_tokens"@) is None ==> request.max_tokens == 128
            &&& double_at(body, "/temperature"@) matches Some(bits) ==> request.temperature == bits
            &&& double_at(body, "/temperature"@) is None ==> request.temperature
                == 0x3fe6_6666_6666_6666
            &&& messages matches Some(JsonNodeView::Array(n)) ==> request.contents.len() == n
            &&& !(messages is Some && messages->0 is Array) ==> request.contents.len() == 0
            &&& forall|i: int|
                0 <= i < request.contents.len() ==> #[trigger] request.contents[i] == text_at(
                    body,
                    "/messages"@ + "/"@ + decimal(i as nat) + "/"@ + "content"@,
                )
        }),
{
    lemma_texts_at(body, "/messages"@, "content"@);
}

// ---------------------------------------------------------------------------
// What always holds of reports
// ---------------------------------------------------------------------------

/// The report on health names the workers in their order, each with its own
/// figures. A worker's layers are two numbers in decimal with a hyphen between:
/// its first layer and the one behind its last.
pub proof fn lemma_health_reports(h: HubView, i: int)
    requires
        h.inv(),
        0 <= i < h.workers.len(),
    ensures
        exists|list: Seq<JsonView>| #[trigger]
            health_of(h).body.has("workers"@, JsonView::List(list)) && list.len()
                == h.workers.len() && list[i].has("id"@, JsonView::Text(h.workers[i].id))
                && list[i].has("gpu"@, JsonView::Bool(h.workers[i].has_gpu)) && list[i].has(
                "vram_gb"@,
                JsonView::Single(h.workers[i].vram_gb),
            ) && list[i].has("load"@, JsonView::Single(h.workers[i].load)) && exists|
                from: Seq<char>,
                to: Seq<char>,
            |
                list[i].has("layers"@, JsonView::Text(#[trigger] (from + "-"@ + to)))
                    && digits_value(from) == h.workers[i].layer_offset && digits_value(to)
                    - digits_value(from) == h.workers[i].num_layers && (forall|k: int|
                    0 <= k < from.len() ==> is_digit(#[trigger] from[k])) && (forall|k: int|
                    0 <= k < to.len() ==> is_digit(#[trigger] to[k])),
        health_of(h).body.has("model"@, JsonView::Text(h.model.name)),
        health_of(h).body.has("model_url"@, JsonView::Text(h.model_url)),
        health_of(h).body.has("num_layers"@, JsonView::Number(h.model.num_layers as u64)),
{
    reveal_strlit("status");
    assert("status"@.len() == 6);
    reveal_strlit("model");
    assert("model"@.len() == 5);
    reveal_strlit("model_url");
    assert("model_url"@.len() == 9);
    reveal_strlit("num_layers");
    assert("num_layers"@.len() == 10);
    reveal_strlit("workers");
    assert("workers"@.len() == 7);
    let e = JsonView::object();
    let list = h.workers.map_values(|w: WorkerView| worker_health(w));
    let ok = JsonView::Text("ok"@);
    let model = JsonView::Text(h.model.name);
    let url = JsonView::Text(h.model_url);
    let layers = JsonView::Number(h.model.num_layers as u64);
    let b1 = e.with("status"@, ok);
    let b2 = b1.with("model"@, model);
    let b3 = b2.with("model_url"@, url);
    let b4 = b3.with("num_layers"@, layers);
    let b5 = b4.with("workers"@, JsonView::List(list));
    lemma_with(e, "status"@, ok);
    lemma_with(b1, "model"@, model);
    lemma_with(b2, "model_url"@, url);
    lemma_with(b3, "num_layers"@, layers);
    lemma_with(b4, "workers"@, JsonView::List(list));
    assert(b1.lacks("model"@) && b1.lacks("model_url"@) && b1.lacks("num_layers"@) && b1.lacks(
        "workers"@,
    ));
    assert(b2.has("model"@, model) && b2.lacks("model_url"@) && b2.lacks("num_layers"@)
        && b2.lacks("workers"@));
    assert(b3.has("model"@, model) && b3.has("model_url"@, url) && b3.lacks("num_layers"@)
        && b3.lacks("workers"@));
    assert(b4.has("model"@, model) && b4.has("model_url"@, url) && b4.has("num_layers"@, layers)
        && b4.lacks("workers"@));
    assert(b5.has("workers"@, JsonView::List(list)));
    assert(health_of(h).body == b5);
    let w = h.workers[i];
    assert(list[i] == worker_health(w));
    lemma_worker_reported(w);
    let from = decimal(w.layer_offset as nat);
    let to = decimal((w.layer_offset + w.num_layers) as nat);
    lemma_decimal_value(w.layer_offset as nat);
    lemma_decimal_value((w.layer_offset + w.num_layers) as nat);
    assert(list[i].has("layers"@, JsonView::Text(from + "-"@ + to)));
}

proof fn lemma_worker_reported(w: WorkerView)
    ensures
        ({
            let tree = worker_health(w);
            &&& tree.has("id"@, JsonView::Text(w.id))
            &&& tree.has(
                "layers"@,
                JsonView::Text(
                    decimal(w.layer_offset as nat) + "-"@ + decimal(
                        (w.layer_offset + w.num_layers) as nat,
                    ),
                ),
            )
            &&& tree.has("gpu"@, JsonView::Bool(w.has_gpu))
            &&& tree.has("vram_gb"@, JsonView::Single(w.vram_gb))
            &&& tree.has("load"@, JsonView::Single(w.load))
        }),
{
    reveal_strlit("id");
    assert("id"@.len() == 2);
    reveal_strlit("layers");
    assert("layers"@.len() == 6);
    reveal_strlit("gpu");
    assert("gpu"@.len() == 3);
    reveal_strlit("vram_gb");
    assert("vram_gb"@.len() == 7);
    reveal_strlit("load");
    assert("load"@.len() == 4);
    let layers = JsonView::Text(
        decimal(w.layer_offset as nat) + "-"@ + decimal((w.layer_offset + w.num_layers) as nat),
    );
    let e = JsonView::object();
    let b1 = e.with("id"@, JsonView::Text(w.id));
    let b2 = b1.with("layers"@, layers);
    let b3 = b2.with("gpu"@, JsonView::Bool(w.has_gpu));
    let b4 = b3.with("vram_gb"@, JsonView::Single(w.vram_gb));
    let b5 = b4.with("load"@, JsonView::Single(w.load));
    lemma_with(e, "id"@, JsonView::Text(w.id));
    lemma_with(b1, "layers"@, layers);
    lemma_with(b2, "gpu"@, JsonView::Bool(w.has_gpu));
    lemma_with(b3, "vram_gb"@, JsonView::Single(w.vram_gb));
    lemma_with(b4, "load"@, JsonView::Single(w.load));
    assert(b1.has("id"@, JsonView::Text(w.id)) && b1.lacks("layers"@) && b1.lacks("gpu"@)
        && b1.lacks("vram_gb"@) && b1.lacks("load"@));
    assert(b2.has("id"@, JsonView::Text(w.id)) && b2.has("layers"@, layers) && b2.lacks("gpu"@)
        && b2.lacks("vram_gb"@) && b2.lacks("load"@));
    assert(b3.has("id"@, JsonView::Text(w.id)) && b3.has("layers"@, layers) && b3.has(
        "gpu"@,
        JsonView::Bool(w.has_gpu),
    ) && b3.lacks("vram_gb"@) && b3.lacks("load"@));
    assert(b4.has("id"@, JsonView::Text(w.id)) && b4.has("layers"@, layers) && b4.has(
        "gpu"@,
        JsonView::Bool(w.has_gpu),
    ) && b4.has("vram_gb"@, JsonView::Single(w.vram_gb)) && b4.lacks("load"@));
    assert(worker_health(w) == b5);
}

/// The list of models has one, and its name is the hub's alias.
pub proof fn lemma_models_listed(h: HubView)
    ensures
        models_of(h).status == 200,
        exists|entry: JsonView| #[trigger]
            models_of(h).body.has("data"@, JsonView::List(seq![entry])) && entry.has(
                "id"@,
                JsonView::Text(h.model_alias),
            ),
{
    reveal_strlit("id");
    assert("id"@.len() == 2);
    reveal_strlit("object");
    assert("object"@.len() == 6);
    reveal_strlit("created");
    assert("created"@.len() == 7);
    reveal_strlit("owned_by");
    assert("owned_by"@.len() == 8);
    let b0 = JsonView::object();
    let b1 = b0.with("id"@, JsonView::Text(h.model_alias));
    let b2 = b1.with("object"@, JsonView::Text("model"@));
    let b3 = b2.with("created"@, JsonView::Number(MODEL_CREATED));
    let b4 = b3.with("owned_by"@, JsonView::Text("akai-net"@));
    lemma_with(b0, "id"@, JsonView::Text(h.model_alias));
    lemma_with(b1, "object"@, JsonView::Text("model"@));
    lemma_with(b2, "created"@, JsonView::Number(MODEL_CREATED));
    lemma_with(b3, "owned_by"@, JsonView::Text("akai-net"@));
    assert(b1.has("id"@, JsonView::Text(h.model_alias)));
    assert(b1.lacks("object"@));
    assert(b1.lacks("created"@));
    assert(b1.lacks("owned_by"@));
    assert(b2.has("id"@, JsonView::Text(h.model_alias)));
    assert(b2.has("object"@, JsonView::Text("model"@)));
    assert(b2.lacks("created"@));
    assert(b2.lacks("owned_by"@));
    assert(b3.has("id"@, JsonView::Text(h.model_alias)));
    assert(b3.has("object"@, JsonView::Text("model"@)));
    assert(b3.has("created"@, JsonView::Number(MODEL_CREATED)));
    assert(b3.lacks("owned_by"@));
    reveal_strlit("data");
    assert("data"@.len() == 4);
    let list = JsonView::List(seq![b4]);
    let c1 = b0.with("object"@, JsonView::Text("list"@));
    let c2 = c1.with("data"@, list);
    lemma_with(b0, "object"@, JsonView::Text("list"@));
    lemma_with(c1, "data"@, list);
    assert(c1.lacks("data"@));
    assert(c2.has("data"@, list));
    assert(b4.has("id"@, JsonView::Text(h.model_alias)));
    assert(models_of(h).body == c2);
}

/// The certificates are given, each under its own name, wherever the
/// authority's is there.
pub proof fn lemma_certs_given(ca: Seq<u8>, cert: Seq<u8>, key: Seq<u8>)
    ensures
        ca.len() == 0 ==> certs_of(ca, cert, key).status == 500,
        ca.len() > 0 ==> {
            let reply = certs_of(ca, cert, key);
            &&& reply.status == 200
            &&& reply.body.has("ca_cert"@, JsonView::Text(lossy(ca)))
            &&& reply.body.has("worker_cert"@, JsonView::Text(lossy(cert)))
            &&& reply.body.has("worker_key"@, JsonView::Text(lossy(key)))
        },
{
    reveal_strlit("ca_cert");
    assert("ca_cert"@.len() == 7);
    reveal_strlit("worker_cert");
    assert("worker_cert"@.len() == 11);
    reveal_strlit("worker_key");
    assert("worker_key"@.len() == 10);
    reveal_strlit("tunnel_host");
    assert("tunnel_host"@.len() == 11);
    reveal_strlit("tunnel_port");
    assert("tunnel_port"@.len() == 11);
    assert("worker_cert"@[0] != "tunnel_host"@[0]);
    assert("worker_cert"@[0] != "tunnel_port"@[0]);
    assert("tunnel_host"@[7] != "tunnel_port"@[7]);
    let b0 = JsonView::object();
    let b1 = b0.with("ca_cert"@, JsonView::Text(lossy(ca)));
    let b2 = b1.with("worker_cert"@, JsonView::Text(lossy(cert)));
    let b3 = b2.with("worker_key"@, JsonView::Text(lossy(key)));
    let b4 = b3.with("tunnel_host"@, JsonView::Text(TUNNEL_HOST@));
    let b5 = b4.with("tunnel_port"@, JsonView::Number(TUNNEL_PORT));
    lemma_with(b0, "ca_cert"@, JsonView::Text(lossy(ca)));
    lemma_with(b1, "worker_cert"@, JsonView::Text(lossy(cert)));
    lemma_with(b2, "worker_key"@, JsonView::Text(lossy(key)));
    lemma_with(b3, "tunnel_host"@, JsonView::Text(TUNNEL_HOST@));
    lemma_with(b4, "tunnel_port"@, JsonView::Number(TUNNEL_PORT));
    assert(b1.has("ca_cert"@, JsonView::Text(lossy(ca))));
    assert(b1.lacks("worker_cert"@));
    assert(b1.lacks("worker_key"@));
    assert(b1.lacks("tunnel_host"@));
    assert(b1.lacks("tunnel_port"@));
    assert(b2.has("ca_cert"@, JsonView::Text(lossy(ca))));
    assert(b2.has("worker_cert"@, JsonView::Text(lossy(cert))));
    assert(b2.lacks("worker_key"@));
    assert(b2.lacks("tunnel_host"@));
    assert(b2.lacks("tunnel_port"@));
    assert(b3.has("ca_cert"@, JsonView::Text(lossy(ca))));
    assert(b3.has("worker_cert"@, JsonView::Text(lossy(cert))));
    assert(b3.has("worker_key"@, JsonView::Text(lossy(key))));
    assert(b3.lacks("tunnel_host"@));
    assert(b3.lacks("tunnel_port"@));
    assert(b4.has("ca_cert"@, JsonView::Text(lossy(ca))));
    assert(b4.has("worker_cert"@, JsonView::Text(lossy(cert))));
    assert(b4.has("worker_key"@, JsonView::Text(lossy(key))));
    assert(b4.has("tunnel_host"@, JsonView::Text(TUNNEL_HOST@)));
    assert(b4.lacks("tunnel_port"@));
    if ca.len() > 0 {
        assert(certs_of(ca, cert, key).body == b5);
    }
}

} // verus!
