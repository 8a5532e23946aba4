//! Who may do what: administrators only, and where Duo is set up only with
//! its consent.

use vstd::prelude::*;
use vstd::utf8::encode_utf8;

use crate::duo::{
    judgement_view, DuoAuthResult, DuoAuthView, DuoError, DuoErrorView,
};
use crate::hub::{model_changed, Hub};
use crate::json::{
    is_json, json_valid, lemma_with, read_text, read_whole, text_at, whole_at, Json, JsonView,
};
use crate::reply::{
    error_of, error_reply, invalid_body, invalid_body_reply, Reply, ReplyView,
};
use crate::settings::{authorized, is_admin, listed, text_or};
use crate::text::{
    decimal, joined, lemma_decimal_injective, lowercase, texts, to_decimal, to_lowercase,
};

verus! {

// ---------------------------------------------------------------------------
// What users send
// ---------------------------------------------------------------------------

/// What the hub reads of a request by a user.
pub struct UserRequest {
    /// Whether the body is JSON.
    pub valid: bool,
    /// The user; empty where none is given.
    pub username: String,
    /// The user's worker; empty where none is given.
    pub worker_name: String,
}

/// What a [`UserRequest`] holds.
#[verifier::ext_equal]
pub struct UserRequestView {
    pub valid: bool,
    pub username: Seq<char>,
    pub worker_name: Seq<char>,
}

impl View for UserRequest {
    type V = UserRequestView;

    open spec fn view(&self) -> UserRequestView {
        UserRequestView {
            valid: self.valid,
            username: self.username@,
            worker_name: self.worker_name@,
        }
    }
}

/// The text at a pointer of a body, or a default.
pub open spec fn text_at_or(body: Seq<u8>, pointer: Seq<char>, default: Seq<char>) -> Seq<char> {
    text_or(text_at(body, pointer), default)
}

/// The text at a pointer of a body, or a default.
pub fn read_text_or(body: &[u8], pointer: &str, default: &str) -> (r: String)
    ensures
        r@ == text_at_or(body@, pointer@, default@),
{
    match read_text(body, pointer) {
        Some(s) => s,
        None => default.to_string(),
    }
}

/// What the hub reads of a request by a user.
pub open spec fn user_request(body: Seq<u8>) -> UserRequestView {
    UserRequestView {
        valid: json_valid(body),
        username: text_at_or(body, "/username"@, ""@),
        worker_name: text_at_or(body, "/worker_name"@, ""@),
    }
}

/// What the hub reads of a request by a user.
pub fn read_user_request(body: &str) -> (r: UserRequest)
    ensures
        r@ == user_request(encode_utf8(body@)),
{
    let bytes = body.as_bytes();
    UserRequest {
        valid: is_json(bytes),
        username: read_text_or(bytes, "/username", ""),
        worker_name: read_text_or(bytes, "/worker_name", ""),
    }
}

/// What the hub reads of a request for another model.
pub struct ModelRequest {
    /// Whether the body is JSON.
    pub valid: bool,
    /// The user, in small letters; empty where none is given.
    pub username: String,
    /// The model's name.
    pub name: String,
    /// The number of its layers.
    pub layers: u64,
    /// Where it is downloaded from.
    pub url: String,
}

/// What a [`ModelRequest`] holds.
#[verifier::ext_equal]
pub struct ModelRequestView {
    pub valid: bool,
    pub username: Seq<char>,
    pub name: Seq<char>,
    pub layers: u64,
    pub url: Seq<char>,
}

impl View for ModelRequest {
    type V = ModelRequestView;

    open spec fn view(&self) -> ModelRequestView {
        ModelRequestView {
            valid: self.valid,
            username: self.username@,
            name: self.name@,
            layers: self.layers,
            url: self.url@,
        }
    }
}

/// What the hub reads of a request for another model.
pub open spec fn model_request(body: Seq<u8>) -> ModelRequestView {
    ModelRequestView {
        valid: json_valid(body),
        username: lowercase(text_at_or(body, "/username"@, ""@)),
        name: text_at_or(body, "/name"@, "unknown"@),
        layers: match whole_at(body, "/layers"@) {
            Some(n) => n,
            None => 32,
        },
        url: text_at_or(body, "/url"@, ""@),
    }
}

/// What the hub reads of a request for another model.
pub fn read_model_request(body: &str) -> (r: ModelRequest)
    ensures
        r@ == model_request(encode_utf8(body@)),
{
    let bytes = body.as_bytes();
    let username = read_text_or(bytes, "/username", "");
    ModelRequest {
        valid: is_json(bytes),
        username: to_lowercase(username.as_str()),
        name: read_text_or(bytes, "/name", "unknown"),
        layers: match read_whole(bytes, "/layers") {
            Some(n) => n,
            None => 32,
        },
        url: read_text_or(bytes, "/url", ""),
    }
}

// ---------------------------------------------------------------------------
// Access
// ---------------------------------------------------------------------------

/// What comes before anything is done for a user.
pub enum Access {
    /// Nothing is done.
    Refused(Reply),
    /// Duo is asked whether this user consents.
    AskDuo(String),
    /// Nothing stands in the way.
    Open,
}

/// What a [`Access`] holds.
pub enum AccessView {
    Refused(ReplyView),
    AskDuo(Seq<char>),
    Open,
}

impl View for Access {
    type V = AccessView;

    open spec fn view(&self) -> AccessView {
        match self {
            Access::Refused(reply) => AccessView::Refused(reply@),
            Access::AskDuo(username) => AccessView::AskDuo(username@),
            Access::Open => AccessView::Open,
        }
    }
}

/// What comes before anything is done: whether the body is JSON, whether the
/// user is an administrator, whether Duo is set up.
pub open spec fn access_of(valid: bool, admin: bool, duo: bool, username: Seq<char>) -> AccessView {
    if !valid {
        AccessView::Refused(invalid_body())
    } else if !admin {
        AccessView::Refused(error_of(403, "user not authorized"@))
    } else if duo {
        AccessView::AskDuo(username)
    } else {
        AccessView::Open
    }
}

fn access(valid: bool, admin: bool, duo: bool, username: &str) -> (r: Access)
    ensures
        r@ == access_of(valid, admin, duo, username@),
{
    if !valid {
        Access::Refused(invalid_body_reply())
    } else if !admin {
        Access::Refused(error_reply(403, "user not authorized"))
    } else if duo {
        Access::AskDuo(username.to_string())
    } else {
        Access::Open
    }
}

/// What comes before anything is done for a user.
pub fn user_access(admins: &Vec<String>, duo: bool, request: &UserRequest) -> (r: Access)
    ensures
        r@ == access_of(
            request@.valid,
            is_admin(texts(admins@), request@.username),
            duo,
            request@.username,
        ),
{
    let admin = authorized(admins, request.username.as_str());
    access(request.valid, admin, duo, request.username.as_str())
}

/// What comes before the model is changed.
pub fn model_access(admins: &Vec<String>, duo: bool, request: &ModelRequest) -> (r: Access)
    ensures
        r@ == access_of(
            request@.valid,
            texts(admins@).contains(request@.username),
            duo,
            request@.username,
        ),
{
    let admin = listed(admins, request.username.as_str());
    access(request.valid, admin, duo, request.username.as_str())
}

/// What Duo said, as far as it was asked.
pub open spec fn consent_view(c: Option<Result<DuoAuthResult, DuoError>>) -> Option<
    Result<DuoAuthView, DuoErrorView>,
> {
    match c {
        Some(j) => Some(judgement_view(j)),
        None => None,
    }
}

/// Whether Duo was asked where it had to be.
pub open spec fn asked(
    access: AccessView,
    consent: Option<Result<DuoAuthView, DuoErrorView>>,
) -> bool {
    access is AskDuo ==> consent is Some
}

/// The reply that ends the matter at the door; none where the user goes
/// through.
pub open spec fn stopped(
    access: AccessView,
    consent: Option<Result<DuoAuthView, DuoErrorView>>,
) -> Option<ReplyView> {
    match access {
        AccessView::Refused(reply) => Some(reply),
        AccessView::Open => None,
        AccessView::AskDuo(_) => match consent->0 {
            Ok(result) => if result.allowed {
                None
            } else {
                Some(error_of(403, "Duo denied: "@ + result.status))
            },
            Err(e) => Some(error_of(500, "Duo error: "@ + e.text())),
        },
    }
}

/// What a reply holds that may not be there.
pub open spec fn opt_reply(r: Option<Reply>) -> Option<ReplyView> {
    match r {
        Some(reply) => Some(reply@),
        None => None,
    }
}

/// The reply that ends the matter at the door; none where the user goes
/// through.
pub fn stop(access: Access, consent: &Option<Result<DuoAuthResult, DuoError>>) -> (r: Option<Reply>)
    requires
        asked(access@, consent_view(*consent)),
    ensures
        opt_reply(r) == stopped(access@, consent_view(*consent)),
{
    match access {
        Access::Refused(reply) => Some(reply),
        Access::Open => None,
        Access::AskDuo(_) => match consent {
            Some(Ok(result)) => if result.allowed {
                None
            } else {
                let message = joined("Duo denied: ", result.status.as_str());
                Some(error_reply(403, message.as_str()))
            },
            Some(Err(e)) => {
                let words = e.text();
                let message = joined("Duo error: ", words.as_str());
                Some(error_reply(500, message.as_str()))
            },
            None => None,
        },
    }
}

/// Nobody goes through the door but an administrator with a readable request
/// and, where Duo is set up, with Duo's consent; whoever has all this does.
pub proof fn lemma_access(
    valid: bool,
    admin: bool,
    duo: bool,
    username: Seq<char>,
    consent: Option<Result<DuoAuthView, DuoErrorView>>,
)
    requires
        asked(access_of(valid, admin, duo, username), consent),
    ensures
        ({
            let end = stopped(access_of(valid, admin, duo, username), consent);
            &&& end is None <==> valid && admin && (duo ==> consent->0 is Ok
                && consent->0->Ok_0.allowed)
            &&& end matches Some(reply) ==> reply.status == 400 || reply.status == 403
                || reply.status == 500
            &&& !valid ==> end == Some(invalid_body())
            &&& valid && !admin ==> end == Some(error_of(403, "user not authorized"@))
        }),
{
}

// ---------------------------------------------------------------------------
// Registering a worker
// ---------------------------------------------------------------------------

/// The port at which a worker of a user takes calls.
pub const RPC_PORT: u64 = 50052;

/// The reply to a user whose worker is registered.
pub open spec fn provisioned(request: UserRequestView) -> ReplyView {
    ReplyView {
        status: 200,
        body: JsonView::object().with_text("status"@, "provisioned"@).with_text(
            "username"@,
            request.username,
        ).with_text("worker_id"@, request.username + ":"@ + request.worker_name).with(
            "rpc_port"@,
            JsonView::Number(RPC_PORT),
        ),
    }
}

/// The reply to a user who registers a worker.
pub fn register_reply(
    request: &UserRequest,
    access: Access,
    consent: &Option<Result<DuoAuthResult, DuoError>>,
) -> (r: Reply)
    requires
        asked(access@, consent_view(*consent)),
    ensures
        r@ == (match stopped(access@, consent_view(*consent)) {
            Some(reply) => reply,
            None => provisioned(request@),
        }),
{
    if let Some(reply) = stop(access, consent) {
        return reply;
    }
    let mut worker_id = joined(request.username.as_str(), ":");
    worker_id.append(request.worker_name.as_str());
    Reply {
        status: 200,
        body: Json::object().with_text("status", "provisioned").with_text(
            "username",
            request.username.as_str(),
        ).with_text("worker_id", worker_id.as_str()).with("rpc_port", Json::Number(RPC_PORT)),
    }
}

// ---------------------------------------------------------------------------
// Logging in
// ---------------------------------------------------------------------------

/// The reply to a user who has logged in, with a number for the token.
pub open spec fn approved(username: Seq<char>, number: u64) -> ReplyView {
    ReplyView {
        status: 200,
        body: JsonView::object().with_text("status"@, "approved"@).with_text(
            "username"@,
            username,
        ).with_text("token"@, "token-"@ + decimal(number as nat)),
    }
}

/// The reply to a user who logs in, with a number for the token.
pub fn login_reply(
    request: &UserRequest,
    access: Access,
    consent: &Option<Result<DuoAuthResult, DuoError>>,
    number: u64,
) -> (r: Reply)
    requires
        asked(access@, consent_view(*consent)),
    ensures
        r@ == (match stopped(access@, consent_view(*consent)) {
            Some(reply) => reply,
            None => approved(request@.username, number),
        }),
{
    if let Some(reply) = stop(access, consent) {
        return reply;
    }
    let digits = to_decimal(number);
    let token = joined("token-", digits.as_str());
    Reply {
        status: 200,
        body: Json::object().with_text("status", "approved").with_text(
            "username",
            request.username.as_str(),
        ).with_text("token", token.as_str()),
    }
}

// ---------------------------------------------------------------------------
// The tunnel
// ---------------------------------------------------------------------------

/// The reply that ends a wish for the tunnel at the door; none where the user
/// goes through. Here Duo's refusal and its failure get one reply.
pub open spec fn vpn_stopped(
    access: AccessView,
    consent: Option<Result<DuoAuthView, DuoErrorView>>,
) -> Option<ReplyView> {
    match access {
        AccessView::Refused(reply) => Some(reply),
        AccessView::Open => None,
        AccessView::AskDuo(_) => if consent->0 is Ok && consent->0->Ok_0.allowed {
            None
        } else {
            Some(error_of(403, "Duo denied"@))
        },
    }
}

/// What comes after the door of the tunnel.
pub enum VpnNext {
    /// Nothing but a reply.
    End(Reply),
    /// A client with this name is added to the tunnel.
    Enroll(String),
}

/// What a [`VpnNext`] holds.
pub enum VpnNextView {
    End(ReplyView),
    Enroll(Seq<char>),
}

impl View for VpnNext {
    type V = VpnNextView;

    open spec fn view(&self) -> VpnNextView {
        match self {
            VpnNext::End(reply) => VpnNextView::End(reply@),
            VpnNext::Enroll(name) => VpnNextView::Enroll(name@),
        }
    }
}

/// What comes after the door of the tunnel. Without a password the tunnel
/// cannot be managed.
pub open spec fn vpn_next(
    request: UserRequestView,
    access: AccessView,
    consent: Option<Result<DuoAuthView, DuoErrorView>>,
    password: Seq<char>,
) -> VpnNextView {
    match vpn_stopped(access, consent) {
        Some(reply) => VpnNextView::End(reply),
        None => if password.len() == 0 {
            VpnNextView::End(error_of(503, "WireGuard VPN not configured on hub"@))
        } else {
            VpnNextView::Enroll("akai-agent-"@ + request.worker_name)
        },
    }
}

/// What comes after the door of the tunnel.
pub fn vpn_step(
    request: &UserRequest,
    access: Access,
    consent: &Option<Result<DuoAuthResult, DuoError>>,
    password: &str,
) -> (r: VpnNext)
    requires
        asked(access@, consent_view(*consent)),
    ensures
        r@ == vpn_next(request@, access@, consent_view(*consent), password@),
{
    let allowed = match access {
        Access::Refused(reply) => {
            return VpnNext::End(reply);
        },
        Access::Open => true,
        Access::AskDuo(_) => match consent {
            Some(Ok(result)) => result.allowed,
            _ => false,
        },
    };
    if !allowed {
        VpnNext::End(error_reply(403, "Duo denied"))
    } else if password.is_empty() {
        VpnNext::End(error_reply(503, "WireGuard VPN not configured on hub"))
    } else {
        VpnNext::Enroll(joined("akai-agent-", request.worker_name.as_str()))
    }
}

/// No client is added to the tunnel but for an administrator with a readable
/// request and, where Duo is set up, with Duo's consent, on a hub that can
/// manage the tunnel.
pub proof fn lemma_vpn_access(
    request: UserRequestView,
    admin: bool,
    duo: bool,
    consent: Option<Result<DuoAuthView, DuoErrorView>>,
    password: Seq<char>,
)
    requires
        asked(access_of(request.valid, admin, duo, request.username), consent),
    ensures
        vpn_next(
            request,
            access_of(request.valid, admin, duo, request.username),
            consent,
            password,
        ) is Enroll <==> request.valid && admin && (duo ==> consent->0 is Ok
            && consent->0->Ok_0.allowed) && password.len() > 0,
{
}

/// The reply to a user whose client is in the tunnel.
pub open spec fn enrolled(id: Seq<char>, config: Seq<char>, address: Seq<char>) -> ReplyView {
    ReplyView {
        status: 200,
        body: JsonView::object().with_text("status"@, "enrolled"@).with_text(
            "client_id"@,
            id,
        ).with_text("wireguard_config"@, config).with_text("hub_vpn_addr"@, address),
    }
}

/// The reply to a user whose client is in the tunnel.
pub fn enrolled_reply(id: &str, config: &str, address: &str) -> (r: Reply)
    ensures
        r@ == enrolled(id@, config@, address@),
{
    Reply {
        status: 200,
        body: Json::object().with_text("status", "enrolled").with_text("client_id", id).with_text(
            "wireguard_config",
            config,
        ).with_text("hub_vpn_addr", address),
    }
}

/// The reply to a user whose client could not be added.
pub fn enroll_failed_reply(reason: &str) -> (r: Reply)
    ensures
        r@ == error_of(500, "WG client creation failed: "@ + reason@),
{
    let message = joined("WG client creation failed: ", reason);
    error_reply(500, message.as_str())
}

// ---------------------------------------------------------------------------
// The model
// ---------------------------------------------------------------------------

/// The reply to a change of the model.
pub open spec fn model_set(request: ModelRequestView) -> ReplyView {
    ReplyView {
        status: 200,
        body: JsonView::object().with_text("status"@, "ok"@).with_text("model"@, request.name).with(
            "layers"@,
            JsonView::Number(request.layers as usize as u64),
        ),
    }
}

/// Changes the model, if the user goes through the door, and replies.
pub fn change_model(
    hub: &mut Hub,
    request: &ModelRequest,
    access: Access,
    consent: &Option<Result<DuoAuthResult, DuoError>>,
) -> (r: Reply)
    requires
        old(hub).wf(),
        asked(access@, consent_view(*consent)),
    ensures
        final(hub).wf(),
        match stopped(access@, consent_view(*consent)) {
            Some(reply) => r@ == reply && final(hub)@ == old(hub)@,
            None => r@ == model_set(request@) && final(hub)@ == model_changed(
                old(hub)@,
                request@.name,
                request@.layers as usize,
                request@.url,
            ),
        },
{
    if let Some(reply) = stop(access, consent) {
        return reply;
    }
    let layers: usize = request.layers as usize;
    hub.set_model(request.name.clone(), layers, request.url.clone());
    Reply {
        status: 200,
        body: Json::object().with_text("status", "ok").with_text(
            "model",
            request.name.as_str(),
        ).with("layers", Json::Number(layers as u64)),
    }
}

// ---------------------------------------------------------------------------
// What replies hold
// ---------------------------------------------------------------------------

/// The reply to a user whose worker is registered names the user as given, and
/// the worker by both names with a colon between.
pub proof fn lemma_provisioned(request: UserRequestView)
    ensures
        provisioned(request).status == 200,
        provisioned(request).body.has("username"@, JsonView::Text(request.username)),
        provisioned(request).body.has(
            "worker_id"@,
            JsonView::Text(request.username + ":"@ + request.worker_name),
        ),
{
    reveal_strlit("status");
    assert("status"@.len() == 6);
    reveal_strlit("username");
    assert("username"@.len() == 8);
    reveal_strlit("worker_id");
    assert("worker_id"@.len() == 9);
    reveal_strlit("rpc_port");
    assert("rpc_port"@.len() == 8);
    assert("username"@[0] != "rpc_port"@[0]);
    let b0 = JsonView::object();
    let b1 = b0.with("status"@, JsonView::Text("provisioned"@));
    let b2 = b1.with("username"@, JsonView::Text(request.username));
    let b3 = b2.with("worker_id"@, JsonView::Text(request.username + ":"@ + request.worker_name));
    let b4 = b3.with("rpc_port"@, JsonView::Number(RPC_PORT));
    lemma_with(b0, "status"@, JsonView::Text("provisioned"@));
    lemma_with(b1, "username"@, JsonView::Text(request.username));
    lemma_with(b2, "worker_id"@, JsonView::Text(request.username + ":"@ + request.worker_name));
    lemma_with(b3, "rpc_port"@, JsonView::Number(RPC_PORT));
    assert(b1.has("status"@, JsonView::Text("provisioned"@)));
    assert(b1.lacks("username"@));
    assert(b1.lacks("worker_id"@));
    assert(b1.lacks("rpc_port"@));
    assert(b2.has("status"@, JsonView::Text("provisioned"@)));
    assert(b2.has("username"@, JsonView::Text(request.username)));
    assert(b2.lacks("worker_id"@));
    assert(b2.lacks("rpc_port"@));
    assert(b3.has("status"@, JsonView::Text("provisioned"@)));
    assert(b3.has("username"@, JsonView::Text(request.username)));
    assert(b3.has("worker_id"@, JsonView::Text(request.username + ":"@ + request.worker_name)));
    assert(b3.lacks("rpc_port"@));
    assert(provisioned(request).body == b4);
}

/// The reply to a user who has logged in names the user as given, with a token
/// that different numbers make different.
pub proof fn lemma_approved(username: Seq<char>, number: u64, other: u64)
    ensures
        approved(username, number).status == 200,
        approved(username, number).body.has("username"@, JsonView::Text(username)),
        approved(username, number).body.has(
            "token"@,
            JsonView::Text("token-"@ + decimal(number as nat)),
        ),
        approved(username, number) == approved(username, other) ==> number == other,
{
    reveal_strlit("status");
    assert("status"@.len() == 6);
    reveal_strlit("username");
    assert("username"@.len() == 8);
    reveal_strlit("token");
    assert("token"@.len() == 5);
    let b0 = JsonView::object();
    let b1 = b0.with("status"@, JsonView::Text("approved"@));
    let b2 = b1.with("username"@, JsonView::Text(username));
    let b3 = b2.with("token"@, JsonView::Text("token-"@ + decimal(number as nat)));
    lemma_with(b0, "status"@, JsonView::Text("approved"@));
    lemma_with(b1, "username"@, JsonView::Text(username));
    lemma_with(b2, "token"@, JsonView::Text("token-"@ + decimal(number as nat)));
    assert(b1.has("status"@, JsonView::Text("approved"@)));
    assert(b1.lacks("username"@));
    assert(b1.lacks("token"@));
    assert(b2.has("status"@, JsonView::Text("approved"@)));
    assert(b2.has("username"@, JsonView::Text(username)));
    assert(b2.lacks("token"@));
    assert(approved(username, number).body == b3);
    if approved(username, number) == approved(username, other) {
        let prefix = "token-"@;
        let a = decimal(number as nat);
        let b = decimal(other as nat);
        let members = approved(username, other).body->Object_0;
        assert(members[2] == ("token"@, JsonView::Text(prefix + b)));
        assert(approved(username, number).body->Object_0[2] == (
            "token"@,
            JsonView::Text(prefix + a),
        ));
        assert((prefix + a).skip(prefix.len() as int) =~= a);
        assert((prefix + b).skip(prefix.len() as int) =~= b);
        lemma_decimal_injective(number as nat, other as nat);
    }
}

/// The reply to a user whose client is in the tunnel has the client's
/// identifier, its configuration and the hub's address, each as given.
pub proof fn lemma_enrolled(id: Seq<char>, config: Seq<char>, address: Seq<char>)
    ensures
        enrolled(id, config, address).status == 200,
        enrolled(id, config, address).body.has("client_id"@, JsonView::Text(id)),
        enrolled(id, config, address).body.has("wireguard_config"@, JsonView::Text(config)),
        enrolled(id, config, address).body.has("hub_vpn_addr"@, JsonView::Text(address)),
{
    reveal_strlit("status");
    assert("status"@.len() == 6);
    reveal_strlit("client_id");
    assert("client_id"@.len() == 9);
    reveal_strlit("wireguard_config");
    assert("wireguard_config"@.len() == 16);
    reveal_strlit("hub_vpn_addr");
    assert("hub_vpn_addr"@.len() == 12);
    let b0 = JsonView::object();
    let b1 = b0.with("status"@, JsonView::Text("enrolled"@));
    let b2 = b1.with("client_id"@, JsonView::Text(id));
    let b3 = b2.with("wireguard_config"@, JsonView::Text(config));
    let b4 = b3.with("hub_vpn_addr"@, JsonView::Text(address));
    lemma_with(b0, "status"@, JsonView::Text("enrolled"@));
    lemma_with(b1, "client_id"@, JsonView::Text(id));
    lemma_with(b2, "wireguard_config"@, JsonView::Text(config));
    lemma_with(b3, "hub_vpn_addr"@, JsonView::Text(address));
    assert(b1.has("status"@, JsonView::Text("enrolled"@)));
    assert(b1.lacks("client_id"@));
    assert(b1.lacks("wireguard_config"@));
    assert(b1.lacks("hub_vpn_addr"@));
    assert(b2.has("status"@, JsonView::Text("enrolled"@)));
    assert(b2.has("client_id"@, JsonView::Text(id)));
    assert(b2.lacks("wireguard_config"@));
    assert(b2.lacks("hub_vpn_addr"@));
    assert(b3.has("status"@, JsonView::Text("enrolled"@)));
    assert(b3.has("client_id"@, JsonView::Text(id)));
    assert(b3.has("wireguard_config"@, JsonView::Text(config)));
    assert(b3.lacks("hub_vpn_addr"@));
    assert(enrolled(id, config, address).body == b4);
}

/// The reply to a change of the model has its name and the number of its
/// layers.
pub proof fn lemma_model_set(request: ModelRequestView)
    ensures
        model_set(request).status == 200,
        model_set(request).body.has("model"@, JsonView::Text(request.name)),
        request.layers <= usize::MAX ==> model_set(request).body.has(
            "layers"@,
            JsonView::Number(request.layers),
        ),
{
    let layers = JsonView::Number(request.layers as usize as u64);
    reveal_strlit("status");
    assert("status"@.len() == 6);
    reveal_strlit("model");
    assert("model"@.len() == 5);
    reveal_strlit("layers");
    assert("layers"@.len() == 6);
    assert("status"@[0] != "layers"@[0]);
    let b0 = JsonView::object();
    let b1 = b0.with("status"@, JsonView::Text("ok"@));
    let b2 = b1.with("model"@, JsonView::Text(request.name));
    let b3 = b2.with("layers"@, layers);
    lemma_with(b0, "status"@, JsonView::Text("ok"@));
    lemma_with(b1, "model"@, JsonView::Text(request.name));
    lemma_with(b2, "layers"@, layers);
    assert(b1.has("status"@, JsonView::Text("ok"@)));
    assert(b1.lacks("model"@));
    assert(b1.lacks("layers"@));
    assert(b2.has("status"@, JsonView::Text("ok"@)));
    assert(b2.has("model"@, JsonView::Text(request.name)));
    assert(b2.lacks("layers"@));
    assert(model_set(request).body == b3);
}

// ---------------------------------------------------------------------------
// What requests are read for
// ---------------------------------------------------------------------------

/// Of a request by a user the two names are read from under their keys, and a
/// missing one is empty; of one for another model the name, the layers and the
/// address, where a missing name, number or address is unknown, thirty-two or
/// empty.
pub proof fn lemma_requests_read(body: Seq<u8>)
    ensures
        text_at(body, "/username"@) matches Some(name) ==> user_request(body).username == name
            && model_request(body).username == lowercase(name),
        text_at(body, "/username"@) is None ==> user_request(body).username.len() == 0,
        text_at(body, "/worker_name"@) matches Some(name) ==> user_request(body).worker_name
            == name,
        text_at(body, "/worker_name"@) is None ==> user_request(body).worker_name.len() == 0,
        user_request(body).valid == json_valid(body),
        model_request(body).valid == json_valid(body),
        text_at(body, "/name"@) matches Some(name) ==> model_request(body).name == name,
        text_at(body, "/name"@) is None ==> model_request(body).name == "unknown"@,
        whole_at(body, "/layers"@) matches Some(n) ==> model_request(body).layers == n,
        whole_at(body, "/layers"@) is None ==> model_request(body).layers == 32,
        text_at(body, "/url"@) matches Some(url) ==> model_request(body).url == url,
        text_at(body, "/url"@) is None ==> model_request(body).url.len() == 0,
{
    reveal_strlit("");
    assert(""@.len() == 0);
}

/// Where Duo refuses, the reply has Duo's word for it, and where Duo cannot
/// decide it has the reason; at the door of the tunnel both get one reply.
pub proof fn lemma_duo_refusals(username: Seq<char>, result: DuoAuthView, e: DuoErrorView)
    requires
        !result.allowed,
    ensures
        ({
            let access = AccessView::AskDuo(username);
            let refused = Some(Ok::<DuoAuthView, DuoErrorView>(result));
            let failed = Some(Err::<DuoAuthView, DuoErrorView>(e));
            &&& stopped(access, refused) == Some(error_of(403, "Duo denied: "@ + result.status))
            &&& stopped(access, failed) == Some(error_of(500, "Duo error: "@ + e.text()))
            &&& vpn_stopped(access, refused) == Some(error_of(403, "Duo denied"@))
            &&& vpn_stopped(access, failed) == Some(error_of(403, "Duo denied"@))
        }),
{
}

} // verus!
