//! The course of a request: what is done at once, what has to be done outside
//! first, and what then.

use vstd::prelude::*;
use vstd::utf8::{encode_utf8, is_ascii_chars};

use crate::api::{
    begin_chat, cert_path, chat_begun, chat_request, chat_start, completions, completions_of,
    health, health_of, model_source, models, models_of, not_found, read_chat_request,
    worker_noted, worker_register, ChatStart, ChatStartView,
};
use crate::auth::{
    access_of, approved, asked, change_model, consent_view, login_reply, model_access,
    model_request, model_set, provisioned, read_model_request, read_user_request,
    register_reply, stopped, text_at_or, user_access, user_request, vpn_next, vpn_step, Access,
    AccessView, ModelRequest, ModelRequestView, UserRequest, UserRequestView, VpnNext, VpnNextView,
};
use crate::chance::random_number;
use crate::duo::{judgement_view, DuoAuthResult, DuoAuthView, DuoError, DuoErrorView};
use crate::http::{route, route_of, Request, Route};
use crate::hub::{model_changed, Hub, HubView};
use crate::json::{json_valid, text_at, JsonView};
use crate::message::{InferenceRequest, InferenceRequestView, PipelineInfo, PipelineView};
use crate::pipeline::pipeline_of;
use crate::reply::{error_of, Reply, ReplyView};
use crate::settings::{is_admin, lemma_admin_by_whole_name};
use crate::text::{ascii_lower, lowercase, texts};

verus! {

/// What a server has to know besides the hub's memory.
pub struct ServerSettings {
    /// The administrators.
    pub admins: Vec<String>,
    /// Whether Duo is set up.
    pub duo: bool,
    /// Where the tunnel's certificates lie.
    pub certs_dir: String,
    /// The password of the tunnel's manager; empty without one.
    pub wg_password: String,
}

/// What a [`ServerSettings`] holds.
#[verifier::ext_equal]
pub struct ServerSettingsView {
    pub admins: Seq<Seq<char>>,
    pub duo: bool,
    pub certs_dir: Seq<char>,
    pub wg_password: Seq<char>,
}

impl View for ServerSettings {
    type V = ServerSettingsView;

    open spec fn view(&self) -> ServerSettingsView {
        ServerSettingsView {
            admins: texts(self.admins@),
            duo: self.duo,
            certs_dir: self.certs_dir@,
            wg_password: self.wg_password@,
        }
    }
}

/// What a user wants that only an administrator gets.
pub enum Wish {
    /// To register a worker.
    Register(UserRequest),
    /// To log in.
    Login(UserRequest),
    /// To bring a worker into the tunnel.
    Vpn(UserRequest),
    /// To change the model.
    Model(ModelRequest),
}

/// What a [`Wish`] holds.
pub enum WishView {
    Register(UserRequestView),
    Login(UserRequestView),
    Vpn(UserRequestView),
    Model(ModelRequestView),
}

impl View for Wish {
    type V = WishView;

    open spec fn view(&self) -> WishView {
        match self {
            Wish::Register(r) => WishView::Register(r@),
            Wish::Login(r) => WishView::Login(r@),
            Wish::Vpn(r) => WishView::Vpn(r@),
            Wish::Model(r) => WishView::Model(r@),
        }
    }
}

impl WishView {
    /// Whether the body of the request is JSON.
    pub open spec fn valid(self) -> bool {
        match self {
            WishView::Register(r) => r.valid,
            WishView::Login(r) => r.valid,
            WishView::Vpn(r) => r.valid,
            WishView::Model(r) => r.valid,
        }
    }

    /// Who wants it.
    pub open spec fn username(self) -> Seq<char> {
        match self {
            WishView::Register(r) => r.username,
            WishView::Login(r) => r.username,
            WishView::Vpn(r) => r.username,
            WishView::Model(r) => r.username,
        }
    }

    /// Whether the one that wants it is an administrator. A wish for another
    /// model has the name in small letters already.
    pub open spec fn by_admin(self, admins: Seq<Seq<char>>) -> bool {
        match self {
            WishView::Model(r) => admins.contains(r.username),
            _ => is_admin(admins, self.username()),
        }
    }
}

/// What is done next about a request.
pub enum Action {
    /// A reply is sent.
    Send(Reply),
    /// The pipeline is sent as the reply.
    SendPipeline(PipelineInfo),
    /// Duo is asked; then the wish is settled.
    AskDuo {
        /// Whose consent is asked for.
        username: String,
        /// What for.
        wish: Wish,
    },
    /// The certificates are read from these files and sent.
    ReadCerts {
        /// The authority's.
        ca: String,
        /// The worker's.
        cert: String,
        /// The worker's key.
        key: String,
    },
    /// A client is added to the tunnel.
    Enroll {
        /// Its name.
        name: String,
    },
    /// The model is fetched and sent.
    FetchModel {
        /// Where from.
        url: String,
    },
    /// A prompt is sent to a worker, and its answer awaited.
    Prompt {
        /// The worker.
        worker_id: String,
        /// Its connection.
        conn: u64,
        /// The prompt.
        request: InferenceRequest,
        /// The model that was asked for.
        model: String,
    },
}

/// What an [`Action`] holds.
pub enum ActionView {
    Send(ReplyView),
    SendPipeline(PipelineView),
    AskDuo { username: Seq<char>, wish: WishView },
    ReadCerts { ca: Seq<char>, cert: Seq<char>, key: Seq<char> },
    Enroll { name: Seq<char> },
    FetchModel { url: Seq<char> },
    Prompt { worker_id: Seq<char>, conn: u64, request: InferenceRequestView, model: Seq<char> },
}

impl View for Action {
    type V = ActionView;

    open spec fn view(&self) -> ActionView {
        match self {
            Action::Send(reply) => ActionView::Send(reply@),
            Action::SendPipeline(pipeline) => ActionView::SendPipeline(pipeline@),
            Action::AskDuo { username, wish } => ActionView::AskDuo {
                username: username@,
                wish: wish@,
            },
            Action::ReadCerts { ca, cert, key } => ActionView::ReadCerts {
                ca: ca@,
                cert: cert@,
                key: key@,
            },
            Action::Enroll { name } => ActionView::Enroll { name: name@ },
            Action::FetchModel { url } => ActionView::FetchModel { url: url@ },
            Action::Prompt { worker_id, conn, request, model } => ActionView::Prompt {
                worker_id: worker_id@,
                conn: *conn,
                request: request@,
                model: model@,
            },
        }
    }
}

// ---------------------------------------------------------------------------
// Wishes
// ---------------------------------------------------------------------------

/// Whether a wish is granted at once, refused, or put to Duo.
pub open spec fn wish_access(s: ServerSettingsView, wish: WishView) -> AccessView {
    access_of(wish.valid(), wish.by_admin(s.admins), s.duo, wish.username())
}

/// What comes of a wish once Duo has answered, as far as it was asked.
pub open spec fn wish_settled(
    s: ServerSettingsView,
    wish: WishView,
    access: AccessView,
    consent: Option<Result<DuoAuthView, DuoErrorView>>,
    number: u64,
) -> ActionView {
    match wish {
        WishView::Register(r) => ActionView::Send(
            match stopped(access, consent) {
                Some(reply) => reply,
                None => provisioned(r),
            },
        ),
        WishView::Login(r) => ActionView::Send(
            match stopped(access, consent) {
                Some(reply) => reply,
                None => approved(r.username, number),
            },
        ),
        WishView::Vpn(r) => match vpn_next(r, access, consent, s.wg_password) {
            VpnNextView::End(reply) => ActionView::Send(reply),
            VpnNextView::Enroll(name) => ActionView::Enroll { name },
        },
        WishView::Model(r) => ActionView::Send(
            match stopped(access, consent) {
                Some(reply) => reply,
                None => model_set(r),
            },
        ),
    }
}

/// The memory after a wish was settled: only a wish for another model changes
/// it, and only where it is granted.
pub open spec fn after_wish(
    h: HubView,
    wish: WishView,
    access: AccessView,
    consent: Option<Result<DuoAuthView, DuoErrorView>>,
) -> HubView {
    match wish {
        WishView::Model(r) => if stopped(access, consent) is None {
            model_changed(h, r.name, r.layers as usize, r.url)
        } else {
            h
        },
        _ => h,
    }
}

fn settle(
    hub: &mut Hub,
    s: &ServerSettings,
    wish: Wish,
    access: Access,
    consent: &Option<Result<DuoAuthResult, DuoError>>,
    number: u64,
) -> (r: Action)
    requires
        old(hub).wf(),
        asked(access@, consent_view(*consent)),
    ensures
        final(hub).wf(),
        r@ == wish_settled(s@, wish@, access@, consent_view(*consent), number),
        final(hub)@ == after_wish(old(hub)@, wish@, access@, consent_view(*consent)),
{
    match wish {
        Wish::Register(request) => Action::Send(register_reply(&request, access, consent)),
        Wish::Login(request) => Action::Send(login_reply(&request, access, consent, number)),
        Wish::Vpn(request) => match vpn_step(&request, access, consent, s.wg_password.as_str()) {
            VpnNext::End(reply) => Action::Send(reply),
            VpnNext::Enroll(name) => Action::Enroll { name },
        },
        Wish::Model(request) => Action::Send(change_model(hub, &request, access, consent)),
    }
}

/// What is done about a wish before Duo is asked.
pub open spec fn wish_action(s: ServerSettingsView, wish: WishView, number: u64) -> ActionView {
    match wish_access(s, wish) {
        AccessView::AskDuo(username) => ActionView::AskDuo { username, wish },
        access => wish_settled(s, wish, access, None, number),
    }
}

/// The memory after that.
pub open spec fn wish_memory(h: HubView, s: ServerSettingsView, wish: WishView) -> HubView {
    match wish_access(s, wish) {
        AccessView::AskDuo(_) => h,
        access => after_wish(h, wish, access, None),
    }
}

fn begin_wish(hub: &mut Hub, s: &ServerSettings, wish: Wish, number: u64) -> (r: Action)
    requires
        old(hub).wf(),
    ensures
        final(hub).wf(),
        r@ == wish_action(s@, wish@, number),
        final(hub)@ == wish_memory(old(hub)@, s@, wish@),
{
    let access = match &wish {
        Wish::Register(request) => user_access(&s.admins, s.duo, request),
        Wish::Login(request) => user_access(&s.admins, s.duo, request),
        Wish::Vpn(request) => user_access(&s.admins, s.duo, request),
        Wish::Model(request) => model_access(&s.admins, s.duo, request),
    };
    match access {
        Access::AskDuo(username) => Action::AskDuo { username, wish },
        other => settle(hub, s, wish, other, &None, number),
    }
}

/// Settles a wish that was put to Duo, with a number for a token.
pub fn settle_wish_with(
    hub: &mut Hub,
    s: &ServerSettings,
    username: String,
    wish: Wish,
    answer: Result<DuoAuthResult, DuoError>,
    number: u64,
) -> (r: Action)
    requires
        old(hub).wf(),
    ensures
        final(hub).wf(),
        r@ == wish_settled(
            s@,
            wish@,
            AccessView::AskDuo(username@),
            Some(judgement_view(answer)),
            number,
        ),
        final(hub)@ == after_wish(
            old(hub)@,
            wish@,
            AccessView::AskDuo(username@),
            Some(judgement_view(answer)),
        ),
{
    settle(hub, s, wish, Access::AskDuo(username), &Some(answer), number)
}

/// Settles a wish that was put to Duo.
pub fn settle_wish(
    hub: &mut Hub,
    s: &ServerSettings,
    username: String,
    wish: Wish,
    answer: Result<DuoAuthResult, DuoError>,
) -> (r: Action)
    requires
        old(hub).wf(),
    ensures
        final(hub).wf(),
        exists|number: u64|
            r@ == #[trigger] wish_settled(
                s@,
                wish@,
                AccessView::AskDuo(username@),
                Some(judgement_view(answer)),
                number,
            ),
        final(hub)@ == after_wish(
            old(hub)@,
            wish@,
            AccessView::AskDuo(username@),
            Some(judgement_view(answer)),
        ),
{
    let number: u64 = random_number();
    settle_wish_with(hub, s, username, wish, answer, number)
}

// ---------------------------------------------------------------------------
// Requests
// ---------------------------------------------------------------------------

/// The wish that a request to a route brings, if it is one for wishes.
pub open spec fn wish_in(route: Route, body: Seq<u8>) -> Option<WishView> {
    match route {
        Route::AuthRegister => Some(WishView::Register(user_request(body))),
        Route::AuthLogin => Some(WishView::Login(user_request(body))),
        Route::AuthVpn => Some(WishView::Vpn(user_request(body))),
        Route::AdminModel => Some(WishView::Model(model_request(body))),
        _ => None,
    }
}

/// What is done next about a request, with a number for a token or a prompt.
pub open spec fn request_action(
    h: HubView,
    s: ServerSettingsView,
    line: Seq<char>,
    body: Seq<u8>,
    number: u64,
) -> ActionView {
    let route = route_of(line);
    match wish_in(route, body) {
        Some(wish) => wish_action(s, wish, number),
        None => match route {
            Route::Health => ActionView::Send(health_of(h)),
            Route::Models => ActionView::Send(models_of(h)),
            Route::RegisterWorker => ActionView::Send(
                worker_noted(json_valid(body), text_at_or(body, "/id"@, ""@)),
            ),
            Route::TunnelCerts => ActionView::ReadCerts {
                ca: s.certs_dir + "/"@ + "ca.crt"@,
                cert: s.certs_dir + "/"@ + "worker.crt"@,
                key: s.certs_dir + "/"@ + "worker.key"@,
            },
            Route::PipelineStatus => ActionView::SendPipeline(
                pipeline_of(h.workers, h.model.name, h.model_url, h.model.num_layers),
            ),
            Route::ModelDownload => if h.model_url.len() == 0 {
                ActionView::Send(error_of(404, "no model configured"@))
            } else {
                ActionView::FetchModel { url: h.model_url }
            },
            Route::Chat => match chat_start(h, chat_request(body), number) {
                ChatStartView::End(reply) => ActionView::Send(reply),
                ChatStartView::Send { worker_id, conn, request } => ActionView::Prompt {
                    worker_id,
                    conn,
                    request,
                    model: chat_request(body).model,
                },
            },
            Route::Completions => ActionView::Send(completions_of()),
            _ => ActionView::Send(ReplyView { status: 404, body: JsonView::object() }),
        },
    }
}

/// The memory after that.
pub open spec fn request_memory(
    h: HubView,
    s: ServerSettingsView,
    line: Seq<char>,
    body: Seq<u8>,
    number: u64,
    waiter: u64,
) -> HubView {
    match wish_in(route_of(line), body) {
        Some(wish) => wish_memory(h, s, wish),
        None => if route_of(line) == Route::Chat {
            chat_begun(h, chat_request(body), number, waiter)
        } else {
            h
        },
    }
}

fn begin_prompt(hub: &mut Hub, body: &str, number: u64, waiter: u64) -> (r: Action)
    requires
        old(hub).wf(),
    ensures
        final(hub).wf(),
        r@ == (match chat_start(old(hub)@, chat_request(encode_utf8(body@)), number) {
            ChatStartView::End(reply) => ActionView::Send(reply),
            ChatStartView::Send { worker_id, conn, request } => ActionView::Prompt {
                worker_id,
                conn,
                request,
                model: chat_request(encode_utf8(body@)).model,
            },
        }),
        final(hub)@ == chat_begun(old(hub)@, chat_request(encode_utf8(body@)), number, waiter),
{
    let chat = read_chat_request(body);
    match begin_chat(hub, &chat, number, waiter) {
        ChatStart::End(reply) => Action::Send(reply),
        ChatStart::Send { worker_id, conn, request } => Action::Prompt {
            worker_id,
            conn,
            request,
            model: chat.model,
        },
    }
}

/// Begins a request, with a number for a token or a prompt.
pub fn begin_request_with(
    hub: &mut Hub,
    s: &ServerSettings,
    request: &Request,
    number: u64,
    waiter: u64,
) -> (r: Action)
    requires
        old(hub).wf(),
    ensures
        final(hub).wf(),
        r@ == request_action(
            old(hub)@,
            s@,
            request.line@,
            encode_utf8(request.body@),
            number,
        ),
        final(hub)@ == request_memory(
            old(hub)@,
            s@,
            request.line@,
            encode_utf8(request.body@),
            number,
            waiter,
        ),
{
    let body = request.body.as_str();
    match route(request.line.as_str()) {
        Route::Health => Action::Send(health(hub)),
        Route::Models => Action::Send(models(hub)),
        Route::RegisterWorker => Action::Send(worker_register(body)),
        Route::AuthRegister => begin_wish(hub, s, Wish::Register(read_user_request(body)), number),
        Route::AuthLogin => begin_wish(hub, s, Wish::Login(read_user_request(body)), number),
        Route::AuthVpn => begin_wish(hub, s, Wish::Vpn(read_user_request(body)), number),
        Route::AdminModel => begin_wish(hub, s, Wish::Model(read_model_request(body)), number),
        Route::TunnelCerts => Action::ReadCerts {
            ca: cert_path(s.certs_dir.as_str(), "ca.crt"),
            cert: cert_path(s.certs_dir.as_str(), "worker.crt"),
            key: cert_path(s.certs_dir.as_str(), "worker.key"),
        },
        Route::PipelineStatus => Action::SendPipeline(hub.pipeline_status()),
        Route::ModelDownload => match model_source(hub) {
            Ok(url) => Action::FetchModel { url },
            Err(reply) => Action::Send(reply),
        },
        Route::Chat => begin_prompt(hub, body, number, waiter),
        Route::Completions => Action::Send(completions()),
        Route::Unknown => Action::Send(not_found()),
    }
}

/// Begins a request.
pub fn begin_request(hub: &mut Hub, s: &ServerSettings, request: &Request, waiter: u64) -> (r:
    Action)
    requires
        old(hub).wf(),
    ensures
        final(hub).wf(),
        exists|number: u64|
            r@ == #[trigger] request_action(
                old(hub)@,
                s@,
                request.line@,
                encode_utf8(request.body@),
                number,
            ) && final(hub)@ == request_memory(
                old(hub)@,
                s@,
                request.line@,
                encode_utf8(request.body@),
                number,
                waiter,
            ),
{
    let number: u64 = random_number();
    begin_request_with(hub, s, request, number, waiter)
}

// ---------------------------------------------------------------------------
// What always holds
// ---------------------------------------------------------------------------

/// Whether what is done grants a wish: it says so, or adds a client to the
/// tunnel.
pub open spec fn grants(action: ActionView) -> bool {
    match action {
        ActionView::Send(reply) => reply.status == 200,
        ActionView::Enroll { .. } => true,
        _ => false,
    }
}

/// A wish is granted at once to an administrator on a hub without Duo, if the
/// hub can grant it at all, and to nobody else; and whoever is no such
/// administrator leaves the hub's memory as it was.
pub proof fn lemma_granted_at_once(
    h: HubView,
    s: ServerSettingsView,
    wish: WishView,
    number: u64,
)
    ensures
        grants(wish_action(s, wish, number)) <==> wish.valid() && wish.by_admin(s.admins) && !s.duo
            && (wish is Vpn ==> s.wg_password.len() > 0),
        !(wish.valid() && wish.by_admin(s.admins) && !s.duo) ==> wish_memory(h, s, wish) == h,
{
}

/// A wish is put to Duo for an administrator only, and for that one's
/// consent.
pub proof fn lemma_put_to_duo(s: ServerSettingsView, wish: WishView, number: u64)
    ensures
        wish_action(s, wish, number) is AskDuo <==> wish.valid() && wish.by_admin(s.admins)
            && s.duo,
        wish_action(s, wish, number) matches ActionView::AskDuo { username, wish: put }
            ==> username == wish.username() && put == wish,
{
}

/// A wish that was put to Duo is granted with its consent, if the hub can
/// grant it at all, and never without; and without it the hub's memory stays
/// as it was.
pub proof fn lemma_granted_by_duo(
    h: HubView,
    s: ServerSettingsView,
    wish: WishView,
    username: Seq<char>,
    answer: Result<DuoAuthView, DuoErrorView>,
    number: u64,
)
    ensures
        ({
            let allowed = answer is Ok && answer->Ok_0.allowed;
            let access = AccessView::AskDuo(username);
            &&& grants(wish_settled(s, wish, access, Some(answer), number)) <==> allowed && (
            wish is Vpn ==> s.wg_password.len() > 0)
            &&& !allowed ==> after_wish(h, wish, access, Some(answer)) == h
        }),
{
}

/// A request changes nothing in the hub's memory unless it grants a wish for
/// another model or sends a prompt.
pub proof fn lemma_requests_only_read(
    h: HubView,
    s: ServerSettingsView,
    line: Seq<char>,
    body: Seq<u8>,
    number: u64,
    waiter: u64,
)
    requires
        request_memory(h, s, line, body, number, waiter) != h,
    ensures
        ({
            let action = request_action(h, s, line, body, number);
            ||| route_of(line) == Route::AdminModel && grants(action)
            ||| route_of(line) == Route::Chat && action is Prompt
        }),
{
}

/// Whether what is done refuses a wish at the door: because the request cannot
/// be read, or because its user is no administrator.
pub open spec fn refuses(action: ActionView, status: u16) -> bool {
    action matches ActionView::Send(reply) && reply.status == status
}

/// Whoever wants a wish granted is an administrator if and only if the name
/// the request gives is, in small letters and as a whole, on the list; that is
/// so of every kind of wish.
pub proof fn lemma_wish_by_admin(
    route: Route,
    body: Seq<u8>,
    name: Seq<char>,
    admins: Seq<Seq<char>>,
)
    requires
        text_at(body, "/username"@) == Some(name) || (text_at(body, "/username"@) is None
            && name.len() == 0),
        is_ascii_chars(name),
    ensures
        wish_in(route, body) matches Some(wish) ==> wish.valid() == json_valid(body),
        wish_in(route, body) matches Some(wish) ==> (wish.by_admin(admins) <==> exists|k: int|
            0 <= k < admins.len() && (#[trigger] admins[k]).len() == name.len() && forall|i: int|
                0 <= i < name.len() ==> admins[k][i] == #[trigger] ascii_lower(name[i])),
{
    reveal_strlit("");
    assert(""@.len() == 0);
    assert(text_at_or(body, "/username"@, ""@) =~= name);
    lemma_admin_by_whole_name(admins, name);
    assert(is_admin(admins, name) == admins.contains(lowercase(name)));
}

/// A wish that cannot be read is refused as a bad request, one by somebody who
/// is no administrator as forbidden.
pub proof fn lemma_wish_refused(s: ServerSettingsView, wish: WishView, number: u64)
    ensures
        !wish.valid() ==> refuses(wish_action(s, wish, number), 400),
        wish.valid() && !wish.by_admin(s.admins) ==> refuses(wish_action(s, wish, number), 403),
{
}

/// Where a wish for another model is granted the model is from then on the one
/// that was asked for, and nothing else has changed. Where it is not, and for
/// every other wish, nothing has changed.
pub proof fn lemma_model_wish(
    h: HubView,
    wish: WishView,
    access: AccessView,
    consent: Option<Result<DuoAuthView, DuoErrorView>>,
)
    ensures
        ({
            let after = after_wish(h, wish, access, consent);
            &&& wish is Model && stopped(access, consent) is None ==> {
                &&& after.model.name == wish->Model_0.name
                &&& wish->Model_0.layers <= usize::MAX ==> after.model.num_layers
                    == wish->Model_0.layers
                &&& after.model_url == wish->Model_0.url
                &&& after.workers == h.workers
                &&& after.streams == h.streams
                &&& after.missed == h.missed
                &&& after.responded == h.responded
                &&& after.pending == h.pending
                &&& after.model_alias == h.model_alias
                &&& after.model_hash == h.model_hash
                &&& after.address == h.address
            }
            &&& wish !is Model || stopped(access, consent) is Some ==> after == h
        }),
{
}

/// A client is added to the tunnel under the name of the worker that the
/// request names: for different workers under different names.
pub proof fn lemma_client_names(
    s: ServerSettingsView,
    a: UserRequestView,
    b: UserRequestView,
    number: u64,
    number2: u64,
)
    ensures
        wish_action(s, WishView::Vpn(a), number) matches ActionView::Enroll { name } ==> name
            == "akai-agent-"@ + a.worker_name,
        wish_action(s, WishView::Vpn(a), number) is Enroll && wish_action(
            s,
            WishView::Vpn(b),
            number2,
        ) is Enroll && wish_action(s, WishView::Vpn(a), number) == wish_action(
            s,
            WishView::Vpn(b),
            number2,
        ) ==> a.worker_name == b.worker_name,
{
    let prefix = "akai-agent-"@;
    assert((prefix + a.worker_name).skip(prefix.len() as int) =~= a.worker_name);
    assert((prefix + b.worker_name).skip(prefix.len() as int) =~= b.worker_name);
}

/// A prompt that a request brings is the one of the conversation in its body,
/// for the model that the body names.
pub proof fn lemma_request_prompts(
    h: HubView,
    s: ServerSettingsView,
    line: Seq<char>,
    body: Seq<u8>,
    number: u64,
)
    ensures
        request_action(h, s, line, body, number) matches ActionView::Prompt {
            worker_id,
            conn,
            request,
            model,
        } ==> {
            &&& route_of(line) == Route::Chat
            &&& chat_start(h, chat_request(body), number) == (ChatStartView::Send {
                worker_id,
                conn,
                request,
            })
            &&& model == (match text_at(body, "/model"@) {
                Some(name) => name,
                None => "unknown"@,
            })
        },
{
}

/// A wish that nothing stops is answered for what it is: a registration for
/// the user and the worker that the request names, a login for the user that
/// it names, with a token made of the number, and a model for the one that it
/// names.
pub proof fn lemma_wish_answered(
    s: ServerSettingsView,
    wish: WishView,
    access: AccessView,
    consent: Option<Result<DuoAuthView, DuoErrorView>>,
    number: u64,
)
    requires
        stopped(access, consent) is None,
    ensures
        wish matches WishView::Register(r) ==> wish_settled(s, wish, access, consent, number)
            == ActionView::Send(provisioned(r)),
        wish matches WishView::Login(r) ==> wish_settled(s, wish, access, consent, number)
            == ActionView::Send(approved(r.username, number)),
        wish matches WishView::Model(r) ==> wish_settled(s, wish, access, consent, number)
            == ActionView::Send(model_set(r)),
{
}

/// Which request brings which wish.
pub proof fn lemma_wish_routes(line: Seq<char>, body: Seq<u8>)
    ensures
        ({
            let wish = wish_in(route_of(line), body);
            &&& route_of(line) == Route::AuthRegister <==> wish is Some && wish->0 is Register
            &&& route_of(line) == Route::AuthLogin <==> wish is Some && wish->0 is Login
            &&& route_of(line) == Route::AuthVpn <==> wish is Some && wish->0 is Vpn
            &&& route_of(line) == Route::AdminModel <==> wish is Some && wish->0 is Model
        }),
{
}

/// The tunnel's certificates are read from the directory that was set up, the
/// pipeline is shown with the address from which the hub itself gets the
/// model, and the model is fetched from there, if there is one.
pub proof fn lemma_requests_served(
    h: HubView,
    s: ServerSettingsView,
    line: Seq<char>,
    body: Seq<u8>,
    number: u64,
)
    ensures
        ({
            let action = request_action(h, s, line, body, number);
            let route = route_of(line);
            &&& route == Route::TunnelCerts ==> action == (ActionView::ReadCerts {
                ca: s.certs_dir + "/"@ + "ca.crt"@,
                cert: s.certs_dir + "/"@ + "worker.crt"@,
                key: s.certs_dir + "/"@ + "worker.key"@,
            })
            &&& route == Route::PipelineStatus ==> {
                &&& action is SendPipeline
                &&& action->SendPipeline_0.workers == h.pipeline().workers
                &&& action->SendPipeline_0.model_name == h.model.name
                &&& action->SendPipeline_0.model_url == h.model_url
                &&& action->SendPipeline_0.num_layers == h.model.num_layers
            }
            &&& route == Route::ModelDownload && h.model_url.len() > 0 ==> action == (
            ActionView::FetchModel { url: h.model_url })
            &&& route == Route::ModelDownload && h.model_url.len() == 0 ==> refuses(action, 404)
            &&& route == Route::Unknown ==> refuses(action, 404)
            &&& route == Route::Health ==> action == ActionView::Send(health_of(h))
            &&& route == Route::Models ==> action == ActionView::Send(models_of(h))
            &&& action is FetchModel ==> route == Route::ModelDownload
            &&& action is ReadCerts ==> route == Route::TunnelCerts
            &&& action is Enroll ==> route == Route::AuthVpn
        }),
{
}

} // verus!
