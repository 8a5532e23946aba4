//! Managing the tunnel: the requests that add a client and take one out, and
//! what each reply leads to.

use vstd::prelude::*;

use crate::json::{
    is_json, json_valid, lemma_with, opt_list, opt_texts, read_text, read_texts, text_at,
    texts_at, Json, JsonView,
};
use crate::message::opt_text;
use crate::text::{
    chars_of, decimal, join, join_all, joined, lemma_find_char, lemma_join_push, lists, pieces,
    same_text, split, text_of, texts, to_decimal, trim, trimmed,
};

verus! {

/// How many seconds a request may take.
pub const WG_TIMEOUT_SECS: u64 = 10;

/// What a request does.
#[derive(Clone, Copy, PartialEq, Eq, Structural)]
pub enum Method {
    Get,
    Post,
    Delete,
}

/// A request to the tunnel's manager.
pub struct WgRequest {
    /// What it does.
    pub method: Method,
    /// Where it goes.
    pub url: String,
    /// The session, once there is one.
    pub cookie: Option<String>,
    /// What is sent along.
    pub body: Option<Json>,
}

/// What a [`WgRequest`] holds.
pub struct WgRequestView {
    pub method: Method,
    pub url: Seq<char>,
    pub cookie: Option<Seq<char>>,
    pub body: Option<JsonView>,
}

impl View for WgRequest {
    type V = WgRequestView;

    open spec fn view(&self) -> WgRequestView {
        WgRequestView {
            method: self.method,
            url: self.url@,
            cookie: opt_text(self.cookie),
            body: match self.body {
                Some(b) => Some(b@),
                None => None,
            },
        }
    }
}

/// A reply of the tunnel's manager.
pub struct WgReply {
    /// Its status.
    pub status: u16,
    /// Its status in words.
    pub status_text: String,
    /// The values of its `Set-Cookie` headers, each as far as it is text.
    pub cookies: Vec<Option<String>>,
    /// Its body, where one is read as bytes.
    pub body: Vec<u8>,
    /// Its body, where one is read as text.
    pub text: String,
}

/// What a [`WgReply`] holds.
pub struct WgReplyView {
    pub status: u16,
    pub status_text: Seq<char>,
    pub cookies: Seq<Option<Seq<char>>>,
    pub body: Seq<u8>,
    pub text: Seq<char>,
}

impl View for WgReply {
    type V = WgReplyView;

    open spec fn view(&self) -> WgReplyView {
        WgReplyView {
            status: self.status,
            status_text: self.status_text@,
            cookies: opt_texts(self.cookies@),
            body: self.body@,
            text: self.text@,
        }
    }
}

/// Why something could not be done in the tunnel.
pub enum WgError {
    /// Nobody could log in.
    Auth(String),
    /// The client was not created.
    Create(String),
    /// The clients were not listed.
    List(String),
    /// The list is no JSON.
    Decode,
    /// The list is no list.
    NotAList,
    /// The new client is not on the list.
    NotFound,
    /// The new client has no identifier.
    NoId,
    /// The configuration was not given out.
    Config(String),
    /// The client was not taken out.
    Delete(String),
}

/// What a [`WgError`] holds.
pub enum WgErrorView {
    Auth(Seq<char>),
    Create(Seq<char>),
    List(Seq<char>),
    Decode,
    NotAList,
    NotFound,
    NoId,
    Config(Seq<char>),
    Delete(Seq<char>),
}

impl View for WgError {
    type V = WgErrorView;

    open spec fn view(&self) -> WgErrorView {
        match self {
            WgError::Auth(s) => WgErrorView::Auth(s@),
            WgError::Create(s) => WgErrorView::Create(s@),
            WgError::List(s) => WgErrorView::List(s@),
            WgError::Decode => WgErrorView::Decode,
            WgError::NotAList => WgErrorView::NotAList,
            WgError::NotFound => WgErrorView::NotFound,
            WgError::NoId => WgErrorView::NoId,
            WgError::Config(s) => WgErrorView::Config(s@),
            WgError::Delete(s) => WgErrorView::Delete(s@),
        }
    }
}

impl WgErrorView {
    /// The error in words.
    pub open spec fn text(self) -> Seq<char> {
        match self {
            WgErrorView::Auth(status) => "wg-easy auth failed: "@ + status,
            WgErrorView::Create(status) => "wg-easy create client failed: "@ + status,
            WgErrorView::List(status) => "wg-easy list clients failed: "@ + status,
            WgErrorView::Decode => "error decoding response body"@,
            WgErrorView::NotAList => "invalid clients response"@,
            WgErrorView::NotFound => "created client not found in list"@,
            WgErrorView::NoId => "missing client id"@,
            WgErrorView::Config(status) => "wg-easy get config failed: "@ + status,
            WgErrorView::Delete(status) => "wg-easy delete client failed: "@ + status,
        }
    }
}

impl WgError {
    /// The error in words.
    pub fn text(&self) -> (r: String)
        ensures
            r@ == self@.text(),
    {
        match self {
            WgError::Auth(status) => joined("wg-easy auth failed: ", status.as_str()),
            WgError::Create(status) => joined("wg-easy create client failed: ", status.as_str()),
            WgError::List(status) => joined("wg-easy list clients failed: ", status.as_str()),
            WgError::Decode => "error decoding response body".to_string(),
            WgError::NotAList => "invalid clients response".to_string(),
            WgError::NotFound => "created client not found in list".to_string(),
            WgError::NoId => "missing client id".to_string(),
            WgError::Config(status) => joined("wg-easy get config failed: ", status.as_str()),
            WgError::Delete(status) => joined("wg-easy delete client failed: ", status.as_str()),
        }
    }
}

// ---------------------------------------------------------------------------
// Requests
// ---------------------------------------------------------------------------

/// The address of the manager's interface.
pub open spec fn wg_url(host: Seq<char>, path: Seq<char>) -> Seq<char> {
    "http://"@ + host + path
}

/// The address of one client.
pub open spec fn client_url(host: Seq<char>, id: Seq<char>) -> Seq<char> {
    wg_url(host, "/api/wireguard/client/"@ + id)
}

/// Logging in.
pub open spec fn login_request_of(host: Seq<char>, password: Seq<char>) -> WgRequestView {
    WgRequestView {
        method: Method::Post,
        url: wg_url(host, "/api/session"@),
        cookie: None,
        body: Some(JsonView::object().with_text("password"@, password)),
    }
}

/// Creating a client.
pub open spec fn create_request_of(
    host: Seq<char>,
    cookie: Seq<char>,
    name: Seq<char>,
) -> WgRequestView {
    WgRequestView {
        method: Method::Post,
        url: wg_url(host, "/api/wireguard/client"@),
        cookie: Some(cookie),
        body: Some(JsonView::object().with_text("name"@, name)),
    }
}

/// Listing the clients.
pub open spec fn list_request_of(host: Seq<char>, cookie: Seq<char>) -> WgRequestView {
    WgRequestView {
        method: Method::Get,
        url: wg_url(host, "/api/wireguard/client"@),
        cookie: Some(cookie),
        body: None,
    }
}

/// Getting a client's configuration.
pub open spec fn config_request_of(
    host: Seq<char>,
    cookie: Seq<char>,
    id: Seq<char>,
) -> WgRequestView {
    WgRequestView {
        method: Method::Get,
        url: client_url(host, id) + "/configuration"@,
        cookie: Some(cookie),
        body: None,
    }
}

/// Taking a client out.
pub open spec fn delete_request_of(
    host: Seq<char>,
    cookie: Seq<char>,
    id: Seq<char>,
) -> WgRequestView {
    WgRequestView {
        method: Method::Delete,
        url: client_url(host, id),
        cookie: Some(cookie),
        body: None,
    }
}

fn url_at(host: &str, path: &str) -> (r: String)
    ensures
        r@ == wg_url(host@, path@),
{
    let mut url = joined("http://", host);
    url.append(path);
    url
}

fn client_url_at(host: &str, id: &str) -> (r: String)
    ensures
        r@ == client_url(host@, id@),
{
    let path = joined("/api/wireguard/client/", id);
    url_at(host, path.as_str())
}

fn login_request(host: &str, password: &str) -> (r: WgRequest)
    ensures
        r@ == login_request_of(host@, password@),
{
    WgRequest {
        method: Method::Post,
        url: url_at(host, "/api/session"),
        cookie: None,
        body: Some(Json::object().with_text("password", password)),
    }
}

fn create_request(host: &str, cookie: &str, name: &str) -> (r: WgRequest)
    ensures
        r@ == create_request_of(host@, cookie@, name@),
{
    WgRequest {
        method: Method::Post,
        url: url_at(host, "/api/wireguard/client"),
        cookie: Some(cookie.to_string()),
        body: Some(Json::object().with_text("name", name)),
    }
}

fn list_request(host: &str, cookie: &str) -> (r: WgRequest)
    ensures
        r@ == list_request_of(host@, cookie@),
{
    WgRequest {
        method: Method::Get,
        url: url_at(host, "/api/wireguard/client"),
        cookie: Some(cookie.to_string()),
        body: None,
    }
}

fn config_request(host: &str, cookie: &str, id: &str) -> (r: WgRequest)
    ensures
        r@ == config_request_of(host@, cookie@, id@),
{
    let mut url = client_url_at(host, id);
    url.append("/configuration");
    WgRequest { method: Method::Get, url, cookie: Some(cookie.to_string()), body: None }
}

fn delete_request(host: &str, cookie: &str, id: &str) -> (r: WgRequest)
    ensures
        r@ == delete_request_of(host@, cookie@, id@),
{
    WgRequest {
        method: Method::Delete,
        url: client_url_at(host, id),
        cookie: Some(cookie.to_string()),
        body: None,
    }
}

// ---------------------------------------------------------------------------
// Reading replies
// ---------------------------------------------------------------------------

/// Whether a status means success.
pub open spec fn successful(status: u16) -> bool {
    200 <= status < 300
}

/// Whether a status means success.
pub fn is_success(status: u16) -> (r: bool)
    ensures
        r == successful(status),
{
    200 <= status && status < 300
}

/// The part of a `Set-Cookie` value that is sent back: what stands ahead of
/// the first semicolon, without the white space around it.
pub open spec fn cookie_pair(value: Seq<char>) -> Seq<char> {
    trimmed(pieces(value, ';')[0])
}

/// The cookies to send back, for the values that are text.
pub open spec fn cookie_pairs(values: Seq<Option<Seq<char>>>) -> Seq<Seq<char>>
    decreases values.len(),
{
    if values.len() == 0 {
        seq![]
    } else {
        let front = cookie_pairs(values.drop_last());
        match values.last() {
            Some(value) => front.push(cookie_pair(value)),
            None => front,
        }
    }
}

/// The `Cookie` header for some `Set-Cookie` values.
pub open spec fn cookie_of(values: Seq<Option<Seq<char>>>) -> Seq<char> {
    join(cookie_pairs(values), "; "@)
}

/// The `Cookie` header for some `Set-Cookie` values.
pub fn cookie_header(values: &Vec<Option<String>>) -> (r: String)
    ensures
        r@ == cookie_of(opt_texts(values@)),
{
    let ghost views = opt_texts(values@);
    let mut pairs: Vec<String> = Vec::new();
    assert(views.take(0) =~= seq![]);
    assert(texts(pairs@) =~= cookie_pairs(views.take(0)));
    for i in 0..values.len()
        invariant
            views == opt_texts(values@),
            texts(pairs@) == cookie_pairs(views.take(i as int)),
    {
        let ghost before = texts(pairs@);
        assert(views.take(i + 1).drop_last() =~= views.take(i as int));
        assert(views[i as int] == opt_text(values@[i as int]));
        if let Some(value) = &values[i] {
            let chars = chars_of(value.as_str());
            let parts = split(chars.as_slice(), ';');
            assert(parts@.len() == pieces(value@, ';').len());
            assert(parts@.len() > 0);
            assert(lists(parts@)[0] == parts@[0]@);
            let cut = trim(parts[0].as_slice());
            let pair = text_of(cut.as_slice());
            pairs.push(pair);
            assert(texts(pairs@) =~= before.push(pair@));
        }
    }
    assert(views.take(values@.len() as int) =~= views);
    join_all(&pairs, "; ")
}

/// The position of a name in a list, or the length of the list.
pub open spec fn name_at(names: Seq<Option<Seq<char>>>, name: Seq<char>) -> int
    decreases names.len(),
{
    if names.len() == 0 || names[0] == Some(name) {
        0
    } else {
        1 + name_at(names.drop_first(), name)
    }
}

/// The position of the first client with a name, given whether the list is
/// JSON and, if it is a list, the names on it.
pub open spec fn client_place(
    valid: bool,
    names: Option<Seq<Option<Seq<char>>>>,
    name: Seq<char>,
) -> Result<int, WgErrorView> {
    if !valid {
        Err(WgErrorView::Decode)
    } else {
        match names {
            None => Err(WgErrorView::NotAList),
            Some(list) => if name_at(list, name) < list.len() {
                Ok(name_at(list, name))
            } else {
                Err(WgErrorView::NotFound)
            },
        }
    }
}

/// The identifier of the first client with a name on a list.
pub open spec fn client_id_in(body: Seq<u8>, name: Seq<char>) -> Result<Seq<char>, WgErrorView> {
    match client_place(json_valid(body), texts_at(body, ""@, "name"@), name) {
        Err(e) => Err(e),
        Ok(i) => match text_at(body, "/"@ + decimal(i as nat) + "/id"@) {
            Some(id) => Ok(id),
            None => Err(WgErrorView::NoId),
        },
    }
}

/// What an identifier or an error holds.
pub open spec fn id_view(r: Result<String, WgError>) -> Result<Seq<char>, WgErrorView> {
    match r {
        Ok(id) => Ok(id@),
        Err(e) => Err(e@),
    }
}

/// The position of a name in a list, or the length of the list.
pub fn find_name(names: &Vec<Option<String>>, name: &str) -> (r: usize)
    ensures
        r == name_at(opt_texts(names@), name@),
        r <= names@.len(),
{
    let ghost views = opt_texts(names@);
    let n: usize = names.len();
    assert(views.skip(0) =~= views);
    for i in 0..n
        invariant
            n == names@.len(),
            views == opt_texts(names@),
            name_at(views, name@) == i + name_at(views.skip(i as int), name@),
    {
        assert(views.skip(i as int)[0] == opt_text(names@[i as int]));
        assert(views.skip(i as int).drop_first() =~= views.skip(i + 1));
        if let Some(text) = &names[i] {
            if same_text(text.as_str(), name) {
                return i;
            }
        }
    }
    assert(views.skip(n as int).len() == 0);
    n
}

/// The position of the first client with a name, given whether the list is
/// JSON and, if it is a list, the names on it.
pub fn place_client(valid: bool, names: &Option<Vec<Option<String>>>, name: &str) -> (r: Result<
    usize,
    WgError,
>)
    ensures
        (match r {
            Ok(i) => Ok(i as int),
            Err(e) => Err(e@),
        }) == client_place(valid, opt_list(*names), name@),
{
    if !valid {
        return Err(WgError::Decode);
    }
    match names {
        None => Err(WgError::NotAList),
        Some(list) => {
            let i = find_name(list, name);
            if i < list.len() {
                Ok(i)
            } else {
                Err(WgError::NotFound)
            }
        },
    }
}

/// The identifier of the first client with a name on a list.
pub fn find_client(body: &[u8], name: &str) -> (r: Result<String, WgError>)
    ensures
        id_view(r) == client_id_in(body@, name@),
{
    let names = read_texts(body, "", "name");
    match place_client(is_json(body), &names, name) {
        Err(e) => Err(e),
        Ok(i) => {
            let digits = to_decimal(i as u64);
            let mut pointer = joined("/", digits.as_str());
            pointer.append("/id");
            match read_text(body, pointer.as_str()) {
                Some(id) => Ok(id),
                None => Err(WgError::NoId),
            }
        },
    }
}

// ---------------------------------------------------------------------------
// Adding a client
// ---------------------------------------------------------------------------

/// How far adding a client has come: which reply is waited for.
pub enum Adding {
    /// To the login.
    Login,
    /// To the creation.
    Create {
        /// The session.
        cookie: String,
    },
    /// The list of clients.
    List {
        /// The session.
        cookie: String,
    },
    /// The configuration.
    Config {
        /// The session.
        cookie: String,
        /// The new client.
        id: String,
    },
}

/// What an [`Adding`] holds.
pub enum AddingView {
    Login,
    Create { cookie: Seq<char> },
    List { cookie: Seq<char> },
    Config { cookie: Seq<char>, id: Seq<char> },
}

impl View for Adding {
    type V = AddingView;

    open spec fn view(&self) -> AddingView {
        match self {
            Adding::Login => AddingView::Login,
            Adding::Create { cookie } => AddingView::Create { cookie: cookie@ },
            Adding::List { cookie } => AddingView::List { cookie: cookie@ },
            Adding::Config { cookie, id } => AddingView::Config { cookie: cookie@, id: id@ },
        }
    }
}

/// What comes after a reply.
pub enum AddNext {
    /// Another request, and waiting for its reply.
    Send(Adding, WgRequest),
    /// Nothing: there is a new client, with a configuration.
    Done {
        /// The client.
        id: String,
        /// Its configuration.
        config: String,
    },
    /// Nothing: it could not be done.
    Failed(WgError),
}

/// What an [`AddNext`] holds.
pub enum AddNextView {
    Send(AddingView, WgRequestView),
    Done { id: Seq<char>, config: Seq<char> },
    Failed(WgErrorView),
}

impl View for AddNext {
    type V = AddNextView;

    open spec fn view(&self) -> AddNextView {
        match self {
            AddNext::Send(state, request) => AddNextView::Send(state@, request@),
            AddNext::Done { id, config } => AddNextView::Done { id: id@, config: config@ },
            AddNext::Failed(e) => AddNextView::Failed(e@),
        }
    }
}

/// What comes after a reply while a client is being added.
pub open spec fn added(
    state: AddingView,
    host: Seq<char>,
    name: Seq<char>,
    reply: WgReplyView,
) -> AddNextView {
    let ok = successful(reply.status);
    match state {
        AddingView::Login => if ok {
            let cookie = cookie_of(reply.cookies);
            AddNextView::Send(AddingView::Create { cookie }, create_request_of(host, cookie, name))
        } else {
            AddNextView::Failed(WgErrorView::Auth(reply.status_text))
        },
        AddingView::Create { cookie } => if ok {
            AddNextView::Send(AddingView::List { cookie }, list_request_of(host, cookie))
        } else {
            AddNextView::Failed(WgErrorView::Create(reply.status_text))
        },
        AddingView::List { cookie } => if ok {
            match client_id_in(reply.body, name) {
                Ok(id) => AddNextView::Send(
                    AddingView::Config { cookie, id },
                    config_request_of(host, cookie, id),
                ),
                Err(e) => AddNextView::Failed(e),
            }
        } else {
            AddNextView::Failed(WgErrorView::List(reply.status_text))
        },
        AddingView::Config { cookie, id } => if ok {
            AddNextView::Done { id, config: reply.text }
        } else {
            AddNextView::Failed(WgErrorView::Config(reply.status_text))
        },
    }
}

/// The first request of adding a client.
pub fn begin_adding(host: &str, password: &str) -> (r: (Adding, WgRequest))
    ensures
        r.0@ == AddingView::Login,
        r.1@ == login_request_of(host@, password@),
{
    (Adding::Login, login_request(host, password))
}

/// What comes after a reply while a client is being added.
pub fn add_step(state: Adding, host: &str, name: &str, reply: &WgReply) -> (r: AddNext)
    ensures
        r@ == added(state@, host@, name@, reply@),
{
    let ok = is_success(reply.status);
    match state {
        Adding::Login => if ok {
            let cookie = cookie_header(&reply.cookies);
            let request = create_request(host, cookie.as_str(), name);
            AddNext::Send(Adding::Create { cookie }, request)
        } else {
            AddNext::Failed(WgError::Auth(reply.status_text.clone()))
        },
        Adding::Create { cookie } => if ok {
            let request = list_request(host, cookie.as_str());
            AddNext::Send(Adding::List { cookie }, request)
        } else {
            AddNext::Failed(WgError::Create(reply.status_text.clone()))
        },
        Adding::List { cookie } => if ok {
            match find_client(reply.body.as_slice(), name) {
                Ok(id) => {
                    let request = config_request(host, cookie.as_str(), id.as_str());
                    AddNext::Send(Adding::Config { cookie, id }, request)
                },
                Err(e) => AddNext::Failed(e),
            }
        } else {
            AddNext::Failed(WgError::List(reply.status_text.clone()))
        },
        Adding::Config { cookie: _, id } => if ok {
            AddNext::Done { id, config: reply.text.clone() }
        } else {
            AddNext::Failed(WgError::Config(reply.status_text.clone()))
        },
    }
}

/// How many replies are still needed.
pub open spec fn replies_needed(state: AddingView) -> int {
    match state {
        AddingView::Login => 4,
        AddingView::Create { .. } => 3,
        AddingView::List { .. } => 2,
        AddingView::Config { .. } => 1,
    }
}

/// Adding a client comes to an end: each reply leads to an end, or to a state
/// that needs one reply less. Once logged in, every request carries the
/// session, which stays the same.
pub proof fn lemma_adding_ends(
    state: AddingView,
    host: Seq<char>,
    name: Seq<char>,
    reply: WgReplyView,
)
    ensures
        added(state, host, name, reply) matches AddNextView::Send(next, request) ==> {
            &&& replies_needed(next) == replies_needed(state) - 1
            &&& request.cookie is Some
            &&& (match state {
                AddingView::Login => request.cookie == Some(cookie_of(reply.cookies)),
                AddingView::Create { cookie } => request.cookie == Some(cookie),
                AddingView::List { cookie } => request.cookie == Some(cookie),
                AddingView::Config { cookie, .. } => request.cookie == Some(cookie),
            })
            &&& (match next {
                AddingView::Login => false,
                AddingView::Create { cookie } => request.cookie == Some(cookie),
                AddingView::List { cookie } => request.cookie == Some(cookie),
                AddingView::Config { cookie, .. } => request.cookie == Some(cookie),
            })
        },
        added(state, host, name, reply) is Done ==> replies_needed(state) == 1,
        !successful(reply.status) ==> added(state, host, name, reply) is Failed,
{
}

// ---------------------------------------------------------------------------
// Taking a client out
// ---------------------------------------------------------------------------

/// How far taking a client out has come: which reply is waited for.
#[derive(Clone, Copy, PartialEq, Eq, Structural)]
pub enum Removing {
    /// To the login.
    Login,
    /// To the removal.
    Delete,
}

/// What comes after a reply.
pub enum RemoveNext {
    /// Another request, and waiting for its reply.
    Send(Removing, WgRequest),
    /// Nothing: the client is out.
    Done,
    /// Nothing: it could not be done.
    Failed(WgError),
}

/// What a [`RemoveNext`] holds.
pub enum RemoveNextView {
    Send(Removing, WgRequestView),
    Done,
    Failed(WgErrorView),
}

impl View for RemoveNext {
    type V = RemoveNextView;

    open spec fn view(&self) -> RemoveNextView {
        match self {
            RemoveNext::Send(state, request) => RemoveNextView::Send(*state, request@),
            RemoveNext::Done => RemoveNextView::Done,
            RemoveNext::Failed(e) => RemoveNextView::Failed(e@),
        }
    }
}

/// What comes after a reply while a client is being taken out.
pub open spec fn removed(
    state: Removing,
    host: Seq<char>,
    id: Seq<char>,
    reply: WgReplyView,
) -> RemoveNextView {
    let ok = successful(reply.status);
    match state {
        Removing::Login => if ok {
            RemoveNextView::Send(
                Removing::Delete,
                delete_request_of(host, cookie_of(reply.cookies), id),
            )
        } else {
            RemoveNextView::Failed(WgErrorView::Auth(reply.status_text))
        },
        Removing::Delete => if ok {
            RemoveNextView::Done
        } else {
            RemoveNextView::Failed(WgErrorView::Delete(reply.status_text))
        },
    }
}

/// The first request of taking a client out.
pub fn begin_removing(host: &str, password: &str) -> (r: (Removing, WgRequest))
    ensures
        r.0 == Removing::Login,
        r.1@ == login_request_of(host@, password@),
{
    (Removing::Login, login_request(host, password))
}

/// What comes after a reply while a client is being taken out.
pub fn remove_step(state: Removing, host: &str, id: &str, reply: &WgReply) -> (r: RemoveNext)
    ensures
        r@ == removed(state, host@, id@, reply@),
{
    let ok = is_success(reply.status);
    match state {
        Removing::Login => if ok {
            let cookie = cookie_header(&reply.cookies);
            RemoveNext::Send(Removing::Delete, delete_request(host, cookie.as_str(), id))
        } else {
            RemoveNext::Failed(WgError::Auth(reply.status_text.clone()))
        },
        Removing::Delete => if ok {
            RemoveNext::Done
        } else {
            RemoveNext::Failed(WgError::Delete(reply.status_text.clone()))
        },
    }
}

// ---------------------------------------------------------------------------
// What always holds
// ---------------------------------------------------------------------------

/// One more cookie puts its pair, which ends before the first semicolon,
/// behind the others; one that cannot be read changes nothing.
pub proof fn lemma_cookie_grows(
    values: Seq<Option<Seq<char>>>,
    pair: Seq<char>,
    attributes: Seq<char>,
)
    requires
        !pair.contains(';'),
    ensures
        ({
            let shown = cookie_of(values);
            let readable = exists|i: int|
                0 <= i < values.len() && (#[trigger] values[i]) is Some;
            &&& cookie_of(Seq::<Option<Seq<char>>>::empty()) == Seq::<char>::empty()
            &&& cookie_of(values.push(Some(pair + seq![';'] + attributes))) == (if readable {
                shown + "; "@ + trimmed(pair)
            } else {
                trimmed(pair)
            })
            &&& cookie_of(values.push(Some(pair))) == (if readable {
                shown + "; "@ + trimmed(pair)
            } else {
                trimmed(pair)
            })
            &&& cookie_of(values.push(None)) == shown
        }),
{
    let value = pair + seq![';'] + attributes;
    assert forall|j: int| 0 <= j < pair.len() implies pair[j] != ';' by {
        assert(pair.contains(pair[j]));
    }
    lemma_find_char(value, ';', pair.len() as int);
    lemma_find_char(pair, ';', pair.len() as int);
    assert(value.take(pair.len() as int) =~= pair);
    assert(pieces(value, ';')[0] == pair);
    assert(pieces(pair, ';')[0] == pair);
    assert(values.push(Some(value)).drop_last() =~= values);
    assert(values.push(Some(pair)).drop_last() =~= values);
    assert(values.push(None).drop_last() =~= values);
    lemma_join_push(cookie_pairs(values), "; "@, trimmed(pair));
    lemma_readable(values);
}

/// There are pairs if and only if some cookie can be read.
proof fn lemma_readable(values: Seq<Option<Seq<char>>>)
    ensures
        cookie_pairs(values).len() > 0 <==> exists|i: int|
            0 <= i < values.len() && (#[trigger] values[i]) is Some,
    decreases values.len(),
{
    if values.len() > 0 {
        let front = values.drop_last();
        lemma_readable(front);
        if values.last() is Some {
            assert(values[values.len() - 1] is Some);
        }
        if exists|i: int| 0 <= i < values.len() && (#[trigger] values[i]) is Some {
            let i = choose|i: int| 0 <= i < values.len() && (#[trigger] values[i]) is Some;
            if i < front.len() {
                assert(front[i] is Some);
            }
        }
        if exists|i: int| 0 <= i < front.len() && (#[trigger] front[i]) is Some {
            let i = choose|i: int| 0 <= i < front.len() && (#[trigger] front[i]) is Some;
            assert(values[i] is Some);
        }
    }
}

/// A name is found at its first place.
pub proof fn lemma_name_at(names: Seq<Option<Seq<char>>>, name: Seq<char>)
    ensures
        0 <= name_at(names, name) <= names.len(),
        name_at(names, name) < names.len() ==> names[name_at(names, name)] == Some(name),
        forall|j: int| 0 <= j < name_at(names, name) ==> #[trigger] names[j] != Some(name),
    decreases names.len(),
{
    if names.len() > 0 && names[0] != Some(name) {
        let rest = names.drop_first();
        lemma_name_at(rest, name);
        assert forall|j: int| 0 <= j < name_at(names, name) implies #[trigger] names[j] != Some(
            name,
        ) by {
            if j > 0 {
                assert(rest[j - 1] == names[j]);
            }
        }
    }
}

/// The identifier that is found for a name is the one of the first client in
/// the list that has the name; it is missed only where the list has no such
/// client, or that one no identifier.
pub proof fn lemma_client_found(body: Seq<u8>, name: Seq<char>)
    ensures
        client_id_in(body, name) matches Ok(id) ==> {
            let names = texts_at(body, ""@, "name"@);
            &&& names is Some
            &&& exists|i: int|
                0 <= i < names->0.len() && #[trigger] names->0[i] == Some(name) && text_at(
                    body,
                    "/"@ + decimal(i as nat) + "/id"@,
                ) == Some(id) && forall|j: int|
                    0 <= j < i ==> #[trigger] names->0[j] != Some(name)
        },
        client_id_in(body, name) == Err::<Seq<char>, WgErrorView>(WgErrorView::NotFound) ==> {
            let names = texts_at(body, ""@, "name"@);
            names is Some && !names->0.contains(Some(name))
        },
        client_id_in(body, name) == Err::<Seq<char>, WgErrorView>(WgErrorView::NotAList)
            ==> texts_at(body, ""@, "name"@) is None,
        client_id_in(body, name) == Err::<Seq<char>, WgErrorView>(WgErrorView::Decode)
            <==> !json_valid(body),
{
    let names = texts_at(body, ""@, "name"@);
    if let Some(list) = names {
        lemma_name_at(list, name);
        let i = name_at(list, name);
        if i < list.len() {
            assert(list[i] == Some(name));
        }
    }
}

/// What is asked of the tunnel's manager to add a client: to make one with the
/// name, then to list all, then for the configuration of the one with the name.
/// At the end the client and the configuration that came are given. Each
/// refusal is told with the manager's own words.
pub proof fn lemma_adding_asks(
    state: AddingView,
    host: Seq<char>,
    name: Seq<char>,
    reply: WgReplyView,
)
    ensures
        ({
            let next = added(state, host, name, reply);
            let fine = 200 <= reply.status && reply.status <= 299;
            let clients = "http://"@ + host + "/api/wireguard/client"@;
            &&& match state {
                AddingView::Login => {
                    &&& fine ==> (next matches AddNextView::Send(state2, request) && state2 is Create
                        && request.method == Method::Post && request.url == clients
                        && request.body is Some && request.body->0.has(
                        "name"@,
                        JsonView::Text(name),
                    ))
                    &&& !fine ==> next == AddNextView::Failed(WgErrorView::Auth(reply.status_text))
                },
                AddingView::Create { .. } => {
                    &&& fine ==> (next matches AddNextView::Send(state2, request) && state2 is List
                        && request.method == Method::Get && request.url == clients
                        && request.body is None)
                    &&& !fine ==> next == AddNextView::Failed(WgErrorView::Create(reply.status_text))
                },
                AddingView::List { .. } => {
                    &&& fine ==> match client_id_in(reply.body, name) {
                        Ok(id) => next matches AddNextView::Send(state2, request)
                            && state2 is Config && state2->Config_id == id && request.method
                            == Method::Get && request.url == "http://"@ + host
                            + "/api/wireguard/client/"@ + id + "/configuration"@
                            && request.body is None,
                        Err(e) => next == AddNextView::Failed(e),
                    }
                    &&& !fine ==> next == AddNextView::Failed(WgErrorView::List(reply.status_text))
                },
                AddingView::Config { id, .. } => {
                    &&& fine ==> next == (AddNextView::Done { id, config: reply.text })
                    &&& !fine ==> next == AddNextView::Failed(WgErrorView::Config(reply.status_text))
                },
            }
        }),
{
    let e = JsonView::object();
    lemma_with(e, "name"@, JsonView::Text(name));
    if state is List {
        if let Ok(id) = client_id_in(reply.body, name) {
            assert("http://"@ + host + ("/api/wireguard/client/"@ + id) + "/configuration"@
                =~= "http://"@ + host + "/api/wireguard/client/"@ + id + "/configuration"@);
        }
    }
}

/// What is asked of the tunnel's manager to remove a client, once it has let
/// the hub in: to delete the client with the identifier, under the cookie that
/// came with the reply. Nothing else is asked, and each refusal is told with
/// the manager's own words.
pub proof fn lemma_removing_asks(
    state: Removing,
    host: Seq<char>,
    id: Seq<char>,
    reply: WgReplyView,
)
    ensures
        ({
            let next = removed(state, host, id, reply);
            let fine = 200 <= reply.status && reply.status <= 299;
            &&& state == Removing::Login && fine ==> (next matches RemoveNextView::Send(
                state2,
                request,
            ) && state2 == Removing::Delete && request.method == Method::Delete && request.url
                == "http://"@ + host + "/api/wireguard/client/"@ + id && request.cookie == Some(
                cookie_of(reply.cookies),
            ) && request.body is None)
            &&& state == Removing::Delete && fine ==> next is Done
            &&& state == Removing::Login && !fine ==> next == RemoveNextView::Failed(
                WgErrorView::Auth(reply.status_text),
            )
            &&& state == Removing::Delete && !fine ==> next == RemoveNextView::Failed(
                WgErrorView::Delete(reply.status_text),
            )
        }),
{
    assert("http://"@ + host + ("/api/wireguard/client/"@ + id) =~= "http://"@ + host
        + "/api/wireguard/client/"@ + id);
}

/// The hub is let in with the password, and with nothing else.
pub proof fn lemma_login_asks(host: Seq<char>, password: Seq<char>)
    ensures
        ({
            let request = login_request_of(host, password);
            &&& request.method == Method::Post
            &&& request.url == "http://"@ + host + "/api/session"@
            &&& request.cookie is None
            &&& request.body is Some
            &&& request.body->0.has("password"@, JsonView::Text(password))
        }),
{
    lemma_with(JsonView::object(), "password"@, JsonView::Text(password));
}

} // verus!
