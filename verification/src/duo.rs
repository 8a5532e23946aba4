//! Asking Duo for a second factor: signing the request, judging the reply.

use base64::Engine;
use hmac::Mac;
use vstd::prelude::*;
use vstd::utf8::encode_utf8;

use crate::json::{json_at, json_node, json_valid, read_text, text_at, JsonNode, JsonNodeView};
use crate::message::opt_text;
use crate::text::{
    chars_of, hex, hex_digit, hex_digit_of, is_digit, join, join_all, joined,
    lemma_join_comes_apart, lowercase, pieces, same_text, texts, to_hex, to_lowercase,
};

verus! {

/// What the hub knows of its Duo account.
pub struct DuoConfig {
    /// The integration key.
    pub ikey: String,
    /// The secret key.
    pub skey: String,
    /// The host of the API.
    pub host: String,
}

/// What Duo decided.
pub struct DuoAuthResult {
    /// Whether the user may go on.
    pub allowed: bool,
    /// Duo's word for it.
    pub status: String,
}

/// What a [`DuoConfig`] holds.
#[verifier::ext_equal]
pub struct DuoConfigView {
    pub ikey: Seq<char>,
    pub skey: Seq<char>,
    pub host: Seq<char>,
}

/// What a [`DuoAuthResult`] holds.
#[verifier::ext_equal]
pub struct DuoAuthView {
    pub allowed: bool,
    pub status: Seq<char>,
}

impl View for DuoConfig {
    type V = DuoConfigView;

    open spec fn view(&self) -> DuoConfigView {
        DuoConfigView { ikey: self.ikey@, skey: self.skey@, host: self.host@ }
    }
}

impl View for DuoAuthResult {
    type V = DuoAuthView;

    open spec fn view(&self) -> DuoAuthView {
        DuoAuthView { allowed: self.allowed, status: self.status@ }
    }
}

/// The configuration, if all three settings are there and none is empty.
pub fn load_duo_config(ikey: Option<String>, skey: Option<String>, host: Option<String>) -> (r:
    Option<DuoConfig>)
    ensures
        r is Some <==> {
            &&& ikey is Some && ikey->0@.len() > 0
            &&& skey is Some && skey->0@.len() > 0
            &&& host is Some && host->0@.len() > 0
        },
        r matches Some(c) ==> c@ == (DuoConfigView {
            ikey: ikey->0@,
            skey: skey->0@,
            host: host->0@,
        }),
{
    match (ikey, skey, host) {
        (Some(ikey), Some(skey), Some(host)) => {
            if ikey.as_str().is_empty() || skey.as_str().is_empty() || host.as_str().is_empty() {
                None
            } else {
                Some(DuoConfig { ikey, skey, host })
            }
        },
        _ => None,
    }
}

// ---------------------------------------------------------------------------
// Percent encoding
// ---------------------------------------------------------------------------

/// Whether `c` stands for itself in an encoded text.
pub open spec fn unreserved(c: char) -> bool {
    ||| 'a' <= c <= 'z'
    ||| 'A' <= c <= 'Z'
    ||| '0' <= c <= '9'
    ||| c == '-' || c == '_' || c == '.' || c == '~'
}

/// `c` encoded: itself, or a percent sign and the two hexadecimal digits of
/// the low byte of its code.
pub open spec fn percent_char(c: char) -> Seq<char> {
    if unreserved(c) {
        seq![c]
    } else {
        let low = c as u32 as int % 256;
        seq!['%', hex_digit(low / 16, 'A'), hex_digit(low % 16, 'A')]
    }
}

/// `s` encoded, character by character.
pub open spec fn percent_encoded(s: Seq<char>) -> Seq<char>
    decreases s.len(),
{
    if s.len() == 0 {
        seq![]
    } else {
        percent_encoded(s.drop_last()) + percent_char(s.last())
    }
}

/// `s` encoded for a query.
pub fn percent_encode(s: &str) -> (r: String)
    ensures
        r@ == percent_encoded(s@),
{
    let chars = chars_of(s);
    let mut out = String::new();
    assert(s@.take(0) =~= seq![]);
    for i in 0..chars.len()
        invariant
            chars@ == s@,
            out@ == percent_encoded(s@.take(i as int)),
    {
        let c = chars[i];
        let ghost before = out@;
        assert(s@.take(i + 1).drop_last() =~= s@.take(i as int));
        if ('a' <= c && c <= 'z') || ('A' <= c && c <= 'Z') || ('0' <= c && c <= '9') || c == '-'
            || c == '_' || c == '.' || c == '~' {
            out.push(c);
            assert(out@ =~= before + percent_char(c));
        } else {
            let low: u8 = (c as u32 % 256) as u8;
            out.push('%');
            out.push(hex_digit_of(low / 16, 'A'));
            out.push(hex_digit_of(low % 16, 'A'));
            assert(out@ =~= before + percent_char(c));
        }
    }
    assert(s@.take(s@.len() as int) =~= s@);
    out
}

/// An encoded text holds only unreserved characters and percent signs.
pub proof fn lemma_percent_encoded_safe(s: Seq<char>)
    ensures
        forall|i: int|
            0 <= i < percent_encoded(s).len() ==> unreserved(#[trigger] percent_encoded(s)[i])
                || percent_encoded(s)[i] == '%',
    decreases s.len(),
{
    if s.len() > 0 {
        let front = percent_encoded(s.drop_last());
        let back = percent_char(s.last());
        lemma_percent_encoded_safe(s.drop_last());
        assert forall|i: int| 0 <= i < percent_encoded(s).len() implies unreserved(
            #[trigger] percent_encoded(s)[i],
        ) || percent_encoded(s)[i] == '%' by {
            if i < front.len() {
                assert(percent_encoded(s)[i] == front[i]);
            } else {
                assert(percent_encoded(s)[i] == back[i - front.len()]);
            }
        }
    }
}

// ---------------------------------------------------------------------------
// Signing
// ---------------------------------------------------------------------------

/// The HMAC with SHA-1 of a message under a key.
pub uninterp spec fn hmac_sha1(key: Seq<u8>, message: Seq<u8>) -> Seq<u8>;

/// Calls `hmac::Hmac::<sha1::Sha1>`: `new_from_slice`, which takes a key of
/// any length, then `update` and `finalize`. The code is only named; it is 20
/// bytes long, as every SHA-1 code.
#[verifier::external_body]
fn hmac_sha1_of(key: &[u8], message: &[u8]) -> (r: Vec<u8>)
    ensures
        r@ == hmac_sha1(key@, message@),
        r@.len() == 20,
{
    let mut mac = hmac::Hmac::<sha1::Sha1>::new_from_slice(key).expect("a key of any length");
    mac.update(message);
    mac.finalize().into_bytes().to_vec()
}

/// The character of the standard base64 alphabet for six bits.
pub open spec fn base64_char(v: int) -> char {
    if v < 26 {
        ((65 + v) as u32) as char
    } else if v < 52 {
        ((97 + v - 26) as u32) as char
    } else if v < 62 {
        ((48 + v - 52) as u32) as char
    } else if v == 62 {
        '+'
    } else {
        '/'
    }
}

/// Standard base64 with padding: four characters for every three bytes.
pub open spec fn base64_text(b: Seq<u8>) -> Seq<char>
    decreases b.len(),
{
    if b.len() == 0 {
        seq![]
    } else if b.len() == 1 {
        seq![base64_char(b[0] as int / 4), base64_char(b[0] as int % 4 * 16), '=', '=']
    } else if b.len() == 2 {
        seq![
            base64_char(b[0] as int / 4),
            base64_char(b[0] as int % 4 * 16 + b[1] as int / 16),
            base64_char(b[1] as int % 16 * 4),
            '=',
        ]
    } else {
        seq![
            base64_char(b[0] as int / 4),
            base64_char(b[0] as int % 4 * 16 + b[1] as int / 16),
            base64_char(b[1] as int % 16 * 4 + b[2] as int / 64),
            base64_char(b[2] as int % 64),
        ] + base64_text(b.skip(3))
    }
}

/// Calls `base64::engine::general_purpose::STANDARD.encode`, which writes the
/// standard alphabet with padding.
#[verifier::external_body]
fn base64_of(bytes: &[u8]) -> (r: String)
    ensures
        r@ == base64_text(bytes@),
{
    base64::engine::general_purpose::STANDARD.encode(bytes)
}

/// What is signed: date, method, host, path and parameters, a line each.
pub open spec fn canonical(
    date: Seq<char>,
    method: Seq<char>,
    host: Seq<char>,
    path: Seq<char>,
    params: Seq<char>,
) -> Seq<char> {
    join(seq![date, method, host, path, params], "\n"@)
}

/// The header that carries a code.
pub open spec fn basic_header(ikey: Seq<char>, code: Seq<u8>) -> Seq<char> {
    "Basic "@ + base64_text(encode_utf8(ikey + ":"@ + hex(code)))
}

/// The header that signs a request.
pub open spec fn duo_signature(
    ikey: Seq<char>,
    skey: Seq<char>,
    date: Seq<char>,
    method: Seq<char>,
    host: Seq<char>,
    path: Seq<char>,
    params: Seq<char>,
) -> Seq<char> {
    basic_header(
        ikey,
        hmac_sha1(encode_utf8(skey), encode_utf8(canonical(date, method, host, path, params))),
    )
}

/// What is signed: date, method, host, path and parameters, a line each.
pub fn canonical_request(date: &str, method: &str, host: &str, path: &str, params: &str) -> (r:
    String)
    ensures
        r@ == canonical(date@, method@, host@, path@, params@),
{
    let mut parts: Vec<String> = Vec::new();
    parts.push(date.to_string());
    parts.push(method.to_string());
    parts.push(host.to_string());
    parts.push(path.to_string());
    parts.push(params.to_string());
    assert(texts(parts@) =~= seq![date@, method@, host@, path@, params@]);
    join_all(&parts, "\n")
}

/// The header that carries a code.
pub fn authorization_header(ikey: &str, code: &[u8]) -> (r: String)
    ensures
        r@ == basic_header(ikey@, code@),
{
    let mut plain = joined(ikey, ":");
    let digits = to_hex(code);
    plain.append(digits.as_str());
    let encoded = base64_of(plain.as_str().as_bytes());
    joined("Basic ", encoded.as_str())
}

/// The header that signs a request.
pub fn duo_sign(
    ikey: &str,
    skey: &str,
    date: &str,
    method: &str,
    host: &str,
    path: &str,
    params: &str,
) -> (r: String)
    ensures
        r@ == duo_signature(ikey@, skey@, date@, method@, host@, path@, params@),
        hmac_sha1(
            encode_utf8(skey@),
            encode_utf8(canonical(date@, method@, host@, path@, params@)),
        ).len() == 20,
{
    let canon = canonical_request(date, method, host, path, params);
    let code = hmac_sha1_of(skey.as_bytes(), canon.as_str().as_bytes());
    authorization_header(ikey, code.as_slice())
}

// ---------------------------------------------------------------------------
// The request
// ---------------------------------------------------------------------------

/// How Duo wants its dates.
pub const DATE_FORMAT: &'static str = "%a, %d %b %Y %H:%M:%S %z";

/// How many seconds a user may take to answer a push.
pub const PUSH_TIMEOUT_SECS: u64 = 120;

/// A request for a push to a user's device.
pub struct PushRequest {
    /// Where to post it.
    pub url: String,
    /// The date that was signed.
    pub date: String,
    /// The signature.
    pub authorization: String,
    /// The fields of the form.
    pub form: Vec<(String, String)>,
}

/// What a [`PushRequest`] holds.
#[verifier::ext_equal]
pub struct PushRequestView {
    pub url: Seq<char>,
    pub date: Seq<char>,
    pub authorization: Seq<char>,
    pub form: Seq<(Seq<char>, Seq<char>)>,
}

impl View for PushRequest {
    type V = PushRequestView;

    open spec fn view(&self) -> PushRequestView {
        PushRequestView {
            url: self.url@,
            date: self.date@,
            authorization: self.authorization@,
            form: self.form@.map_values(|f: (String, String)| (f.0@, f.1@)),
        }
    }
}

/// The request for a push to a user, signed at a date.
pub open spec fn push_request_at(
    config: DuoConfigView,
    username: Seq<char>,
    date: Seq<char>,
) -> PushRequestView {
    PushRequestView {
        url: "https://"@ + config.host + "/auth/v2/auth"@,
        date,
        authorization: duo_signature(
            config.ikey,
            config.skey,
            date,
            "POST"@,
            lowercase(config.host),
            "/auth/v2/auth"@,
            "device=auto&factor=push&username="@ + percent_encoded(username),
        ),
        form: seq![
            ("factor"@, "push"@),
            ("device"@, "auto"@),
            ("username"@, username),
        ],
    }
}

/// The request for a push to a user, signed at a date.
pub fn push_request(config: &DuoConfig, username: &str, date: &str) -> (r: PushRequest)
    ensures
        r@ == push_request_at(config@, username@, date@),
{
    let path = "/auth/v2/auth";
    let encoded = percent_encode(username);
    let params = joined("device=auto&factor=push&username=", encoded.as_str());
    let host = to_lowercase(config.host.as_str());
    let authorization = duo_sign(
        config.ikey.as_str(),
        config.skey.as_str(),
        date,
        "POST",
        host.as_str(),
        path,
        params.as_str(),
    );
    let mut url = joined("https://", config.host.as_str());
    url.append(path);
    let mut form: Vec<(String, String)> = Vec::new();
    form.push(("factor".to_string(), "push".to_string()));
    form.push(("device".to_string(), "auto".to_string()));
    form.push(("username".to_string(), username.to_string()));
    let r = PushRequest { url, date: date.to_string(), authorization, form };
    assert(r@.form =~= push_request_at(config@, username@, date@).form);
    r
}

/// Whether `c` is a letter of ASCII.
pub open spec fn is_letter(c: char) -> bool {
    'a' <= c <= 'z' || 'A' <= c <= 'Z'
}

/// Whether a text has the shape of a date in universal time, whatever the
/// clock says: `Www, dd Mmm yyyy hh:mm:ss +0000`. A year of more than four
/// digits has a plus sign and makes it longer.
pub open spec fn date_shape(s: Seq<char>) -> bool {
    let n = s.len() as int;
    &&& n >= 31
    &&& forall|i: int| 0 <= i < 3 ==> is_letter(#[trigger] s[i])
    &&& s[3] == ',' && s[4] == ' '
    &&& is_digit(s[5]) && is_digit(s[6]) && s[7] == ' '
    &&& forall|i: int| 8 <= i < 11 ==> is_letter(#[trigger] s[i])
    &&& s[11] == ' '
    &&& is_digit(s[12]) || (s[12] == '+' && n > 31)
    &&& forall|i: int| 13 <= i < n - 15 ==> is_digit(#[trigger] s[i])
    &&& s[n - 15] == ' '
    &&& is_digit(s[n - 14]) && is_digit(s[n - 13]) && s[n - 12] == ':'
    &&& is_digit(s[n - 11]) && is_digit(s[n - 10]) && s[n - 9] == ':'
    &&& is_digit(s[n - 8]) && is_digit(s[n - 7])
    &&& s.skip(n - 6) == " +0000"@
}

/// Calls `chrono::Utc::now` and `DateTime::format`. Which date it is depends
/// on the clock; what is claimed is the shape that the format gives to every
/// date.
#[verifier::external_body]
fn date_now(format: &str) -> (r: String)
    requires
        format@ == DATE_FORMAT@,
    ensures
        date_shape(r@),
{
    chrono::Utc::now().format(format).to_string()
}

/// The request for a push to a user, signed now.
pub fn auth_push_request(config: &DuoConfig, username: &str) -> (r: PushRequest)
    ensures
        r@ == push_request_at(config@, username@, r@.date),
        date_shape(r@.date),
{
    let date = date_now(DATE_FORMAT);
    push_request(config, username, date.as_str())
}

// ---------------------------------------------------------------------------
// The reply
// ---------------------------------------------------------------------------

/// How a member of the reply reads.
pub enum Member {
    Missing,
    NotText,
    Text(String),
}

/// What a [`Member`] holds.
pub enum MemberView {
    Missing,
    NotText,
    Text(Seq<char>),
}

impl View for Member {
    type V = MemberView;

    open spec fn view(&self) -> MemberView {
        match self {
            Member::Missing => MemberView::Missing,
            Member::NotText => MemberView::NotText,
            Member::Text(s) => MemberView::Text(s@),
        }
    }
}

/// What the hub reads of Duo's reply.
pub struct DuoReply {
    /// Whether it is JSON.
    pub valid: bool,
    /// The text under `stat`.
    pub stat: Option<String>,
    /// The text under `message`.
    pub message: Option<String>,
    /// The members `result` and `status` of the object under `response`.
    pub response: Option<(Member, Member)>,
}

/// What a [`DuoReply`] holds.
#[verifier::ext_equal]
pub struct DuoReplyView {
    pub valid: bool,
    pub stat: Option<Seq<char>>,
    pub message: Option<Seq<char>>,
    pub response: Option<(MemberView, MemberView)>,
}

impl View for DuoReply {
    type V = DuoReplyView;

    open spec fn view(&self) -> DuoReplyView {
        DuoReplyView {
            valid: self.valid,
            stat: opt_text(self.stat),
            message: opt_text(self.message),
            response: match self.response {
                Some(m) => Some((m.0@, m.1@)),
                None => None,
            },
        }
    }
}

/// Why no decision could be had.
pub enum DuoError {
    /// The request failed.
    Unreachable,
    /// The reply is no JSON.
    Unreadable,
    /// Duo reports an error.
    Api(String),
    /// The reply has no `response` object.
    NoResponse,
}

/// What a [`DuoError`] holds.
pub enum DuoErrorView {
    Unreachable,
    Unreadable,
    Api(Seq<char>),
    NoResponse,
}

impl View for DuoError {
    type V = DuoErrorView;

    open spec fn view(&self) -> DuoErrorView {
        match self {
            DuoError::Unreachable => DuoErrorView::Unreachable,
            DuoError::Unreadable => DuoErrorView::Unreadable,
            DuoError::Api(s) => DuoErrorView::Api(s@),
            DuoError::NoResponse => DuoErrorView::NoResponse,
        }
    }
}

impl DuoErrorView {
    /// The error in words.
    pub open spec fn text(self) -> Seq<char> {
        match self {
            DuoErrorView::Unreachable => "Duo API request failed"@,
            DuoErrorView::Unreadable => "Failed to parse Duo response"@,
            DuoErrorView::Api(message) => "Duo API error: "@ + message,
            DuoErrorView::NoResponse => "Duo response missing 'response' field"@,
        }
    }
}

impl DuoError {
    /// The error in words.
    pub fn text(&self) -> (r: String)
        ensures
            r@ == self@.text(),
    {
        match self {
            DuoError::Unreachable => "Duo API request failed".to_string(),
            DuoError::Unreadable => "Failed to parse Duo response".to_string(),
            DuoError::Api(message) => joined("Duo API error: ", message.as_str()),
            DuoError::NoResponse => "Duo response missing 'response' field".to_string(),
        }
    }
}

/// What a decision or an error holds.
pub open spec fn judgement_view(r: Result<DuoAuthResult, DuoError>) -> Result<
    DuoAuthView,
    DuoErrorView,
> {
    match r {
        Ok(a) => Ok(a@),
        Err(e) => Err(e@),
    }
}

impl DuoReplyView {
    /// Whether the reply has both members where it has a response at all.
    pub open spec fn complete(self) -> bool {
        self.valid && self.stat == Some("OK"@) ==> {
            self.response matches Some(m) ==> m.0 !is Missing && m.1 !is Missing
        }
    }

    /// What the reply decides.
    pub open spec fn judgement(self) -> Result<DuoAuthView, DuoErrorView> {
        if !self.valid {
            Err(DuoErrorView::Unreadable)
        } else if self.stat != Some("OK"@) {
            Err(
                DuoErrorView::Api(
                    match self.message {
                        Some(message) => message,
                        None => "unknown error"@,
                    },
                ),
            )
        } else {
            match self.response {
                None => Err(DuoErrorView::NoResponse),
                Some(m) => Ok(
                    DuoAuthView {
                        allowed: m.0 == MemberView::Text("allow"@),
                        status: match m.1 {
                            MemberView::Text(s) => s,
                            _ => "unknown"@,
                        },
                    },
                ),
            }
        }
    }
}

/// What the reply decides.
pub fn judge(reply: &DuoReply) -> (r: Result<DuoAuthResult, DuoError>)
    requires
        reply@.complete(),
    ensures
        judgement_view(r) == reply@.judgement(),
{
    if !reply.valid {
        return Err(DuoError::Unreadable);
    }
    let ok = match &reply.stat {
        Some(stat) => same_text(stat.as_str(), "OK"),
        None => false,
    };
    if !ok {
        return Err(
            DuoError::Api(
                match &reply.message {
                    Some(message) => message.clone(),
                    None => "unknown error".to_string(),
                },
            ),
        );
    }
    match &reply.response {
        None => Err(DuoError::NoResponse),
        Some(members) => {
            let allowed = match &members.0 {
                Member::Text(s) => same_text(s.as_str(), "allow"),
                _ => false,
            };
            let status = match &members.1 {
                Member::Text(s) => s.clone(),
                _ => "unknown".to_string(),
            };
            Ok(DuoAuthResult { allowed, status })
        },
    }
}

/// How the member at a pointer reads.
pub open spec fn member_at(body: Seq<u8>, pointer: Seq<char>) -> MemberView {
    match json_node(body, pointer) {
        None => MemberView::Missing,
        Some(JsonNodeView::Text(s)) => MemberView::Text(s),
        Some(_) => MemberView::NotText,
    }
}

/// What the hub reads of a reply.
pub open spec fn duo_reply(body: Seq<u8>) -> DuoReplyView {
    DuoReplyView {
        valid: json_valid(body),
        stat: text_at(body, "/stat"@),
        message: text_at(body, "/message"@),
        response: if json_node(body, "/response"@) == Some(JsonNodeView::Object) {
            Some((member_at(body, "/response/result"@), member_at(body, "/response/status"@)))
        } else {
            None
        },
    }
}

fn read_member(body: &[u8], pointer: &str) -> (r: Member)
    ensures
        r@ == member_at(body@, pointer@),
{
    match json_at(body, pointer) {
        None => Member::Missing,
        Some(JsonNode::Text(s)) => Member::Text(s),
        Some(_) => Member::NotText,
    }
}

/// What the hub reads of a reply.
pub fn read_duo_reply(body: &[u8]) -> (r: DuoReply)
    ensures
        r@ == duo_reply(body@),
{
    let response = match json_at(body, "/response") {
        Some(JsonNode::Object) => Some(
            (read_member(body, "/response/result"), read_member(body, "/response/status")),
        ),
        _ => None,
    };
    DuoReply {
        valid: json_at(body, "").is_some(),
        stat: read_text(body, "/stat"),
        message: read_text(body, "/message"),
        response,
    }
}

/// What a reply decides; nothing where it has a response without one of the
/// two members that a decision needs.
pub fn auth_push_result(body: &[u8]) -> (r: Option<Result<DuoAuthResult, DuoError>>)
    ensures
        r is Some <==> duo_reply(body@).complete(),
        r matches Some(j) ==> judgement_view(j) == duo_reply(body@).judgement(),
{
    let reply = read_duo_reply(body);
    let decided = reply.valid && (match &reply.stat {
        Some(stat) => same_text(stat.as_str(), "OK"),
        None => false,
    });
    if decided {
        if let Some(members) = &reply.response {
            if let Member::Missing = members.0 {
                return None;
            }
            if let Member::Missing = members.1 {
                return None;
            }
        }
    }
    Some(judge(&reply))
}

// ---------------------------------------------------------------------------
// What always holds
// ---------------------------------------------------------------------------

/// Texts are encoded character by character: a letter, a digit and four marks
/// stand for themselves, any other character becomes a percent sign and two
/// hexadecimal digits in capitals, which give the low byte of its code.
pub proof fn lemma_percent_encoded(a: Seq<char>, b: Seq<char>, c: char)
    ensures
        percent_encoded(a + b) == percent_encoded(a) + percent_encoded(b),
        ({
            let one = percent_encoded(seq![c]);
            let code = c as u32 as int;
            let plain = 48 <= code <= 57 || 65 <= code <= 90 || 97 <= code <= 122 || c == '-' || c
                == '_' || c == '.' || c == '~';
            &&& plain ==> one == seq![c]
            &&& !plain ==> {
                let high = one[1] as u32 as int;
                let low = one[2] as u32 as int;
                &&& one.len() == 3
                &&& one[0] == '%'
                &&& 48 <= high <= 57 || 65 <= high <= 70
                &&& 48 <= low <= 57 || 65 <= low <= 70
                &&& code % 256 == 16 * (if high <= 57 {
                    high - 48
                } else {
                    high - 55
                }) + (if low <= 57 {
                    low - 48
                } else {
                    low - 55
                })
            }
        }),
    decreases b.len(),
{
    if b.len() > 0 {
        lemma_percent_encoded(a, b.drop_last(), c);
        assert((a + b).drop_last() =~= a + b.drop_last());
        assert(percent_encoded(a + b) =~= percent_encoded(a) + percent_encoded(b));
    } else {
        assert(a + b =~= a);
        assert(percent_encoded(a) + percent_encoded(b) =~= percent_encoded(a));
    }
    reveal_with_fuel(percent_encoded, 2);
    assert(seq![c].drop_last() =~= Seq::<char>::empty());
    assert(percent_encoded(seq![c]) =~= percent_char(c));
}

/// What is signed comes apart, line by line, into the date, the method, the
/// host, the path and the parameters.
pub proof fn lemma_canonical_lines(
    date: Seq<char>,
    method: Seq<char>,
    host: Seq<char>,
    path: Seq<char>,
    params: Seq<char>,
)
    requires
        !date.contains('\n'),
        !method.contains('\n'),
        !host.contains('\n'),
        !path.contains('\n'),
        !params.contains('\n'),
    ensures
        pieces(canonical(date, method, host, path, params), '\n') == seq![
            date,
            method,
            host,
            path,
            params,
        ],
{
    reveal_strlit("\n");
    assert("\n"@ =~= seq!['\n']);
    lemma_join_comes_apart(seq![date, method, host, path, params], '\n');
}

/// A request for a push is sent to the host that was set up, asks for the user
/// it was made for, and carries the date that was signed with it.
pub proof fn lemma_push_request(config: DuoConfigView, username: Seq<char>, date: Seq<char>)
    ensures
        ({
            let request = push_request_at(config, username, date);
            &&& request.date == date
            &&& request.url == "https://"@ + config.host + "/auth/v2/auth"@
            &&& request.form.contains(("username"@, username))
            &&& request.form.contains(("factor"@, "push"@))
            &&& request.form.contains(("device"@, "auto"@))
            &&& request.form.len() == 3
            &&& request.authorization == basic_header(
                config.ikey,
                hmac_sha1(
                    encode_utf8(config.skey),
                    encode_utf8(
                        canonical(
                            request.date,
                            "POST"@,
                            lowercase(config.host),
                            "/auth/v2/auth"@,
                            "device=auto&factor=push&username="@ + percent_encoded(username),
                        ),
                    ),
                ),
            )
        }),
{
    let form = push_request_at(config, username, date).form;
    assert(form[0] == ("factor"@, "push"@));
    assert(form[1] == ("device"@, "auto"@));
    assert(form[2] == ("username"@, username));
}

/// A user may go on if and only if the reply is JSON, says that all is well,
/// and has the word that allows it; every other reply is a refusal or an
/// error.
pub proof fn lemma_allowed_by_word(body: Seq<u8>)
    ensures
        ({
            let judgement = duo_reply(body).judgement();
            &&& (judgement is Ok && judgement->Ok_0.allowed) <==> json_valid(body) && text_at(
                body,
                "/stat"@,
            ) == Some("OK"@) && json_node(body, "/response"@) == Some(JsonNodeView::Object)
                && text_at(body, "/response/result"@) == Some("allow"@)
            &&& judgement is Ok ==> judgement->Ok_0.status == (match text_at(
                body,
                "/response/status"@,
            ) {
                Some(word) => word,
                None => "unknown"@,
            })
            &&& judgement is Ok <==> json_valid(body) && text_at(body, "/stat"@) == Some("OK"@)
                && json_node(body, "/response"@) == Some(JsonNodeView::Object)
            &&& judgement == Err::<DuoAuthView, DuoErrorView>(DuoErrorView::Unreadable)
                <==> !json_valid(body)
            &&& json_valid(body) && text_at(body, "/stat"@) != Some("OK"@) ==> judgement == Err::<
                DuoAuthView,
                DuoErrorView,
            >(
                DuoErrorView::Api(
                    match text_at(body, "/message"@) {
                        Some(message) => message,
                        None => "unknown error"@,
                    },
                ),
            )
        }),
{
}

} // verus!
