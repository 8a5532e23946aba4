//! The hub's HTTP: where a request ends, what it asks for, how a reply is
//! framed.

use vstd::prelude::*;
use vstd::slice::slice_subrange;
use vstd::utf8::{
    decode_utf8, decode_utf8_encode_utf8, encode_utf8, encode_utf8_decode_utf8,
    encode_utf8_valid_utf8, valid_utf8,
};

use crate::text::{
    begins, chars_of, decimal, digits_value, find, find_text, is_digit, joined, lemma_decimal_read_back,
    lemma_decimal_value, lemma_find_text, lemma_find_text_first, lemma_lines_front,
    lemma_trimmed_both, lemma_without_prefixes, lines, lists, lowercase, parse_unsigned,
    split_lines, starts_with, strip_prefixes, text_of, to_decimal, to_lowercase, trim, trimmed,
    unsigned, white_space, without_prefixes,
};

verus! {

// ---------------------------------------------------------------------------
// Bytes as text
// ---------------------------------------------------------------------------

/// What `String::from_utf8_lossy` makes of bytes that are not UTF-8.
pub uninterp spec fn replaced_utf8(bytes: Seq<u8>) -> Seq<char>;

/// Bytes as text, with replacement characters for what is not UTF-8.
pub open spec fn lossy(bytes: Seq<u8>) -> Seq<char> {
    if valid_utf8(bytes) {
        decode_utf8(bytes)
    } else {
        replaced_utf8(bytes)
    }
}

/// Calls `String::from_utf8_lossy`. UTF-8 is taken as it stands; of other
/// bytes the result is only named.
#[verifier::external_body]
pub(crate) fn lossy_text(bytes: &[u8]) -> (r: String)
    ensures
        valid_utf8(bytes@) ==> r@ == decode_utf8(bytes@),
        !valid_utf8(bytes@) ==> r@ == replaced_utf8(bytes@),
{
    String::from_utf8_lossy(bytes).into_owned()
}

/// Text behind text is encoded behind it.
pub proof fn lemma_encode_concat(a: Seq<char>, b: Seq<char>)
    ensures
        encode_utf8(a + b) == encode_utf8(a) + encode_utf8(b),
    decreases a.len(),
{
    if a.len() == 0 {
        assert(a + b =~= b);
        assert(encode_utf8(a) + encode_utf8(b) =~= encode_utf8(b));
    } else {
        lemma_encode_concat(a.drop_first(), b);
        assert((a + b).drop_first() =~= a.drop_first() + b);
        assert(encode_utf8(a + b) =~= encode_utf8(a) + encode_utf8(b));
    }
}

// ---------------------------------------------------------------------------
// Where a request ends
// ---------------------------------------------------------------------------

/// How many bytes of a request are read at most.
pub const CAPACITY: usize = 65536;

/// Where the header section of a request ends.
pub open spec fn header_end(text: Seq<char>) -> Option<int> {
    find_text(text, "\r\n\r\n"@)
}

/// Whether a line gives the length of the body.
pub open spec fn is_length_line(line: Seq<char>) -> bool {
    begins(lowercase(line), "content-length:"@)
}

/// The first of some lines that gives the length of the body.
pub open spec fn length_line(list: Seq<Seq<char>>) -> Option<Seq<char>>
    decreases list.len(),
{
    if list.len() == 0 {
        None
    } else if is_length_line(list[0]) {
        Some(list[0])
    } else {
        length_line(list.drop_first())
    }
}

/// The number that a line gives; zero where it cannot be read. Only the two
/// usual spellings of the name are taken off.
pub open spec fn line_number(line: Seq<char>) -> int {
    let value = trimmed(
        without_prefixes(without_prefixes(line, "Content-Length:"@), "content-length:"@),
    );
    match unsigned(value, usize::MAX as int) {
        Some(n) => n,
        None => 0,
    }
}

/// The length of the body that a header section declares; zero where it does
/// not.
pub open spec fn declared_length(header: Seq<char>) -> int {
    match length_line(lines(header)) {
        Some(line) => line_number(line),
        None => 0,
    }
}

/// How many bytes the header section takes with the blank line behind it.
pub open spec fn header_size(text: Seq<char>) -> int {
    match header_end(text) {
        Some(i) => encode_utf8(text.take(i)).len() as int + 4,
        None => 0,
    }
}

/// Whether all of a request has come: the header section, and behind it as
/// many bytes as it declares.
pub open spec fn received_all(text: Seq<char>, total: int) -> bool {
    match header_end(text) {
        Some(i) => total - header_size(text) >= declared_length(text.take(i)),
        None => false,
    }
}

/// The number that a line gives.
fn read_line_number(line: &[char]) -> (r: usize)
    ensures
        r == line_number(line@),
{
    let capital = chars_of("Content-Length:");
    let small = chars_of("content-length:");
    proof {
        reveal_strlit("Content-Length:");
        reveal_strlit("content-length:");
    }
    let once = strip_prefixes(line, capital.as_slice());
    let twice = strip_prefixes(once.as_slice(), small.as_slice());
    let value = trim(twice.as_slice());
    match parse_unsigned(value.as_slice(), usize::MAX as u64) {
        Some(n) => n as usize,
        None => 0,
    }
}

/// The length of the body that a header section declares.
pub fn content_length(header: &[char]) -> (r: usize)
    ensures
        r == declared_length(header@),
{
    let list = split_lines(header);
    let ghost views = lists(list@);
    let name = chars_of("content-length:");
    assert(views.skip(0) =~= views);
    for i in 0..list.len()
        invariant
            views == lists(list@),
            views == lines(header@),
            name@ == "content-length:"@,
            length_line(views.skip(i as int)) == length_line(views),
    {
        let line = text_of(list[i].as_slice());
        let small = to_lowercase(line.as_str());
        let small_chars = chars_of(small.as_str());
        assert(views.skip(i as int)[0] == list@[i as int]@);
        assert(views.skip(i as int).drop_first() =~= views.skip(i + 1));
        if starts_with(small_chars.as_slice(), name.as_slice()) {
            return read_line_number(list[i].as_slice());
        }
    }
    assert(views.skip(list@.len() as int).len() == 0);
    0
}

/// Whether all of a request has come, of which `total` bytes were read.
pub fn received_enough(text: &str, total: usize) -> (r: bool)
    requires
        header_size(text@) <= total,
    ensures
        r == received_all(text@, total as int),
{
    let chars = chars_of(text);
    let blank = chars_of("\r\n\r\n");
    match find(chars.as_slice(), blank.as_slice()) {
        Some(i) => {
            let header = slice_subrange(chars.as_slice(), 0, i);
            assert(header@ =~= text@.take(i as int));
            let header_text = text_of(header);
            let size: usize = header_text.as_str().as_bytes().len();
            let body: usize = total - (size + 4);
            body >= content_length(header)
        },
        None => false,
    }
}

/// Whether reading a request is over, after some bytes of it; nothing where
/// the header section takes more bytes as text than were read, which is only
/// possible where they are not UTF-8.
pub fn request_complete(raw: &[u8]) -> (r: Option<bool>)
    ensures
        r is Some <==> header_size(lossy(raw@)) <= raw@.len(),
        valid_utf8(raw@) ==> r is Some,
        r matches Some(done) ==> done == (received_all(lossy(raw@), raw@.len() as int) || raw@.len()
            >= CAPACITY - 1),
{
    let text = lossy_text(raw);
    let total: usize = raw.len();
    proof {
        if valid_utf8(raw@) {
            lemma_header_fits(raw@);
        }
    }
    let chars = chars_of(text.as_str());
    let blank = chars_of("\r\n\r\n");
    if let Some(i) = find(chars.as_slice(), blank.as_slice()) {
        let header = slice_subrange(chars.as_slice(), 0, i);
        assert(header@ =~= text@.take(i as int));
        let header_text = text_of(header);
        let size: usize = header_text.as_str().as_bytes().len();
        if total < 4 || size > total - 4 {
            return None;
        }
    }
    Some(received_enough(text.as_str(), total) || total >= CAPACITY - 1)
}

/// The header section of a request in UTF-8 takes no more bytes than were
/// read.
proof fn lemma_header_fits(raw: Seq<u8>)
    requires
        valid_utf8(raw),
    ensures
        header_size(decode_utf8(raw)) <= raw.len(),
{
    let text = decode_utf8(raw);
    decode_utf8_encode_utf8(raw);
    lemma_find_text(text, "\r\n\r\n"@);
    reveal_strlit("\r\n\r\n");
    if let Some(i) = header_end(text) {
        let head = text.take(i);
        let blank = text.subrange(i, i + 4);
        let rest = text.skip(i + 4);
        assert(text =~= head + (blank + rest));
        lemma_encode_concat(head, blank + rest);
        lemma_encode_concat(blank, rest);
        lemma_encode_length(blank);
    }
}

/// No character takes less than a byte.
proof fn lemma_encode_length(s: Seq<char>)
    ensures
        encode_utf8(s).len() >= s.len(),
    decreases s.len(),
{
    if s.len() > 0 {
        lemma_encode_length(s.drop_first());
    }
}

// ---------------------------------------------------------------------------
// What a request asks for
// ---------------------------------------------------------------------------

/// A request as far as the hub reads it.
pub struct Request {
    /// Its first line.
    pub line: String,
    /// Its body, without the white space around it.
    pub body: String,
}

/// The first line of a text; empty where there is none.
pub open spec fn first_line(text: Seq<char>) -> Seq<char> {
    if lines(text).len() > 0 {
        lines(text)[0]
    } else {
        seq![]
    }
}

/// The body of a request: what stands behind the header section, without the
/// white space around it.
pub open spec fn body_of(text: Seq<char>) -> Seq<char> {
    match header_end(text) {
        Some(i) => trimmed(text.skip(i + 4)),
        None => seq![],
    }
}

/// The parts of a request.
pub fn split_request(text: &str) -> (r: Request)
    ensures
        r.line@ == first_line(text@),
        r.body@ == body_of(text@),
{
    let chars = chars_of(text);
    let list = split_lines(chars.as_slice());
    let line = if list.len() > 0 {
        let first = text_of(list[0].as_slice());
        assert(lists(list@)[0] == list@[0]@);
        first
    } else {
        String::new()
    };
    let blank = chars_of("\r\n\r\n");
    proof {
        reveal_strlit("\r\n\r\n");
    }
    let body = match find(chars.as_slice(), blank.as_slice()) {
        Some(i) => {
            let rest = slice_subrange(chars.as_slice(), i + 4, chars.len());
            assert(rest@ =~= text@.skip(i + 4));
            let cut = trim(rest);
            text_of(cut.as_slice())
        },
        None => String::new(),
    };
    assert(lines(text@).len() == 0 ==> line@ =~= seq![]);
    assert(header_end(text@) is None ==> body@ =~= seq![]);
    Request { line, body }
}

/// The parts of a request, from its bytes.
pub fn read_request(raw: &[u8]) -> (r: Request)
    ensures
        r.line@ == first_line(lossy(raw@)),
        r.body@ == body_of(lossy(raw@)),
{
    let text = lossy_text(raw);
    split_request(text.as_str())
}

/// What the hub can be asked for.
#[derive(Clone, Copy, PartialEq, Eq, Structural)]
pub enum Route {
    /// How the hub and its workers are.
    Health,
    /// Which models there are.
    Models,
    /// A worker says that it exists.
    RegisterWorker,
    /// A user registers a worker.
    AuthRegister,
    /// A user logs in.
    AuthLogin,
    /// A user wants a worker in the tunnel.
    AuthVpn,
    /// An administrator changes the model.
    AdminModel,
    /// The certificates of the tunnel.
    TunnelCerts,
    /// The pipeline as it stands.
    PipelineStatus,
    /// The model itself.
    ModelDownload,
    /// An answer to a conversation.
    Chat,
    /// An answer to a prompt.
    Completions,
    /// Nothing that the hub knows.
    Unknown,
}

/// How the first line of a request for a route begins.
pub open spec fn route_prefix(route: Route) -> Seq<char> {
    match route {
        Route::Health => "GET /health"@,
        Route::Models => "GET /v1/models"@,
        Route::RegisterWorker => "POST /workers/register"@,
        Route::AuthRegister => "POST /auth/register"@,
        Route::AuthLogin => "POST /auth/login"@,
        Route::AuthVpn => "POST /auth/vpn"@,
        Route::AdminModel => "POST /admin/model"@,
        Route::TunnelCerts => "GET /tunnel/certs"@,
        Route::PipelineStatus => "GET /pipeline/status"@,
        Route::ModelDownload => "GET /model/download"@,
        Route::Chat => "POST /v1/chat/completions"@,
        Route::Completions => "POST /v1/completions"@,
        Route::Unknown => seq![],
    }
}

/// What a request asks for, by how its first line begins.
pub open spec fn route_of(line: Seq<char>) -> Route {
    if begins(line, route_prefix(Route::Health)) {
        Route::Health
    } else if begins(line, route_prefix(Route::Models)) {
        Route::Models
    } else if begins(line, route_prefix(Route::RegisterWorker)) {
        Route::RegisterWorker
    } else if begins(line, route_prefix(Route::AuthRegister)) {
        Route::AuthRegister
    } else if begins(line, route_prefix(Route::AuthLogin)) {
        Route::AuthLogin
    } else if begins(line, route_prefix(Route::AuthVpn)) {
        Route::AuthVpn
    } else if begins(line, route_prefix(Route::AdminModel)) {
        Route::AdminModel
    } else if begins(line, route_prefix(Route::TunnelCerts)) {
        Route::TunnelCerts
    } else if begins(line, route_prefix(Route::PipelineStatus)) {
        Route::PipelineStatus
    } else if begins(line, route_prefix(Route::ModelDownload)) {
        Route::ModelDownload
    } else if begins(line, route_prefix(Route::Chat)) {
        Route::Chat
    } else if begins(line, route_prefix(Route::Completions)) {
        Route::Completions
    } else {
        Route::Unknown
    }
}

fn line_begins(line: &Vec<char>, prefix: &str) -> (r: bool)
    ensures
        r == begins(line@, prefix@),
{
    let chars = chars_of(prefix);
    starts_with(line.as_slice(), chars.as_slice())
}

/// What a request asks for.
pub fn route(line: &str) -> (r: Route)
    ensures
        r == route_of(line@),
{
    let chars = chars_of(line);
    if line_begins(&chars, "GET /health") {
        Route::Health
    } else if line_begins(&chars, "GET /v1/models") {
        Route::Models
    } else if line_begins(&chars, "POST /workers/register") {
        Route::RegisterWorker
    } else if line_begins(&chars, "POST /auth/register") {
        Route::AuthRegister
    } else if line_begins(&chars, "POST /auth/login") {
        Route::AuthLogin
    } else if line_begins(&chars, "POST /auth/vpn") {
        Route::AuthVpn
    } else if line_begins(&chars, "POST /admin/model") {
        Route::AdminModel
    } else if line_begins(&chars, "GET /tunnel/certs") {
        Route::TunnelCerts
    } else if line_begins(&chars, "GET /pipeline/status") {
        Route::PipelineStatus
    } else if line_begins(&chars, "GET /model/download") {
        Route::ModelDownload
    } else if line_begins(&chars, "POST /v1/chat/completions") {
        Route::Chat
    } else if line_begins(&chars, "POST /v1/completions") {
        Route::Completions
    } else {
        Route::Unknown
    }
}

/// Of two texts that differ somewhere, no line begins with both.
proof fn lemma_not_both(line: Seq<char>, a: Seq<char>, b: Seq<char>, k: int)
    requires
        0 <= k < a.len(),
        k < b.len(),
        a[k] != b[k],
    ensures
        !(begins(line, a) && begins(line, b)),
{
    if begins(line, a) && begins(line, b) {
        assert(line.take(a.len() as int)[k] == a[k]);
        assert(line.take(b.len() as int)[k] == b[k]);
    }
}

/// No two routes are in each other's way: a line that begins as a route's
/// lines do asks for that route.
pub proof fn lemma_routes_apart(line: Seq<char>, route: Route)
    requires
        route != Route::Unknown,
        begins(line, route_prefix(route)),
    ensures
        route_of(line) == route,
{
    reveal_strlit("GET /health");
    reveal_strlit("GET /v1/models");
    reveal_strlit("POST /workers/register");
    reveal_strlit("POST /auth/register");
    reveal_strlit("POST /auth/login");
    reveal_strlit("POST /auth/vpn");
    reveal_strlit("POST /admin/model");
    reveal_strlit("GET /tunnel/certs");
    reveal_strlit("GET /pipeline/status");
    reveal_strlit("GET /model/download");
    reveal_strlit("POST /v1/chat/completions");
    reveal_strlit("POST /v1/completions");
    assert forall|other: Route| other != Route::Unknown && other != route implies !begins(
        line,
        #[trigger] route_prefix(other),
    ) by {
        let a = route_prefix(route);
        let b = route_prefix(other);
        if a[0] != b[0] {
            lemma_not_both(line, a, b, 0);
        } else if a[5] != b[5] {
            lemma_not_both(line, a, b, 5);
        } else if a[6] != b[6] {
            lemma_not_both(line, a, b, 6);
        } else if a[7] != b[7] {
            lemma_not_both(line, a, b, 7);
        } else if a[9] != b[9] {
            lemma_not_both(line, a, b, 9);
        } else if a[10] != b[10] {
            lemma_not_both(line, a, b, 10);
        } else {
            lemma_not_both(line, a, b, 11);
        }
    }
}

// ---------------------------------------------------------------------------
// How a reply is framed
// ---------------------------------------------------------------------------

/// The words that go with a status.
pub open spec fn reason_of(status: u16) -> Seq<char> {
    if status == 400 {
        "Bad Request"@
    } else if status == 403 {
        "Forbidden"@
    } else if status == 404 {
        "Not Found"@
    } else if status == 500 {
        "Internal Server Error"@
    } else if status == 502 {
        "Bad Gateway"@
    } else if status == 503 {
        "Service Unavailable"@
    } else if status == 504 {
        "Gateway Timeout"@
    } else {
        "OK"@
    }
}

/// The words that go with a status.
pub fn reason(status: u16) -> (r: String)
    ensures
        r@ == reason_of(status),
{
    if status == 400 {
        "Bad Request".to_string()
    } else if status == 403 {
        "Forbidden".to_string()
    } else if status == 404 {
        "Not Found".to_string()
    } else if status == 500 {
        "Internal Server Error".to_string()
    } else if status == 502 {
        "Bad Gateway".to_string()
    } else if status == 503 {
        "Service Unavailable".to_string()
    } else if status == 504 {
        "Gateway Timeout".to_string()
    } else {
        "OK".to_string()
    }
}

/// A reply with a JSON body: status line, header lines with the number of
/// bytes of the body, a blank line, the body.
pub open spec fn json_response(status: u16, words: Seq<char>, body: Seq<char>) -> Seq<char> {
    "HTTP/1.1 "@ + decimal(status as nat) + " "@ + words
        + "\r\nContent-Type: application/json\r\nContent-Length: "@ + decimal(
        encode_utf8(body).len(),
    ) + "\r\n\r\n"@ + body
}

fn json_response_with(status: u16, words: &str, body: &str) -> (r: String)
    ensures
        r@ == json_response(status, words@, body@),
{
    let code = to_decimal(status as u64);
    let length = to_decimal(body.as_bytes().len() as u64);
    let mut out = joined("HTTP/1.1 ", code.as_str());
    out.append(" ");
    out.append(words);
    out.append("\r\nContent-Type: application/json\r\nContent-Length: ");
    out.append(length.as_str());
    out.append("\r\n\r\n");
    out.append(body);
    out
}

/// A reply with a JSON body.
pub fn http_response(status: u16, body: &str) -> (r: String)
    ensures
        r@ == json_response(status, reason_of(status), body@),
{
    let words = reason(status);
    json_response_with(status, words.as_str(), body)
}

/// The reply to a prompt that could not be put into a message. Its status
/// line says 500 and, unlike other replies, `OK`.
pub fn unsent_response(body: &str) -> (r: String)
    ensures
        r@ == json_response(500, "OK"@, body@),
{
    json_response_with(500, "OK", body)
}

/// What goes ahead of the bytes of a model: status line and header lines with
/// its length and fingerprint.
pub open spec fn model_header_of(length: nat, hash: Seq<char>) -> Seq<char> {
    "HTTP/1.1 200 OK\r\nContent-Type: application/octet-stream\r\nContent-Length: "@ + decimal(
        length,
    ) + "\r\nX-Model-Hash: "@ + hash + "\r\n\r\n"@
}

/// What goes ahead of the bytes of a model.
pub fn model_header(length: usize, hash: &str) -> (r: String)
    ensures
        r@ == model_header_of(length as nat, hash@),
{
    let digits = to_decimal(length as u64);
    let mut out = joined(
        "HTTP/1.1 200 OK\r\nContent-Type: application/octet-stream\r\nContent-Length: ",
        digits.as_str(),
    );
    out.append("\r\nX-Model-Hash: ");
    out.append(hash);
    out.append("\r\n\r\n");
    out
}

// ---------------------------------------------------------------------------
// What always holds
// ---------------------------------------------------------------------------

/// A route is taken only for a line that begins with the route's words, and
/// none only for a line that begins with no route's words.
pub proof fn lemma_route_begins(line: Seq<char>, route: Route)
    ensures
        route_of(line) != Route::Unknown ==> begins(line, route_prefix(route_of(line))),
        route_of(line) == Route::Unknown && route != Route::Unknown ==> !begins(
            line,
            route_prefix(route),
        ),
{
}

/// A request is cut at its first blank line: what is before it is the header,
/// what is behind it is the body, without white space around it. All has
/// arrived once as many bytes are there as the header with its blank line has
/// and the header declares for the body.
pub proof fn lemma_request_cut(head: Seq<char>, body: Seq<char>, total: int)
    requires
        find_text(head + "\r\n\r\n"@, "\r\n\r\n"@) == Some(head.len() as int),
    ensures
        ({
            let text = head + "\r\n\r\n"@ + body;
            &&& header_end(text) == Some(head.len() as int)
            &&& body_of(text) == trimmed(body)
            &&& received_all(text, total) <==> total >= encode_utf8(head).len() + 4
                + declared_length(head)
        }),
{
    let blank = "\r\n\r\n"@;
    let front = head + blank;
    let text = front + body;
    reveal_strlit("\r\n\r\n");
    assert(blank.len() == 4);
    assert(text.subrange(head.len() as int, head.len() as int + blank.len()) =~= blank);
    lemma_find_text_first(text, blank, head.len() as int);
    lemma_find_text(text, blank);
    let i = header_end(text)->0;
    if i < head.len() {
        assert(front.subrange(i, i + blank.len()) =~= text.subrange(i, i + blank.len()));
        lemma_find_text_first(front, blank, i);
    }
    assert(text.skip(i + 4) =~= body);
    assert(text.take(i) =~= head);
}

/// The first line of a request is what is before its first line end.
pub proof fn lemma_first_line(line: Seq<char>, rest: Seq<char>)
    requires
        !line.contains('\n'),
        !line.contains('\r'),
    ensures
        first_line(line + "\r\n"@ + rest) == line,
        first_line(line + "\n"@ + rest) == line,
        first_line(line) == line,
{
    reveal_strlit("\r\n");
    reveal_strlit("\n");
    let with_return = line + seq!['\r'];
    assert("\r\n"@ =~= seq!['\r', '\n']);
    assert("\n"@ =~= seq!['\n']);
    assert(line + "\r\n"@ + rest =~= with_return + seq!['\n'] + rest);
    if with_return.contains('\n') {
        let j = choose|j: int| 0 <= j < with_return.len() && with_return[j] == '\n';
        assert(line[j] == '\n');
    }
    if line.len() > 0 && line.last() == '\r' {
        assert(line.contains(line.last()));
    }
    lemma_lines_front(with_return, rest);
    lemma_lines_front(line, rest);
    assert(with_return.drop_last() =~= line);
    if line.len() == 0 {
        assert(line =~= Seq::<char>::empty());
    }
}

/// The declared length stands in the first line that begins, in whatever
/// case, with the name of that header.
pub proof fn lemma_length_line(list: Seq<Seq<char>>)
    ensures
        length_line(list) matches Some(line) ==> exists|i: int|
            0 <= i < list.len() && #[trigger] list[i] == line && is_length_line(line) && forall|
                j: int,
            |
                0 <= j < i ==> !is_length_line(#[trigger] list[j]),
        length_line(list) is None ==> forall|i: int|
            0 <= i < list.len() ==> !is_length_line(#[trigger] list[i]),
    decreases list.len(),
{
    if list.len() > 0 && !is_length_line(list[0]) {
        let rest = list.drop_first();
        lemma_length_line(rest);
        if let Some(line) = length_line(rest) {
            let i = choose|i: int|
                0 <= i < rest.len() && #[trigger] rest[i] == line && forall|j: int|
                    0 <= j < i ==> !is_length_line(#[trigger] rest[j]);
            assert(list[i + 1] == line);
            assert forall|j: int| 0 <= j < i + 1 implies !is_length_line(#[trigger] list[j]) by {
                if j > 0 {
                    assert(rest[j - 1] == list[j]);
                }
            }
        } else {
            assert forall|i: int| 0 <= i < list.len() implies !is_length_line(
                #[trigger] list[i],
            ) by {
                if i > 0 {
                    assert(rest[i - 1] == list[i]);
                }
            }
        }
    } else if list.len() > 0 {
        assert(list[0] == length_line(list)->0);
    }
}

/// A length is read back from the line in which it was written, whether the
/// header's name has capitals or not.
pub proof fn lemma_length_read_back(n: usize, space: Seq<char>)
    requires
        forall|i: int| 0 <= i < space.len() ==> white_space(#[trigger] space[i]),
    ensures
        line_number("Content-Length:"@ + (space + decimal(n as nat))) == n,
        line_number("content-length:"@ + (space + decimal(n as nat))) == n,
{
    let capital = "Content-Length:"@;
    let small = "content-length:"@;
    let digits = decimal(n as nat);
    let value = space + digits;
    let nothing: Seq<char> = seq![];
    reveal_strlit("Content-Length:");
    reveal_strlit("content-length:");
    assert(capital[0] == 'C' && small[0] == 'c');
    lemma_decimal_value(n as nat);
    assert(value.len() > 0);
    assert(value[0] != 'C' && value[0] != 'c') by {
        if space.len() > 0 {
            assert(value[0] == space[0]);
            assert(white_space(space[0]));
        } else {
            assert(value[0] == digits[0]);
        }
    }
    if begins(value, capital) {
        assert(value.take(capital.len() as int)[0] == capital[0]);
    }
    if begins(value, small) {
        assert(value.take(small.len() as int)[0] == small[0]);
    }
    if begins(small + value, capital) {
        assert((small + value).take(capital.len() as int)[0] == capital[0]);
    }
    lemma_without_prefixes(value, capital);
    lemma_without_prefixes(value, small);
    lemma_without_prefixes(small + value, capital);
    assert(value + nothing =~= value);
    assert(!white_space(digits[0]) && !white_space(digits.last()));
    lemma_trimmed_both(space, digits, nothing);
    lemma_decimal_read_back(n as nat, usize::MAX as int);
}

/// A reply ends with its body, and right before the blank line in front of it
/// stands how many bytes the body has.
pub proof fn lemma_response_length(status: u16, words: Seq<char>, body: Seq<char>)
    ensures
        exists|head: Seq<char>, length: Seq<char>|
            #![trigger head + length]
            json_response(status, words, body) == head + length + "\r\n\r\n"@ + body
                && digits_value(length) == encode_utf8(body).len() && forall|i: int|
                0 <= i < length.len() ==> is_digit(#[trigger] length[i]),
{
    let head = "HTTP/1.1 "@ + decimal(status as nat) + " "@ + words
        + "\r\nContent-Type: application/json\r\nContent-Length: "@;
    let length = decimal(encode_utf8(body).len());
    lemma_decimal_value(encode_utf8(body).len());
    assert(json_response(status, words, body) == head + length + "\r\n\r\n"@ + body);
}

/// A text that was sent as UTF-8 is read as it was.
pub proof fn lemma_text_read_back(text: Seq<char>)
    ensures
        lossy(encode_utf8(text)) == text,
{
    encode_utf8_valid_utf8(text);
    encode_utf8_decode_utf8(text);
}

} // verus!
