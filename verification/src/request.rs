//! The HTTP requests the client sends to the ChatGPT backend, described as
//! plain values: what to send is decided here, the sending is done by the
//! caller.
use vstd::prelude::*;
use vstd::string::StringExecFns;

verus! {

#[derive(Debug, Clone, Copy, PartialEq, Eq, Structural)]
pub enum HttpMethod {
    Get,
    Post,
}

/// One request header.
#[derive(Debug)]
pub struct Header {
    pub name: String,
    pub value: String,
}

/// A request to send.
#[derive(Debug)]
pub struct HttpRequest {
    pub method: HttpMethod,
    pub url: String,
    pub headers: Vec<Header>,
    pub body: Option<String>,
}

pub struct RequestView {
    pub method: HttpMethod,
    pub url: Seq<char>,
    pub headers: Seq<(Seq<char>, Seq<char>)>,
    pub body: Option<Seq<char>>,
}

pub open spec fn header_view(h: Header) -> (Seq<char>, Seq<char>) {
    (h.name@, h.value@)
}

impl View for HttpRequest {
    type V = RequestView;

    open spec fn view(&self) -> RequestView {
        RequestView {
            method: self.method,
            url: self.url@,
            headers: self.headers@.map_values(|h: Header| header_view(h)),
            body: match self.body {
                Some(b) => Some(b@),
                None => None,
            },
        }
    }
}

impl Header {
    /// The header as one line of an HTTP request: name, `: `, value.
    pub fn line(&self) -> (r: String)
        ensures
            r@ == self.name@ + ": "@ + self.value@,
    {
        let mut r = self.name.clone();
        r.append(": ");
        r.append(self.value.as_str());
        r
    }
}

fn header(name: &str, value: &str) -> (h: Header)
    ensures
        h.name@ == name@,
        h.value@ == value@,
{
    Header { name: name.to_owned(), value: value.to_owned() }
}

fn concat2(a: &str, b: &str) -> (r: String)
    ensures
        r@ == a@ + b@,
{
    let mut r = a.to_owned();
    r.append(b);
    r
}

// ---------------------------------------------------------------------------
// Outside calls
// ---------------------------------------------------------------------------

/// A lower-case hexadecimal digit.
pub open spec fn lower_hex_digit(d: u32) -> char {
    if d < 10 {
        (0x30 + d) as char
    } else {
        (0x57 + d) as char
    }
}

/// How one character stands inside a JSON string: `"` and `\` behind a
/// backslash, the five control characters with short escapes as `\b \t
/// \n \f \r`, the other characters below U+0020 as `\u00` and two
/// lower-case hexadecimal digits, every other character as itself.
pub open spec fn json_escaped_char(c: char) -> Seq<char> {
    let u = c as u32;
    if c == '"' {
        seq!['\\', '"']
    } else if c == '\\' {
        seq!['\\', '\\']
    } else if u == 0x08 {
        seq!['\\', 'b']
    } else if u == 0x09 {
        seq!['\\', 't']
    } else if u == 0x0a {
        seq!['\\', 'n']
    } else if u == 0x0c {
        seq!['\\', 'f']
    } else if u == 0x0d {
        seq!['\\', 'r']
    } else if u < 0x20 {
        seq!['\\', 'u', '0', '0', lower_hex_digit(u / 16), lower_hex_digit(u % 16)]
    } else {
        seq![c]
    }
}

/// The characters of `s`, each escaped for a JSON string.
pub open spec fn json_escaped(s: Seq<char>) -> Seq<char>
    decreases s.len(),
{
    if s.len() == 0 {
        Seq::empty()
    } else {
        json_escaped(s.drop_last()) + json_escaped_char(s.last())
    }
}

/// The compact JSON text of a string value: `s` escaped, between quotes.
pub open spec fn json_string_text(s: Seq<char>) -> Seq<char> {
    seq!['"'] + json_escaped(s) + seq!['"']
}

/// Calls `serde_json::Value::String(..).to_string()`: the compact JSON text
/// of a string value, quoted and escaped as `json_string_text` states.
#[verifier::external_body]
fn json_string(s: &str) -> (r: String)
    ensures
        r@ == json_string_text(s@),
{
    serde_json::Value::String(s.to_owned()).to_string()
}

pub open spec fn is_lower_hex(c: char) -> bool {
    let u = c as u32;
    (0x30 <= u <= 0x39) || (0x61 <= u <= 0x66)
}

/// The hyphenated lower-case text of a version-4 UUID: 36 characters,
/// hexadecimal digits in groups of 8, 4, 4, 4 and 12 joined by `-`, the
/// version digit `4` at index 14 and one of `8 9 a b` at index 19.
pub open spec fn is_uuid_v4_text(s: Seq<char>) -> bool {
    &&& s.len() == 36
    &&& forall|i: int|
        0 <= i < 36 ==> if i == 8 || i == 13 || i == 18 || i == 23 {
            #[trigger] s[i] == '-'
        } else {
            is_lower_hex(s[i])
        }
    &&& s[14] == '4'
    &&& (s[19] == '8' || s[19] == '9' || s[19] == 'a' || s[19] == 'b')
}

/// Calls `uuid::Uuid::new_v4()` and writes it with `to_string`. The id is
/// random; every outcome is the hyphenated lower-case text of a version-4
/// UUID, and which one is not stated.
#[verifier::external_body]
fn new_message_id() -> (r: String)
    ensures
        is_uuid_v4_text(r@),
{
    uuid::Uuid::new_v4().to_string()
}

// ---------------------------------------------------------------------------
// Specification of the requests
// ---------------------------------------------------------------------------

pub open spec fn public_key_url() -> Seq<char> {
    "https://tcr9i.chat.openai.com/fc/gt2/public_key/35536E1E-65B4-4D96-9D97-6ADB7EFF8147"@
}

pub open spec fn conversations_url() -> Seq<char> {
    "https://chat.openai.com/backend-api/conversations?offset=0&limit=50&order=updated"@
}

pub open spec fn conversation_url() -> Seq<char> {
    "https://chat.openai.com/backend-api/conversation"@
}

/// The headers of every request to the backend API that carries the session.
pub open spec fn session_headers(token: Seq<char>, cookie: Seq<char>) -> Seq<
    (Seq<char>, Seq<char>),
> {
    seq![
        ("Host"@, "chat.openai.com"@),
        ("Authorization"@, "Bearer "@ + token),
        ("Connection"@, "keep-alive"@),
        ("Cookie"@, cookie),
        ("Referer"@, "https://chat.openai.com/"@),
    ]
}

pub open spec fn origin_header() -> (Seq<char>, Seq<char>) {
    ("Origin"@, "https://chat.openai.com"@)
}

pub open spec fn json_content_header() -> (Seq<char>, Seq<char>) {
    ("Content-Type"@, "application/json"@)
}

/// The fixed text between the conversation id and the message's parts.
pub open spec fn conversation_body_middle() -> Seq<char> {
    ",\"force_paragen\":false,\"history_and_training_disabled\":false,\"messages\":[{\"author\":{\"role\":\"user\"},\"content\":{\"content_type\":\"text\","@
}

/// The `parts` member of the message content: an array holding the message
/// as its only string.
pub open spec fn message_part(message: Seq<char>) -> Seq<char> {
    "\"parts\":["@ + json_string_text(message) + "]"@
}

/// The JSON body that sends `message` to a conversation: a compact object
/// with its keys in sorted order.
pub open spec fn conversation_body(
    arkose_token: Seq<char>,
    conversation_id: Seq<char>,
    message: Seq<char>,
    message_id: Seq<char>,
    parent_message_id: Seq<char>,
) -> Seq<char> {
    "{\"action\":\"next\",\"arkose_token\":"@ + json_string_text(arkose_token)
        + ",\"conversation_id\":"@ + json_string_text(conversation_id) + conversation_body_middle()
        + message_part(message) + "},\"id\":"@ + json_string_text(message_id)
        + ",\"metadata\":{}}],\"model\":\"gpt-4\",\"parent_message_id\":"@ + json_string_text(
        parent_message_id,
    ) + ",\"suggestions\":[],\"timezone_offset_min\":-480}"@
}

pub open spec fn conversation_request_view(
    token: Seq<char>,
    cookie: Seq<char>,
    conversation_id: Seq<char>,
    message: Seq<char>,
    arkose_token: Seq<char>,
    parent_message_id: Seq<char>,
    message_id: Seq<char>,
) -> RequestView {
    RequestView {
        method: HttpMethod::Post,
        url: conversation_url(),
        headers: session_headers(token, cookie).push(origin_header()).push(json_content_header()),
        body: Some(
            conversation_body(arkose_token, conversation_id, message, message_id, parent_message_id),
        ),
    }
}

/// Whether a character has to be escaped inside a JSON string.
pub open spec fn needs_json_escape(c: char) -> bool {
    c == '"' || c == '\\' || (c as u32) < 0x20
}

/// A text with nothing to escape stands in JSON as itself between quotes,
/// whole, whatever its length.
pub proof fn lemma_json_plain_text(s: Seq<char>)
    requires
        forall|i: int| 0 <= i < s.len() ==> !needs_json_escape(#[trigger] s[i]),
    ensures
        json_string_text(s) == seq!['"'] + s + seq!['"'],
    decreases s.len(),
{
    lemma_json_escaped_plain(s);
}

proof fn lemma_json_escaped_plain(s: Seq<char>)
    requires
        forall|i: int| 0 <= i < s.len() ==> !needs_json_escape(#[trigger] s[i]),
    ensures
        json_escaped(s) == s,
    decreases s.len(),
{
    if s.len() > 0 {
        let d = s.drop_last();
        assert forall|i: int| 0 <= i < d.len() implies !needs_json_escape(#[trigger] d[i]) by {
            assert(d[i] == s[i]);
        }
        lemma_json_escaped_plain(d);
        assert(!needs_json_escape(s[s.len() - 1]));
        assert(json_escaped_char(s.last()) == seq![s.last()]);
        assert(d + seq![s.last()] =~= s);
    }
}

/// Escaping is piecewise: the escape of `a + b` is the escape of `a` followed
/// by the escape of `b`, so no character of a message is dropped.
pub proof fn lemma_json_escaped_concat(a: Seq<char>, b: Seq<char>)
    ensures
        json_escaped(a + b) == json_escaped(a) + json_escaped(b),
    decreases b.len(),
{
    if b.len() == 0 {
        assert(a + b =~= a);
        assert(json_escaped(a) + json_escaped(b) =~= json_escaped(a));
    } else {
        lemma_json_escaped_concat(a, b.drop_last());
        assert((a + b).drop_last() =~= a + b.drop_last());
        assert((a + b).last() == b.last());
        assert(json_escaped(a) + json_escaped(b.drop_last()) + json_escaped_char(b.last())
            =~= json_escaped(a) + (json_escaped(b.drop_last()) + json_escaped_char(b.last())));
    }
}

/// The body of a message request holds the whole message: at position `k`
/// stands the `parts` array with the message, escaped, as its only string,
/// whatever the message's length.
pub proof fn lemma_body_holds_message(
    arkose_token: Seq<char>,
    conversation_id: Seq<char>,
    message: Seq<char>,
    message_id: Seq<char>,
    parent_message_id: Seq<char>,
) -> (k: int)
    ensures
        0 <= k,
        k + message_part(message).len() <= conversation_body(
            arkose_token,
            conversation_id,
            message,
            message_id,
            parent_message_id,
        ).len(),
        conversation_body(arkose_token, conversation_id, message, message_id, parent_message_id).subrange(
            k,
            k + message_part(message).len(),
        ) == "\"parts\":["@ + json_string_text(message) + "]"@,
{
    let before = "{\"action\":\"next\",\"arkose_token\":"@ + json_string_text(arkose_token)
        + ",\"conversation_id\":"@ + json_string_text(conversation_id) + conversation_body_middle();
    let part = message_part(message);
    let after = "},\"id\":"@ + json_string_text(message_id)
        + ",\"metadata\":{}}],\"model\":\"gpt-4\",\"parent_message_id\":"@ + json_string_text(
        parent_message_id,
    ) + ",\"suggestions\":[],\"timezone_offset_min\":-480}"@;
    let body = conversation_body(arkose_token, conversation_id, message, message_id, parent_message_id);
    assert(body =~= before + part + after);
    assert(body.subrange(before.len() as int, (before.len() + part.len()) as int) =~= part);
    before.len() as int
}

// ---------------------------------------------------------------------------
// Builders
// ---------------------------------------------------------------------------

fn session_header_list(token: &str, cookie: &str) -> (hs: Vec<Header>)
    ensures
        hs@.map_values(|h: Header| header_view(h)) == session_headers(token@, cookie@),
{
    let mut hs: Vec<Header> = Vec::new();
    hs.push(header("Host", "chat.openai.com"));
    hs.push(Header { name: "Authorization".to_owned(), value: concat2("Bearer ", token) });
    hs.push(header("Connection", "keep-alive"));
    hs.push(header("Cookie", cookie));
    hs.push(header("Referer", "https://chat.openai.com/"));
    assert(hs@.map_values(|h: Header| header_view(h)) =~= session_headers(token@, cookie@));
    hs
}

/// The request for an arkose public key: `form` posted as a URL-encoded form.
pub fn public_key(form: String) -> (r: HttpRequest)
    ensures
        r@ == (RequestView {
            method: HttpMethod::Post,
            url: public_key_url(),
            headers: seq![("Content-Type"@, "application/x-www-form-urlencoded"@)],
            body: Some(form@),
        }),
{
    let mut headers: Vec<Header> = Vec::new();
    headers.push(header("Content-Type", "application/x-www-form-urlencoded"));
    let r = HttpRequest {
        method: HttpMethod::Post,
        url: "https://tcr9i.chat.openai.com/fc/gt2/public_key/35536E1E-65B4-4D96-9D97-6ADB7EFF8147".to_owned(),
        headers,
        body: Some(form),
    };
    assert(r@.headers =~= seq![("Content-Type"@, "application/x-www-form-urlencoded"@)]);
    r
}

/// The request for the first page of the user's conversations.
pub fn conversations(token: &str, cookie: &str) -> (r: HttpRequest)
    ensures
        r@ == (RequestView {
            method: HttpMethod::Get,
            url: conversations_url(),
            headers: session_headers(token@, cookie@),
            body: None,
        }),
{
    HttpRequest {
        method: HttpMethod::Get,
        url: "https://chat.openai.com/backend-api/conversations?offset=0&limit=50&order=updated".to_owned(),
        headers: session_header_list(token, cookie),
        body: None,
    }
}

/// The request for the details of one conversation.
pub fn conversation_info(token: &str, cookie: &str, conversation_id: &str) -> (r: HttpRequest)
    ensures
        r@ == (RequestView {
            method: HttpMethod::Get,
            url: conversation_url() + "/"@ + conversation_id@,
            headers: session_headers(token@, cookie@).push(origin_header()),
            body: None,
        }),
{
    let mut headers = session_header_list(token, cookie);
    headers.push(header("Origin", "https://chat.openai.com"));
    let mut url = "https://chat.openai.com/backend-api/conversation".to_owned();
    url.append("/");
    url.append(conversation_id);
    let r = HttpRequest { method: HttpMethod::Get, url, headers, body: None };
    assert(r@.headers =~= session_headers(token@, cookie@).push(origin_header()));
    r
}

/// The request that sends `message` to a conversation, as a new message with
/// id `message_id` following `parent_message_id`.
pub fn conversation_request(
    token: &str,
    cookie: &str,
    conversation_id: &str,
    message: &str,
    arkose_token: &str,
    parent_message_id: &str,
    message_id: &str,
) -> (r: HttpRequest)
    ensures
        r@ == conversation_request_view(
            token@,
            cookie@,
            conversation_id@,
            message@,
            arkose_token@,
            parent_message_id@,
            message_id@,
        ),
{
    let mut headers = session_header_list(token, cookie);
    headers.push(header("Origin", "https://chat.openai.com"));
    headers.push(header("Content-Type", "application/json"));
    let mut body = "{\"action\":\"next\",\"arkose_token\":".to_owned();
    body.append(json_string(arkose_token).as_str());
    body.append(",\"conversation_id\":");
    body.append(json_string(conversation_id).as_str());
    body.append(
        ",\"force_paragen\":false,\"history_and_training_disabled\":false,\"messages\":[{\"author\":{\"role\":\"user\"},\"content\":{\"content_type\":\"text\",",
    );
    body.append("\"parts\":[");
    body.append(json_string(message).as_str());
    body.append("]");
    body.append("},\"id\":");
    body.append(json_string(message_id).as_str());
    body.append(",\"metadata\":{}}],\"model\":\"gpt-4\",\"parent_message_id\":");
    body.append(json_string(parent_message_id).as_str());
    body.append(",\"suggestions\":[],\"timezone_offset_min\":-480}");
    assert(body@ =~= conversation_body(
        arkose_token@,
        conversation_id@,
        message@,
        message_id@,
        parent_message_id@,
    ));
    let r = HttpRequest {
        method: HttpMethod::Post,
        url: "https://chat.openai.com/backend-api/conversation".to_owned(),
        headers,
        body: Some(body),
    };
    assert(r@.headers =~= session_headers(token@, cookie@).push(origin_header()).push(
        json_content_header(),
    ));
    r
}

/// The request that sends `message` to a conversation under a fresh random
/// message id.
pub fn conversation(
    token: &str,
    cookie: &str,
    conversation_id: &str,
    message: &str,
    arkose_token: &str,
    parent_message_id: &str,
) -> (r: HttpRequest)
    ensures
        exists|id: Seq<char>|
            #![trigger conversation_request_view(
                token@,
                cookie@,
                conversation_id@,
                message@,
                arkose_token@,
                parent_message_id@,
                id,
            )]
            is_uuid_v4_text(id) && r@ == conversation_request_view(
                token@,
                cookie@,
                conversation_id@,
                message@,
                arkose_token@,
                parent_message_id@,
                id,
            ),
{
    let id = new_message_id();
    let r = conversation_request(
        token,
        cookie,
        conversation_id,
        message,
        arkose_token,
        parent_message_id,
        id.as_str(),
    );
    assert(is_uuid_v4_text(id@) && r@ == conversation_request_view(
        token@,
        cookie@,
        conversation_id@,
        message@,
        arkose_token@,
        parent_message_id@,
        id@,
    ));
    r
}

} // verus!
