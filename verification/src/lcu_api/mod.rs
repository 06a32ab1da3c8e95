//! The client's HTTP and WAMP interfaces: the records they return, and the
//! requests, credentials and event routing around them.
pub mod chat;
pub mod game_queues;
pub mod lobby;
pub mod lol_chat;
pub mod lol_game_queues;
pub mod lol_summoner;

use vstd::prelude::*;
use vstd::string::StringExecFns;
use vstd::utf8::{encode_utf8, encode_utf8_decode_utf8};
use crate::HOST;
use crate::text::{decimal, decimal_text, parse_u16, parse_u16_spec, split_fields, split_text,
    text_bytes, text_eq, lemma_decimal_lacks, lemma_parse_decimal, lemma_split_fields_join,
    lemma_split_fields_nonempty, lemma_split_fields_single};

verus! {

/// The kinds of WAMP message that the client sends.
#[derive(Clone, Copy, Debug, PartialEq, Eq, Structural)]
pub enum MessageTypes {
    Subscribe,
}

/// The WAMP type code of a message kind.
pub open spec fn message_code(message_type: MessageTypes) -> u8 {
    match message_type {
        MessageTypes::Subscribe => 5,
    }
}

impl MessageTypes {
    /// The WAMP type code of this message kind.
    pub fn code(&self) -> (c: u8)
        ensures
            c == message_code(*self),
    {
        match self {
            MessageTypes::Subscribe => 5,
        }
    }
}

/// The WAMP frame `[<code>, "<message>"]`.
pub open spec fn wamp_frame(message_type: MessageTypes, message: Seq<char>) -> Seq<char> {
    "["@ + decimal(message_code(message_type) as nat) + ", \""@ + message + "\"]"@
}

/// The WAMP frame that sends `message` as a message of the given kind.
pub fn wamp_message(message_type: MessageTypes, message: &str) -> (r: String)
    ensures
        r@ == wamp_frame(message_type, message@),
{
    let code = decimal_text(message_type.code() as u16);
    String::from_str("[").concat(code.as_str()).concat(", \"").concat(message).concat("\"]")
}

/// `https://<host>:<port>/<endpoint>`.
pub open spec fn request_url_spec(port: u16, endpoint: Seq<char>) -> Seq<char> {
    "https://"@ + HOST@ + ":"@ + decimal(port as nat) + "/"@ + endpoint
}

/// The address of an endpoint of the client's HTTP interface.
pub fn request_url(port: u16, endpoint: &str) -> (r: String)
    ensures
        r@ == request_url_spec(port, endpoint@),
{
    let port_text = decimal_text(port);
    String::from_str("https://").concat(HOST).concat(":").concat(port_text.as_str()).concat(
        "/",
    ).concat(endpoint)
}

/// The address of the client's WAMP interface.
pub fn wamp_url(port: u16) -> (r: String)
    ensures
        r@ == "wss://"@ + HOST@ + ":"@ + decimal(port as nat),
{
    let port_text = decimal_text(port);
    String::from_str("wss://").concat(HOST).concat(":").concat(port_text.as_str())
}

/// The socket address `<host>:<port>` of the client.
pub fn socket_address(port: u16) -> (r: String)
    ensures
        r@ == HOST@ + ":"@ + decimal(port as nat),
{
    let port_text = decimal_text(port);
    String::from_str(HOST).concat(":").concat(port_text.as_str())
}

/// The standard base64 digit for a six-bit value: `A-Z`, `a-z`, `0-9`, `+`
/// and `/`.
pub open spec fn base64_char(v: int) -> char {
    if v < 26 {
        (65 + v) as char
    } else if v < 52 {
        (97 + v - 26) as char
    } else if v < 62 {
        (48 + v - 52) as char
    } else if v == 62 {
        '+'
    } else {
        '/'
    }
}

/// The standard, padded base64 encoding of `bytes`, as `base64::encode`
/// writes it: each group of three bytes becomes four digits, and a final
/// group of one or two bytes becomes two or three digits and `=` padding.
pub open spec fn base64_encoding(bytes: Seq<u8>) -> Seq<char>
    decreases bytes.len(),
{
    if bytes.len() == 0 {
        Seq::empty()
    } else {
        let b0 = bytes[0] as int;
        let b1 = if bytes.len() > 1 { bytes[1] as int } else { 0 };
        let b2 = if bytes.len() > 2 { bytes[2] as int } else { 0 };
        let first = base64_char(b0 / 4);
        let second = base64_char((b0 % 4) * 16 + b1 / 16);
        if bytes.len() == 1 {
            seq![first, second, '=', '=']
        } else if bytes.len() == 2 {
            seq![first, second, base64_char((b1 % 16) * 4), '=']
        } else {
            seq![first, second, base64_char((b1 % 16) * 4 + b2 / 64), base64_char(b2 % 64)]
                + base64_encoding(bytes.skip(3))
        }
    }
}

/// Distinct six-bit values have distinct digits, and no digit is the padding
/// `=`.
proof fn lemma_base64_char_injective(v: int, w: int)
    requires
        0 <= v < 64,
        0 <= w < 64,
    ensures
        base64_char(v) != '=',
        base64_char(v) == base64_char(w) ==> v == w,
{
}

/// A number written as `x * m + y` with `y` below `m` has one such writing.
proof fn lemma_mixed_radix(x: int, y: int, x2: int, y2: int, m: int)
    requires
        m > 0,
        0 <= y < m,
        0 <= y2 < m,
        x * m + y == x2 * m + y2,
    ensures
        x == x2,
        y == y2,
{
    if x < x2 {
        assert(x * m + m <= x2 * m) by (nonlinear_arith)
            requires
                x < x2,
                m > 0,
        ;
    } else if x2 < x {
        assert(x2 * m + m <= x * m) by (nonlinear_arith)
            requires
                x2 < x,
                m > 0,
        ;
    }
}

/// Every encoding of a nonempty input is at least one group of four digits.
proof fn lemma_base64_len(bytes: Seq<u8>)
    ensures
        bytes.len() == 0 <==> base64_encoding(bytes).len() == 0,
        bytes.len() > 0 ==> base64_encoding(bytes).len() >= 4,
{
}

/// Base64 loses nothing: distinct inputs have distinct encodings.
pub proof fn lemma_base64_injective(a: Seq<u8>, b: Seq<u8>)
    requires
        base64_encoding(a) == base64_encoding(b),
    ensures
        a == b,
    decreases a.len(),
{
    lemma_base64_len(a);
    lemma_base64_len(b);
    if a.len() > 0 {
        let ea = base64_encoding(a);
        let a0 = a[0] as int;
        let b0 = b[0] as int;
        let a1 = if a.len() > 1 { a[1] as int } else { 0 };
        let b1 = if b.len() > 1 { b[1] as int } else { 0 };
        let a2 = if a.len() > 2 { a[2] as int } else { 0 };
        let b2 = if b.len() > 2 { b[2] as int } else { 0 };
        lemma_base64_char_injective(a0 / 4, b0 / 4);
        lemma_base64_char_injective((a0 % 4) * 16 + a1 / 16, (b0 % 4) * 16 + b1 / 16);
        lemma_base64_char_injective((a1 % 16) * 4 + a2 / 64, (b1 % 16) * 4 + b2 / 64);
        lemma_base64_char_injective(a2 % 64, b2 % 64);
        lemma_base64_char_injective((b1 % 16) * 4, 0);
        lemma_base64_char_injective((b1 % 16) * 4 + b2 / 64, 0);
        lemma_base64_char_injective(b2 % 64, 0);
        lemma_base64_char_injective((a1 % 16) * 4, 0);
        lemma_base64_char_injective(a2 % 64, 0);
        assert(ea[0] == base64_char(a0 / 4));
        assert(a.len() == 1 <==> b.len() == 1);
        assert(a.len() == 2 <==> b.len() == 2);
        assert(a0 / 4 == b0 / 4);
        let eb = base64_encoding(b);
        assert(ea[1] == base64_char((a0 % 4) * 16 + a1 / 16));
        assert(eb[1] == base64_char((b0 % 4) * 16 + b1 / 16));
        lemma_mixed_radix(a0 % 4, a1 / 16, b0 % 4, b1 / 16, 16);
        assert(a0 % 4 == b0 % 4 && a1 / 16 == b1 / 16);
        assert(a0 == b0);
        if a.len() >= 2 {
            if a.len() >= 3 {
                assert(ea[2] == base64_char((a1 % 16) * 4 + a2 / 64));
                assert(eb[2] == base64_char((b1 % 16) * 4 + b2 / 64));
                lemma_mixed_radix(a1 % 16, a2 / 64, b1 % 16, b2 / 64, 4);
            } else {
                assert(ea[2] == base64_char((a1 % 16) * 4));
                assert(eb[2] == base64_char((b1 % 16) * 4));
            }
            assert(a1 % 16 == b1 % 16);
            assert(a1 == b1);
        }
        if a.len() >= 3 {
            assert(ea[3] == base64_char(a2 % 64));
            assert(eb[3] == base64_char(b2 % 64));
            assert(a2 / 64 == b2 / 64 && a2 % 64 == b2 % 64);
            assert(a2 == b2);
            let ra = base64_encoding(a.skip(3));
            let rb = base64_encoding(b.skip(3));
            assert(ra =~= ea.skip(4));
            assert(rb =~= base64_encoding(b).skip(4));
            lemma_base64_injective(a.skip(3), b.skip(3));
            assert forall|i: int| 0 <= i < a.len() implies a[i] == b[i] by {
                if i >= 3 {
                    assert(a[i] == a.skip(3)[i - 3]);
                    assert(b[i] == b.skip(3)[i - 3]);
                }
            }
        }
        assert(a =~= b);
    }
}

/// `<[u8]>::len`. Rust keeps every slice within `isize::MAX` bytes.
#[verifier::external_body]
fn byte_len(bytes: &[u8]) -> (n: usize)
    ensures
        n == bytes@.len(),
        n <= isize::MAX,
{
    bytes.len()
}

/// `base64::encode`: the standard, padded base64 encoding of `input`. It
/// panics only when the encoded length overflows `usize`, which an input of
/// at most `isize::MAX` bytes cannot make happen.
#[verifier::external_body]
fn base64_encode(input: &[u8]) -> (r: String)
    requires
        input@.len() <= isize::MAX,
    ensures
        r@ == base64_encoding(input@),
{
    base64::encode(input)
}

/// The HTTP Basic authorization value for the user `riot` and `password`.
pub open spec fn basic_authorization_spec(password: Seq<char>) -> Seq<char> {
    "Basic "@ + base64_encoding(text_bytes("riot:"@ + password))
}

/// The HTTP Basic authorization value with which the client accepts
/// requests: `Basic ` and the base64 of `riot:<password>`.
pub fn basic_authorization(password: &str) -> (r: String)
    ensures
        r@ == basic_authorization_spec(password@),
        r@ == "Basic "@ + base64_encoding(encode_utf8("riot:"@ + password@)),
{
    let credentials = String::from_str("riot:").concat(password);
    let bytes = credentials.as_str().as_bytes();
    // Establishes the length bound under which the encoder cannot overflow.
    let _len = byte_len(bytes);
    let encoded = base64_encode(bytes);
    String::from_str("Basic ").concat(encoded.as_str())
}

/// The authorization value carries the password unchanged: distinct
/// passwords give distinct values, so the value names one password.
pub proof fn lemma_authorization_determines_password(p: Seq<char>, q: Seq<char>)
    requires
        basic_authorization_spec(p) == basic_authorization_spec(q),
    ensures
        p == q,
{
    let cp = "riot:"@ + p;
    let cq = "riot:"@ + q;
    let ep = base64_encoding(encode_utf8(cp));
    let eq = base64_encoding(encode_utf8(cq));
    assert(ep =~= basic_authorization_spec(p).skip("Basic "@.len() as int));
    assert(eq =~= basic_authorization_spec(q).skip("Basic "@.len() as int));
    lemma_base64_injective(encode_utf8(cp), encode_utf8(cq));
    encode_utf8_decode_utf8(cp);
    encode_utf8_decode_utf8(cq);
    assert(p =~= cp.skip("riot:"@.len() as int));
    assert(q =~= cq.skip("riot:"@.len() as int));
}

/// Why the client's lockfile gave no connection details.
#[derive(Clone, Copy, Debug, PartialEq, Eq, Structural)]
pub enum LockfileError {
    /// There is no third field, the port.
    PortMissing,
    /// The third field is not a port number.
    PortInvalid,
    /// There is no fourth field, the password.
    TokenMissing,
}

/// The port and authorization value that the lockfile `contents`
/// (`name:pid:port:password:protocol`) give, or why it gives none.
pub open spec fn lockfile_connect_info(contents: Seq<char>) -> Result<(u16, Seq<char>), LockfileError> {
    let fields = split_fields(contents, ':');
    if fields.len() < 3 {
        Err(LockfileError::PortMissing)
    } else if parse_u16_spec(fields[2]) is None {
        Err(LockfileError::PortInvalid)
    } else if fields.len() < 4 {
        Err(LockfileError::TokenMissing)
    } else {
        Ok((parse_u16_spec(fields[2])->0, basic_authorization_spec(fields[3])))
    }
}

/// Reading a lockfile `name:pid:port:password:protocol`, whose first four
/// fields hold no `:`, gives back the port and the authorization value for
/// the password.
pub proof fn lemma_lockfile_roundtrip(
    name: Seq<char>,
    pid: Seq<char>,
    port: u16,
    password: Seq<char>,
    protocol: Seq<char>,
)
    requires
        !name.contains(':'),
        !pid.contains(':'),
        !password.contains(':'),
    ensures
        lockfile_connect_info(
            name + ":"@ + pid + ":"@ + decimal(port as nat) + ":"@ + password + ":"@ + protocol,
        ) == Ok::<(u16, Seq<char>), LockfileError>((port, basic_authorization_spec(password))),
        lockfile_connect_info(
            name + ":"@ + pid + ":"@ + decimal(port as nat) + ":"@ + password + ":"@ + protocol,
        ) == Ok::<(u16, Seq<char>), LockfileError>(
            (port, "Basic "@ + base64_encoding(encode_utf8("riot:"@ + password))),
        ),
{
    reveal_strlit(":");
    let sep = seq![':'];
    let digits = decimal(port as nat);
    let contents = name + ":"@ + pid + ":"@ + digits + ":"@ + password + ":"@ + protocol;
    let t3 = password + sep + protocol;
    let t2 = digits + sep + t3;
    let t1 = pid + sep + t2;
    assert(contents =~= name + sep + t1);
    lemma_decimal_lacks(port as nat, ':');
    lemma_split_fields_single(name, ':');
    lemma_split_fields_single(pid, ':');
    lemma_split_fields_single(digits, ':');
    lemma_split_fields_single(password, ':');
    lemma_split_fields_nonempty(protocol, ':');
    lemma_split_fields_join(password, protocol, ':');
    lemma_split_fields_join(digits, t3, ':');
    lemma_split_fields_join(pid, t2, ':');
    lemma_split_fields_join(name, t1, ':');
    let fields = split_fields(contents, ':');
    assert(fields =~= seq![name, pid, digits, password] + split_fields(protocol, ':'));
    assert(fields[2] == digits);
    assert(fields[3] == password);
    lemma_parse_decimal(port);
}

/// The port and authorization value of the running client, read from its
/// lockfile: the port is the third `:`-separated field and the password the
/// fourth.
pub fn lcu_connect_info_from_lockfile(contents: &str) -> (r: Result<(u16, String), LockfileError>)
    ensures
        match r {
            Ok((port, token)) => lockfile_connect_info(contents@) == Ok::<(u16, Seq<char>), LockfileError>((port, token@)),
            Err(e) => lockfile_connect_info(contents@) == Err::<(u16, Seq<char>), LockfileError>(e),
        },
        r matches Ok((port, token)) ==> split_fields(contents@, ':').len() >= 4 && parse_u16_spec(
            split_fields(contents@, ':')[2],
        ) == Some(port) && token@ == "Basic "@ + base64_encoding(
            encode_utf8("riot:"@ + split_fields(contents@, ':')[3]),
        ),
{
    let fields = split_text(contents, ':');
    if fields.len() < 3 {
        return Err(LockfileError::PortMissing);
    }
    let port = match parse_u16(fields[2].as_str()) {
        Some(p) => p,
        None => return Err(LockfileError::PortInvalid),
    };
    if fields.len() < 4 {
        return Err(LockfileError::TokenMissing);
    }
    let token = basic_authorization(fields[3].as_str());
    Ok((port, token))
}

/// The event topic of friend list changes.
pub const FRIENDS_EVENT: &'static str = "OnJsonApiEvent_lol-chat_v1_friends";

/// The event topic of lobby changes.
pub const LOBBY_EVENT: &'static str = "OnJsonApiEvent_lol-lobby_v2_lobby";

/// The items of the JSON array that `bytes` hold, each written back as JSON
/// text; `None` when `bytes` are not a JSON array.
pub uninterp spec fn json_array_items(bytes: Seq<u8>) -> Option<Seq<Seq<char>>>;

/// The string that the JSON text `text` holds; `None` when it holds no JSON
/// string.
pub uninterp spec fn json_string(text: Seq<char>) -> Option<Seq<char>>;

/// The member `key` of the JSON value that `text` holds, written back as JSON
/// text (`null` where the value has no such member); `None` when `text` is
/// not JSON.
pub uninterp spec fn json_member(text: Seq<char>, key: Seq<char>) -> Option<Seq<char>>;

/// `serde_json::from_slice::<serde_json::Value>`, then each item of the
/// array written back with `Value`'s `to_string`. Claims only that the
/// result is a function of the bytes.
#[verifier::external_body]
fn json_array_texts(bytes: &[u8]) -> (r: Option<Vec<String>>)
    ensures
        r.deep_view() == json_array_items(bytes@),
{
    match serde_json::from_slice::<serde_json::Value>(bytes) {
        Ok(serde_json::Value::Array(items)) => Some(items.iter().map(|item| item.to_string()).collect()),
        _ => None,
    }
}

/// `serde_json::from_str::<String>`. Claims only that the result is a
/// function of the text.
#[verifier::external_body]
fn json_string_value(text: &str) -> (r: Option<String>)
    ensures
        r.deep_view() == json_string(text@),
{
    serde_json::from_str::<String>(text).ok()
}

/// `serde_json::from_str::<serde_json::Value>`, then the member `key` by
/// `Value`'s indexing, written back with `to_string`. Claims only that the
/// result is a function of the text and the key.
#[verifier::external_body]
fn json_member_text(text: &str, key: &str) -> (r: Option<String>)
    ensures
        r.deep_view() == json_member(text@, key@),
{
    serde_json::from_str::<serde_json::Value>(text).ok().map(|value| value[key].to_string())
}

/// What to do with a message from the client's WAMP interface.
pub enum WampRoute {
    /// Not an event: ignore it.
    Skip,
    /// A friend changed; the payload is the friend as JSON text.
    FriendUpdate(String),
    /// The lobby changed; the payload is the lobby, or `null`, as JSON text.
    LobbyUpdate(String),
    /// An event of a topic that the client does not follow.
    Unmatched(String),
}

/// The content of a [`WampRoute`].
pub enum WampRouteView {
    Skip,
    FriendUpdate(Seq<char>),
    LobbyUpdate(Seq<char>),
    Unmatched(Seq<char>),
}

impl View for WampRoute {
    type V = WampRouteView;

    open spec fn view(&self) -> WampRouteView {
        match self {
            WampRoute::Skip => WampRouteView::Skip,
            WampRoute::FriendUpdate(p) => WampRouteView::FriendUpdate(p@),
            WampRoute::LobbyUpdate(p) => WampRouteView::LobbyUpdate(p@),
            WampRoute::Unmatched(e) => WampRouteView::Unmatched(e@),
        }
    }
}

/// The topics that the client follows.
#[derive(Clone, Copy, Debug, PartialEq, Eq, Structural)]
pub enum EventTopic {
    Friends,
    Lobby,
    Other,
}

/// The topic an event name stands for.
pub open spec fn topic_of(event: Seq<char>) -> EventTopic {
    if event == FRIENDS_EVENT@ {
        EventTopic::Friends
    } else if event == LOBBY_EVENT@ {
        EventTopic::Lobby
    } else {
        EventTopic::Other
    }
}

/// The topic an event name stands for.
pub fn classify_topic(event: &str) -> (t: EventTopic)
    ensures
        t == topic_of(event@),
{
    if text_eq(event, FRIENDS_EVENT) {
        EventTopic::Friends
    } else if text_eq(event, LOBBY_EVENT) {
        EventTopic::Lobby
    } else {
        EventTopic::Other
    }
}

/// The payload text of an event: its `data` member, or `null` when the
/// member could not be read.
pub open spec fn payload_text(data: Option<Seq<char>>) -> Seq<char> {
    match data {
        Some(text) => text,
        None => "null"@,
    }
}

/// The payload text of an event: its `data` member, or `null` when the
/// member could not be read.
pub fn event_payload(data: Option<String>) -> (r: String)
    ensures
        r@ == payload_text(data.deep_view()),
{
    match data {
        Some(text) => text,
        None => String::from_str("null"),
    }
}

/// Where a WAMP message with the JSON array items `items` goes: an event has
/// at least three items, the second being the topic; friend and lobby events
/// carry the `data` member of the third item.
pub open spec fn route_of_items(items: Seq<Seq<char>>) -> WampRouteView {
    if items.len() < 3 {
        WampRouteView::Skip
    } else {
        match json_string(items[1]) {
            None => WampRouteView::Skip,
            Some(event) => match topic_of(event) {
                EventTopic::Friends => WampRouteView::FriendUpdate(
                    payload_text(json_member(items[2], "data"@)),
                ),
                EventTopic::Lobby => WampRouteView::LobbyUpdate(
                    payload_text(json_member(items[2], "data"@)),
                ),
                EventTopic::Other => WampRouteView::Unmatched(event),
            },
        }
    }
}

/// A message routes by its topic: it is a friend update exactly when it has
/// at least three items and the second is the friends topic, a lobby update
/// exactly when the second is the lobby topic, and either update carries the
/// `data` member of the third item; a message with fewer items, or whose
/// second item is no string, is skipped, and any other topic is reported as
/// unmatched with its name.
pub proof fn lemma_route_by_topic(items: Seq<Seq<char>>)
    ensures
        (route_of_items(items) is FriendUpdate) == (items.len() >= 3 && json_string(items[1])
            == Some("OnJsonApiEvent_lol-chat_v1_friends"@)),
        (route_of_items(items) is LobbyUpdate) == (items.len() >= 3 && json_string(items[1])
            == Some("OnJsonApiEvent_lol-lobby_v2_lobby"@)),
        (route_of_items(items) is Skip) == (items.len() < 3 || json_string(items[1]) is None),
        route_of_items(items) matches WampRouteView::FriendUpdate(p) ==> p == payload_text(
            json_member(items[2], "data"@),
        ),
        route_of_items(items) matches WampRouteView::LobbyUpdate(p) ==> p == payload_text(
            json_member(items[2], "data"@),
        ),
        route_of_items(items) matches WampRouteView::Unmatched(e) ==> items.len() >= 3
            && json_string(items[1]) == Some(e) && e != "OnJsonApiEvent_lol-chat_v1_friends"@ && e
            != "OnJsonApiEvent_lol-lobby_v2_lobby"@,
{
    reveal_strlit("OnJsonApiEvent_lol-chat_v1_friends");
    reveal_strlit("OnJsonApiEvent_lol-lobby_v2_lobby");
    assert(FRIENDS_EVENT@.len() != LOBBY_EVENT@.len());
}

/// Where a WAMP message goes: messages that are not JSON arrays are skipped,
/// the others go by their items.
pub open spec fn wamp_route_of(bytes: Seq<u8>) -> WampRouteView {
    match json_array_items(bytes) {
        None => WampRouteView::Skip,
        Some(items) => route_of_items(items),
    }
}

/// Routes a WAMP message given as the items of its JSON array, each as JSON
/// text.
pub fn route_wamp_items(items: Vec<String>) -> (r: WampRoute)
    ensures
        r@ == route_of_items(items.deep_view()),
{
    if items.len() < 3 {
        return WampRoute::Skip;
    }
    assert(items.deep_view()[1] == items@[1]@);
    assert(items.deep_view()[2] == items@[2]@);
    let event = match json_string_value(items[1].as_str()) {
        Some(event) => event,
        None => return WampRoute::Skip,
    };
    match classify_topic(event.as_str()) {
        EventTopic::Friends => WampRoute::FriendUpdate(
            event_payload(json_member_text(items[2].as_str(), "data")),
        ),
        EventTopic::Lobby => WampRoute::LobbyUpdate(
            event_payload(json_member_text(items[2].as_str(), "data")),
        ),
        EventTopic::Other => WampRoute::Unmatched(event),
    }
}

/// Routes a message of the client's WAMP interface.
pub fn route_wamp_message(bytes: &[u8]) -> (r: WampRoute)
    ensures
        r@ == wamp_route_of(bytes@),
{
    match json_array_texts(bytes) {
        Some(items) => route_wamp_items(items),
        None => WampRoute::Skip,
    }
}

} // verus!
