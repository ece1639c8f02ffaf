//! The Cloudflare client API: what is sent to it and what its answers mean.

use vstd::prelude::*;
use vstd::string::*;

use rand::Rng;

use crate::codec::{
    base64_encode, base64_text, hex_bytes_text, hex_encode, law_base64_is_unambiguous,
};
use crate::handshake::{format_status, header_texts, status_text};
use crate::text::{
    join_strings, join_text, law_joining_separates, str_eq, texts, trim_text, trimmed,
};

verus! {

pub const API_URL: &'static str = "https://api.cloudflareclient.com";

pub const API_VERSION: &'static str = "v0a4471";

/// The host name that a tunnel presents in its TLS handshake.
pub const CONNECT_SNI: &'static str = "consumer-masque.cloudflareclient.com";

/// The URI of a tunnel's CONNECT request.
pub const CONNECT_URI: &'static str = "https://cloudflareaccess.com";

pub const DEFAULT_MODEL: &'static str = "PC";

pub const DEFAULT_LOCALE: &'static str = "en_US";

pub const KEY_TYPE_WG: &'static str = "curve25519";

pub const TUN_TYPE_WG: &'static str = "wireguard";

pub const KEY_TYPE_MASQUE: &'static str = "secp256r1";

pub const TUN_TYPE_MASQUE: &'static str = "masque";

/// What the API says of a key that it does not take.
pub const INVALID_PUBLIC_KEY: &'static str = "Invalid public key";

/// A request to register a client.
#[derive(Debug, Clone)]
pub struct Registration {
    pub key: String,
    pub install_id: String,
    pub fcm_token: String,
    pub tos: String,
    pub model: String,
    pub serial: String,
    pub os_version: String,
    pub key_type: String,
    pub tun_type: String,
    pub locale: String,
}

/// A client as the API knows it.
#[derive(Debug, Clone)]
pub struct AccountData {
    pub id: String,
    pub account_type: String,
    pub model: String,
    pub name: String,
    pub key: String,
    pub key_type: String,
    pub tun_type: String,
    pub account: Account,
    pub config: WarpConfig,
    pub token: Option<String>,
}

#[derive(Debug, Clone)]
pub struct Account {
    pub license: String,
}

#[derive(Debug, Clone)]
pub struct WarpConfig {
    pub peers: Vec<Peer>,
    pub interface: InterfaceConfig,
}

#[derive(Debug, Clone)]
pub struct InterfaceConfig {
    pub addresses: AddressPair,
}

#[derive(Debug, Clone)]
pub struct AddressPair {
    pub v4: String,
    pub v6: String,
}

#[derive(Debug, Clone)]
pub struct Peer {
    pub public_key: String,
    pub endpoint: Endpoint,
}

#[derive(Debug, Clone)]
pub struct Endpoint {
    pub v4: String,
    pub v6: String,
}

/// A request to give a client another key.
#[derive(Debug, Clone)]
pub struct DeviceUpdate {
    pub key: String,
    pub key_type: String,
    pub tun_type: String,
    pub name: String,
}

/// What the API says of a request that it refuses.
#[derive(Debug, Clone)]
pub struct ApiErrorBody {
    pub success: bool,
    pub errors: Vec<ErrorInfo>,
}

#[derive(Debug, Clone)]
pub struct ErrorInfo {
    pub code: i32,
    pub message: String,
}

/// The messages of a list of errors.
pub open spec fn error_messages(errors: Seq<ErrorInfo>) -> Seq<Seq<char>> {
    errors.map_values(|e: ErrorInfo| e.message@)
}

impl ApiErrorBody {
    /// Whether one of the errors has a message.
    pub fn has_error_message(&self, message: &str) -> (r: bool)
        ensures
            r == error_messages(self.errors@).contains(message@),
    {
        let mut i: usize = 0;
        while i < self.errors.len()
            invariant
                i <= self.errors@.len(),
                forall|j: int| 0 <= j < i ==> (#[trigger] self.errors@[j]).message@ != message@,
            decreases self.errors@.len() - i,
        {
            if str_eq(self.errors[i].message.as_str(), message) {
                assert(error_messages(self.errors@)[i as int] == message@);
                return true;
            }
            i = i + 1;
        }
        proof {
            let all = error_messages(self.errors@);
            if all.contains(message@) {
                let k = choose|k: int| 0 <= k < all.len() && all[k] == message@;
                assert(self.errors@[k].message@ == message@);
            }
        }
        false
    }

    /// The messages of all errors, with a separator between each two.
    pub fn errors_as_string(&self, separator: &str) -> (out: String)
        ensures
            out@ == join_text(error_messages(self.errors@), separator@),
    {
        let mut messages: Vec<String> = Vec::new();
        let mut i: usize = 0;
        while i < self.errors.len()
            invariant
                i <= self.errors@.len(),
                texts(messages@) =~= error_messages(self.errors@).take(i as int),
            decreases self.errors@.len() - i,
        {
            let ghost before = messages@;
            messages.push(self.errors[i].message.clone());
            i = i + 1;
            assert(texts(messages@) =~= texts(before).push(
                self.errors@[i - 1].message@,
            ));
        }
        assert(error_messages(self.errors@).take(self.errors@.len() as int) =~= error_messages(
            self.errors@,
        ));
        join_strings(&messages, separator)
    }
}

/// A request that the API refused, or that did not come through.
#[derive(Debug, Clone)]
pub struct ApiError {
    pub body: ApiErrorBody,
    pub status: u16,
}

impl ApiError {
    /// What the error says.
    pub open spec fn text(&self) -> Seq<char> {
        "API error "@ + status_text(self.status) + ": "@ + join_text(
            error_messages(self.body.errors@),
            "; "@,
        )
    }

    /// Writes the error as a message.
    pub fn message(&self) -> (out: String)
        requires
            100 <= self.status <= 999,
        ensures
            out@ == self.text(),
    {
        "API error ".to_owned().concat(format_status(self.status).as_str()).concat(": ").concat(
            self.body.errors_as_string("; ").as_str(),
        )
    }

    /// An error of the client's own making, with a reason.
    pub fn local(status: u16, reason: String) -> (r: ApiError)
        ensures
            is_local_error(r, status, reason@),
    {
        let mut errors: Vec<ErrorInfo> = Vec::new();
        errors.push(ErrorInfo { code: 0, message: reason });
        ApiError { body: ApiErrorBody { success: false, errors }, status }
    }
}

/// Whether an error is one of the client's own making: no success, a single
/// reason with code zero.
pub open spec fn is_local_error(err: ApiError, status: u16, reason: Seq<char>) -> bool {
    &&& err.status == status
    &&& !err.body.success
    &&& err.body.errors@.len() == 1
    &&& err.body.errors@[0].code == 0
    &&& err.body.errors@[0].message@ == reason
}

/// Whether a text has the layout of a timestamp with milliseconds and an
/// offset, such as `2006-01-02T15:04:05.000-07:00`, seen from its end. The year
/// in front has four digits, or a sign and more.
pub open spec fn timestamp_layout(s: Seq<char>) -> bool {
    let n = s.len() as int;
    &&& n >= 29
    &&& s[n - 3] == ':'
    &&& s[n - 6] == '+' || s[n - 6] == '-'
    &&& s[n - 10] == '.'
    &&& s[n - 13] == ':'
    &&& s[n - 16] == ':'
    &&& s[n - 19] == 'T'
    &&& s[n - 22] == '-'
    &&& s[n - 25] == '-'
    &&& forall|i: int|
        n - 29 <= i < n && i != n - 3 && i != n - 6 && i != n - 10 && i != n - 13 && i != n - 16
            && i != n - 19 && i != n - 22 && i != n - 25 ==> '0' <= #[trigger] s[i] <= '9'
    &&& n > 29 ==> s[0] == '+' || s[0] == '-'
    &&& forall|i: int| 1 <= i < n - 29 ==> '0' <= #[trigger] s[i] <= '9'
}

/// `chrono::Local::now` in the format `%Y-%m-%dT%H:%M:%S%.3f%:z`. What holds
/// at any time and in any zone is the layout; which time it is depends on the
/// clock, which has to be set to a year after 1969.
#[verifier::external_body]
fn local_time() -> (out: String)
    ensures
        timestamp_layout(out@),
{
    chrono::Local::now().format("%Y-%m-%dT%H:%M:%S%.3f%:z").to_string()
}

/// `rand::rng` and `Rng::fill_bytes`: as many bytes as are asked for, which
/// are chance. There are none on a system that has no randomness to give.
#[verifier::external_body]
fn random_bytes(n: usize) -> (out: Vec<u8>)
    requires
        n <= isize::MAX,
    ensures
        out@.len() == n,
{
    let mut out = vec![0u8; n];
    rand::rng().fill_bytes(&mut out);
    out
}

/// Generates what passes for a WireGuard public key: 32 random bytes in
/// base64.
pub fn generate_random_wg_pubkey() -> (out: String)
    ensures
        exists|key: Seq<u8>| key.len() == 32 && #[trigger] base64_text(key) == out@,
{
    let key = random_bytes(32);
    let out = base64_encode(key.as_slice());
    assert(base64_text(key@) == out@);
    out
}

/// Generates what passes for an Android serial number: eight random bytes in
/// hexadecimal.
pub fn generate_random_android_serial() -> (out: String)
    ensures
        exists|serial: Seq<u8>| serial.len() == 8 && #[trigger] hex_bytes_text(serial) == out@,
{
    let serial = random_bytes(8);
    let out = hex_encode(serial.as_slice());
    assert(hex_bytes_text(serial@) == out@);
    out
}

/// The headers that every request has.
pub open spec fn default_header_texts() -> Seq<(Seq<char>, Seq<char>)> {
    seq![
        ("user-agent"@, "WARP for Android"@),
        ("CF-Client-Version"@, "a-6.35-4471"@),
        ("content-type"@, "application/json; charset=UTF-8"@),
        ("Connection"@, "Keep-Alive"@),
    ]
}

/// The client of the API.
pub struct CloudflareClient;

impl CloudflareClient {
    /// The headers that every request has.
    pub fn default_headers() -> (out: Vec<(String, String)>)
        ensures
            header_texts(out@) == default_header_texts(),
    {
        let mut out: Vec<(String, String)> = Vec::new();
        out.push(("user-agent".to_owned(), "WARP for Android".to_owned()));
        out.push(("CF-Client-Version".to_owned(), "a-6.35-4471".to_owned()));
        out.push(("content-type".to_owned(), "application/json; charset=UTF-8".to_owned()));
        out.push(("Connection".to_owned(), "Keep-Alive".to_owned()));
        assert(header_texts(out@) =~= default_header_texts());
        out
    }

    /// The local time in the layout that the API expects.
    pub fn cf_time_string() -> (out: String)
        ensures
            timestamp_layout(out@),
    {
        local_time()
    }
}

/// A text, or a default where it is empty.
pub open spec fn or_default(text: Seq<char>, default: Seq<char>) -> Seq<char> {
    if text.len() == 0 {
        default
    } else {
        text
    }
}

fn text_or(text: &str, default: &str) -> (out: String)
    ensures
        out@ == or_default(text@, default@),
{
    if text.is_empty() {
        default.to_owned()
    } else {
        text.to_owned()
    }
}

/// Makes the registration of a client, with what chance and the clock gave.
pub fn registration(
    model: &str,
    locale: &str,
    key: String,
    tos: String,
    serial: String,
) -> (r: Registration)
    ensures
        r.key@ == key@,
        r.install_id@ == ""@,
        r.fcm_token@ == ""@,
        r.tos@ == tos@,
        r.model@ == or_default(model@, DEFAULT_MODEL@),
        r.serial@ == serial@,
        r.os_version@ == ""@,
        r.key_type@ == KEY_TYPE_WG@,
        r.tun_type@ == TUN_TYPE_WG@,
        r.locale@ == or_default(locale@, DEFAULT_LOCALE@),
{
    Registration {
        key,
        install_id: "".to_owned(),
        fcm_token: "".to_owned(),
        tos,
        model: text_or(model, DEFAULT_MODEL),
        serial,
        os_version: "".to_owned(),
        key_type: KEY_TYPE_WG.to_owned(),
        tun_type: TUN_TYPE_WG.to_owned(),
        locale: text_or(locale, DEFAULT_LOCALE),
    }
}

/// Whether an answer is yes: `y`, with or without white space around it.
pub fn is_yes(answer: &str) -> (r: bool)
    ensures
        r == (trim_text(answer@) == "y"@),
{
    str_eq(trimmed(answer).as_str(), "y")
}

/// A request to the API: where it goes, and its headers.
pub struct ApiRequest {
    pub url: String,
    pub headers: Vec<(String, String)>,
}

/// Whether a request with a body registers a client. A token, where there is
/// one that is not empty, goes into a header of its own.
pub open spec fn registers(
    request: ApiRequest,
    body: Registration,
    model: Seq<char>,
    locale: Seq<char>,
    jwt: Option<Seq<char>>,
) -> bool {
    &&& request.url@ == API_URL@ + "/"@ + API_VERSION@ + "/reg"@
    &&& header_texts(request.headers@) == (match jwt {
        Some(token) => if token.len() > 0 {
            default_header_texts().push(("CF-Access-Jwt-Assertion"@, token))
        } else {
            default_header_texts()
        },
        None => default_header_texts(),
    })
    &&& timestamp_layout(body.tos@)
    &&& exists|key: Seq<u8>| key.len() == 32 && #[trigger] base64_text(key) == body.key@
    &&& exists|serial: Seq<u8>|
        serial.len() == 8 && #[trigger] hex_bytes_text(serial) == body.serial@
    &&& body.model@ == or_default(model, DEFAULT_MODEL@)
    &&& body.locale@ == or_default(locale, DEFAULT_LOCALE@)
    &&& body.key_type@ == KEY_TYPE_WG@
    &&& body.tun_type@ == TUN_TYPE_WG@
    &&& body.install_id@ == ""@
    &&& body.fcm_token@ == ""@
    &&& body.os_version@ == ""@
}

/// Makes the registration of a client and the request that carries it.
pub fn register(model: &str, locale: &str, jwt: Option<&str>) -> (r: (ApiRequest, Registration))
    ensures
        registers(
            r.0,
            r.1,
            model@,
            locale@,
            match jwt {
                Some(token) => Some(token@),
                None => None,
            },
        ),
{
    let body = registration(
        model,
        locale,
        generate_random_wg_pubkey(),
        CloudflareClient::cf_time_string(),
        generate_random_android_serial(),
    );
    let url = API_URL.to_owned().concat("/").concat(API_VERSION).concat("/reg");
    let mut headers = CloudflareClient::default_headers();
    if let Some(token) = jwt {
        if !token.is_empty() {
            let ghost before = headers@;
            headers.push(("CF-Access-Jwt-Assertion".to_owned(), token.to_owned()));
            assert(header_texts(headers@) =~= header_texts(before).push(
                ("CF-Access-Jwt-Assertion"@, token@),
            ));
        }
    }
    (ApiRequest { url, headers }, body)
}

/// Whether a status means success.
pub open spec fn success_status(status: u16) -> bool {
    200 <= status <= 299
}

/// Tells whether a status means success.
pub fn is_success(status: u16) -> (r: bool)
    ensures
        r == success_status(status),
{
    200 <= status && status <= 299
}

/// Judges the answer to a registration. A refusal is told with its status
/// and, where there is one, its body.
pub fn check_registered(status: u16, body: &str) -> (r: Result<(), String>)
    requires
        100 <= status <= 999,
    ensures
        match r {
            Ok(()) => success_status(status),
            Err(text) => !success_status(status) && text@ == (if body@.len() == 0 {
                "failed to register: "@ + status_text(status)
            } else {
                "failed to register: "@ + status_text(status) + ": "@ + body@
            }),
        },
{
    if is_success(status) {
        return Ok(());
    }
    let text = "failed to register: ".to_owned().concat(format_status(status).as_str());
    if body.is_empty() {
        Err(text)
    } else {
        Err(text.concat(": ").concat(body))
    }
}

/// Whether a request with a body gives a client another key.
pub open spec fn enrolls(
    request: ApiRequest,
    body: DeviceUpdate,
    device_id: Seq<char>,
    access_token: Seq<char>,
    pub_key: Seq<u8>,
    device_name: Seq<char>,
) -> bool {
    &&& request.url@ == API_URL@ + "/"@ + API_VERSION@ + "/reg/"@ + device_id
    &&& header_texts(request.headers@) == default_header_texts().push(
        ("authorization"@, "Bearer "@ + access_token),
    )
    &&& body.key@ == base64_text(pub_key)
    &&& body.key_type@ == KEY_TYPE_MASQUE@
    &&& body.tun_type@ == TUN_TYPE_MASQUE@
    &&& body.name@ == device_name
}

/// Makes the update that gives a client another key, and the request that
/// carries it.
pub fn enroll_key(device_id: &str, access_token: &str, pub_key: &[u8], device_name: &str) -> (r: (
    ApiRequest,
    DeviceUpdate,
))
    requires
        pub_key@.len() <= isize::MAX / 2,
    ensures
        enrolls(r.0, r.1, device_id@, access_token@, pub_key@, device_name@),
{
    let update = DeviceUpdate {
        key: base64_encode(pub_key),
        key_type: KEY_TYPE_MASQUE.to_owned(),
        tun_type: TUN_TYPE_MASQUE.to_owned(),
        name: device_name.to_owned(),
    };
    let url = API_URL.to_owned().concat("/").concat(API_VERSION).concat("/reg/").concat(device_id);
    let mut headers = CloudflareClient::default_headers();
    let ghost before = headers@;
    headers.push(("authorization".to_owned(), "Bearer ".to_owned().concat(access_token)));
    assert(header_texts(headers@) =~= header_texts(before).push(
        ("authorization"@, "Bearer "@ + access_token@),
    ));
    (ApiRequest { url, headers }, update)
}

/// What came of a request to enroll a key.
pub enum EnrollReply {
    /// The request was not sent.
    NotSent(String),
    /// The body of the answer was not received.
    NoBody(u16, String),
    /// An answer came, with a status and a body. The body decodes as an
    /// account and as a refusal, or there are reasons why it does not.
    Answered(u16, Result<AccountData, String>, Result<ApiErrorBody, String>),
}

/// Judges what came of a request to enroll a key. The status of an answer
/// decides what its body is taken for.
pub fn check_enrolled(reply: EnrollReply) -> (r: Result<AccountData, ApiError>)
    ensures
        match reply {
            EnrollReply::NotSent(reason) => r matches Err(err) && is_local_error(
                err,
                400,
                reason@,
            ),
            EnrollReply::NoBody(status, reason) => r matches Err(err) && is_local_error(
                err,
                status,
                reason@,
            ),
            EnrollReply::Answered(status, account, refusal) => if success_status(status) {
                match account {
                    Ok(data) => r == Ok::<AccountData, ApiError>(data),
                    Err(reason) => r matches Err(err) && is_local_error(err, status, reason@),
                }
            } else {
                match refusal {
                    Ok(body) => r == Err::<AccountData, ApiError>(ApiError { body, status }),
                    Err(reason) => r matches Err(err) && is_local_error(err, status, reason@),
                }
            },
        },
{
    match reply {
        EnrollReply::NotSent(reason) => Err(ApiError::local(400, reason)),
        EnrollReply::NoBody(status, reason) => Err(ApiError::local(status, reason)),
        EnrollReply::Answered(status, account, refusal) => {
            if is_success(status) {
                match account {
                    Ok(data) => Ok(data),
                    Err(reason) => Err(ApiError::local(status, reason)),
                }
            } else {
                match refusal {
                    Ok(body) => Err(ApiError { body, status }),
                    Err(reason) => Err(ApiError::local(status, reason)),
                }
            }
        },
    }
}

/// The update of a device goes to the address of that device, under the token
/// of the client, with the key in base64.
pub proof fn law_enrollment_request(
    request: ApiRequest,
    body: DeviceUpdate,
    device_id: Seq<char>,
    access_token: Seq<char>,
    pub_key: Seq<u8>,
    device_name: Seq<char>,
)
    requires
        enrolls(request, body, device_id, access_token, pub_key, device_name),
    ensures
        request.url@ == "https://api.cloudflareclient.com/v0a4471/reg/"@ + device_id,
        header_texts(request.headers@).contains(("authorization"@, "Bearer "@ + access_token)),
        forall|name: Seq<char>, value: Seq<char>|
            name == "authorization"@ && header_texts(request.headers@).contains((name, value))
                ==> value == "Bearer "@ + access_token,
        carries_the_client_headers(header_texts(request.headers@)),
        base64_bytes_of(body.key@, pub_key),
        body.key_type@ == "secp256r1"@,
        body.tun_type@ == "masque"@,
        body.name@ == device_name,
{
    lemma_api_urls(device_id);
    lemma_client_headers();
    assert forall|b: Seq<u8>| #[trigger] base64_text(b) == body.key@ implies b == pub_key by {
        law_base64_is_unambiguous(b, pub_key);
    }
    let h = header_texts(request.headers@);
    let d = default_header_texts();
    assert(h == d.push(("authorization"@, "Bearer "@ + access_token)));
    assert(h[4] == ("authorization"@, "Bearer "@ + access_token));
    assert(h[0] == d[0] && h[1] == d[1] && h[2] == d[2] && h[3] == d[3]);
    assert forall|name: Seq<char>, value: Seq<char>|
        name == "authorization"@ && h.contains((name, value)) implies value == "Bearer "@
        + access_token by {
        let k = choose|k: int| 0 <= k < h.len() && h[k] == (name, value);
        if k < 4 {
            assert(h[k] == d[k]);
        }
    }
}

/// Whether a text is the base64 of bytes and of no others.
pub open spec fn base64_bytes_of(text: Seq<char>, bytes: Seq<u8>) -> bool {
    forall|b: Seq<u8>| #[trigger] base64_text(b) == text <==> b == bytes
}

/// Whether headers name the client that the API expects.
pub open spec fn carries_the_client_headers(headers: Seq<(Seq<char>, Seq<char>)>) -> bool {
    &&& headers.contains(("user-agent"@, "WARP for Android"@))
    &&& headers.contains(("CF-Client-Version"@, "a-6.35-4471"@))
    &&& headers.contains(("content-type"@, "application/json; charset=UTF-8"@))
    &&& headers.contains(("Connection"@, "Keep-Alive"@))
}

proof fn lemma_client_headers()
    ensures
        default_header_texts().len() == 4,
        forall|k: int| 0 <= k < 4 ==> (#[trigger] default_header_texts()[k]).0 != "authorization"@,
        forall|k: int|
            0 <= k < 4 ==> (#[trigger] default_header_texts()[k]).0 != "CF-Access-Jwt-Assertion"@,
{
    reveal_strlit("user-agent");
    reveal_strlit("CF-Client-Version");
    reveal_strlit("content-type");
    reveal_strlit("Connection");
    reveal_strlit("authorization");
    reveal_strlit("CF-Access-Jwt-Assertion");
    assert("user-agent"@.len() == 10 && "CF-Client-Version"@.len() == 17 && "content-type"@.len()
        == 12 && "Connection"@.len() == 10 && "authorization"@.len() == 13
        && "CF-Access-Jwt-Assertion"@.len() == 23);
}

proof fn lemma_api_urls(device_id: Seq<char>)
    ensures
        API_URL@ + "/"@ + API_VERSION@ + "/reg"@ == "https://api.cloudflareclient.com/v0a4471/reg"@,
        API_URL@ + "/"@ + API_VERSION@ + "/reg/"@ + device_id
            == "https://api.cloudflareclient.com/v0a4471/reg/"@ + device_id,
{
    reveal_strlit("https://api.cloudflareclient.com");
    reveal_strlit("/");
    reveal_strlit("v0a4471");
    reveal_strlit("/reg");
    reveal_strlit("/reg/");
    reveal_strlit("https://api.cloudflareclient.com/v0a4471/reg");
    reveal_strlit("https://api.cloudflareclient.com/v0a4471/reg/");
    assert(API_URL@ + "/"@ + API_VERSION@ + "/reg"@
        =~= "https://api.cloudflareclient.com/v0a4471/reg"@);
    assert(API_URL@ + "/"@ + API_VERSION@ + "/reg/"@
        =~= "https://api.cloudflareclient.com/v0a4471/reg/"@);
}

/// A registration goes to the address for new clients. It names the model and
/// the locale, `PC` and `en_US` where none is given, and a WireGuard key. A
/// token goes into a header of its own, and there is no such header without.
pub proof fn law_registration_request(
    request: ApiRequest,
    body: Registration,
    model: Seq<char>,
    locale: Seq<char>,
    jwt: Option<Seq<char>>,
)
    requires
        registers(request, body, model, locale, jwt),
    ensures
        request.url@ == "https://api.cloudflareclient.com/v0a4471/reg"@,
        carries_the_client_headers(header_texts(request.headers@)),
        forall|value: Seq<char>| #[trigger]
            header_texts(request.headers@).contains(("CF-Access-Jwt-Assertion"@, value)) <==> jwt
                == Some(value) && value.len() > 0,
        model.len() > 0 ==> body.model@ == model,
        model.len() == 0 ==> body.model@ == "PC"@,
        locale.len() > 0 ==> body.locale@ == locale,
        locale.len() == 0 ==> body.locale@ == "en_US"@,
        body.key_type@ == "curve25519"@,
        body.tun_type@ == "wireguard"@,
        body.install_id@.len() == 0,
        body.fcm_token@.len() == 0,
        body.os_version@.len() == 0,
        timestamp_layout(body.tos@),
{
    reveal_strlit("");
    lemma_api_urls(Seq::empty());
    lemma_client_headers();
    let h = header_texts(request.headers@);
    let d = default_header_texts();
    assert(h[0] == d[0] && h[1] == d[1] && h[2] == d[2] && h[3] == d[3]);
    assert forall|value: Seq<char>| #[trigger]
        h.contains(("CF-Access-Jwt-Assertion"@, value)) <==> jwt == Some(value) && value.len()
            > 0 by {
        if h.contains(("CF-Access-Jwt-Assertion"@, value)) {
            let k = choose|k: int| 0 <= k < h.len() && h[k] == ("CF-Access-Jwt-Assertion"@, value);
            if k < 4 {
                assert(h[k] == d[k]);
            }
        }
        if jwt == Some(value) && value.len() > 0 {
            assert(h[4] == ("CF-Access-Jwt-Assertion"@, value));
        }
    }
}

/// The statuses from 200 to 299 mean success, and no others.
pub proof fn law_statuses_of_success(status: u16)
    ensures
        success_status(status) <==> status / 100 == 2,
{
}

/// What an error says starts with its status, and ends with all that the API
/// said, with semicolons in between.
pub proof fn law_error_tells_all(err: ApiError, errors: Seq<ErrorInfo>, last: ErrorInfo)
    requires
        errors.len() > 0,
        err.body.errors@ == errors.push(last),
    ensures
        err.text() == "API error "@ + status_text(err.status) + ": "@ + (join_text(
            error_messages(errors),
            "; "@,
        ) + "; "@ + last.message@),
{
    law_joining_separates(error_messages(errors), last.message@, "; "@);
    assert(error_messages(errors.push(last)) =~= error_messages(errors).push(last.message@));
}

/// A text with the layout of a timestamp that starts with a digit has 29
/// characters, with the marks of a date, of a time with milliseconds and of an
/// offset in their places, and digits everywhere else.
pub proof fn law_timestamp_by_its_places(s: Seq<char>, i: int)
    requires
        timestamp_layout(s),
        '0' <= s[0] <= '9',
    ensures
        s.len() == 29,
        s[4] == '-' && s[7] == '-' && s[10] == 'T' && s[13] == ':' && s[16] == ':' && s[19] == '.',
        s[23] == '+' || s[23] == '-',
        s[26] == ':',
        0 <= i < 29 && i != 4 && i != 7 && i != 10 && i != 13 && i != 16 && i != 19 && i != 23 && i
            != 26 ==> '0' <= s[i] <= '9',
{
}

/// An error of the client's own making tells its reason and nothing else.
pub proof fn law_own_errors_tell_their_reason(err: ApiError, status: u16, reason: Seq<char>)
    requires
        is_local_error(err, status, reason),
    ensures
        err.status == status,
        !err.body.success,
        error_messages(err.body.errors@) == seq![reason],
        err.text() == "API error "@ + status_text(status) + ": "@ + reason,
{
    assert(error_messages(err.body.errors@) =~= seq![reason]);
    law_joining_separates(Seq::empty(), reason, "; "@);
}

/// The name that the endpoint is asked for under, and what the API says of a
/// key that it does not take.
pub proof fn law_names_of_the_service()
    ensures
        CONNECT_SNI@ == "consumer-masque.cloudflareclient.com"@,
        CONNECT_URI@ == "https://cloudflareaccess.com"@,
        INVALID_PUBLIC_KEY@ == "Invalid public key"@,
{
}

/// Errors are told by their messages, in their order.
pub proof fn law_messages_are_told(errors: Seq<ErrorInfo>, i: int)
    ensures
        error_messages(errors).len() == errors.len(),
        0 <= i < errors.len() ==> error_messages(errors)[i] == errors[i].message@,
{
}

} // verus!
