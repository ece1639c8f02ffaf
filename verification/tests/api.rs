use base64::engine::general_purpose::STANDARD;
use base64::Engine as _;
use usque::api::{
    check_enrolled, check_registered, enroll_key, generate_random_android_serial,
    generate_random_wg_pubkey, is_success, is_yes, register, registration, Account, AccountData,
    AddressPair, ApiError, ApiErrorBody, CloudflareClient, EnrollReply, ErrorInfo, InterfaceConfig,
    WarpConfig,
};

fn body(messages: &[&str]) -> ApiErrorBody {
    ApiErrorBody {
        success: false,
        errors: messages
            .iter()
            .map(|m| ErrorInfo { code: 7, message: m.to_string() })
            .collect(),
    }
}

fn account() -> AccountData {
    AccountData {
        id: "id".to_string(),
        account_type: String::new(),
        model: String::new(),
        name: String::new(),
        key: String::new(),
        key_type: String::new(),
        tun_type: String::new(),
        account: Account { license: "lic".to_string() },
        config: WarpConfig {
            peers: vec![],
            interface: InterfaceConfig {
                addresses: AddressPair { v4: "v4".to_string(), v6: "v6".to_string() },
            },
        },
        token: None,
    }
}

#[test]
fn cf_time_string_matches_go_layout() {
    let s = CloudflareClient::cf_time_string();
    assert!(s.contains('T'));
    assert!(s.contains('.'));
    // Go: 2006-01-02T15:04:05.000-07:00
    assert!(
        s.len() >= 29,
        "expected timezone offset with colon, got {s:?}"
    );
    let tz_start = s.rfind(['+', '-']).expect("timezone offset");
    assert_eq!(&s[tz_start + 3..tz_start + 4], ":");
}

#[test]
fn time_string_of_the_present() {
    let s = CloudflareClient::cf_time_string();
    assert_eq!(s.len(), 29);
    let marks: Vec<(usize, char)> =
        s.chars().enumerate().filter(|(_, c)| !c.is_ascii_digit()).collect();
    let places: Vec<usize> = marks.iter().map(|(i, _)| *i).collect();
    assert_eq!(places, vec![4, 7, 10, 13, 16, 19, 23, 26]);
    let chars: String = marks.iter().map(|(_, c)| *c).collect();
    assert!(chars == "--T::.+:" || chars == "--T::.-:");
}

#[test]
fn errors_by_message() {
    let b = body(&["Invalid public key", "other"]);
    assert!(b.has_error_message("Invalid public key"));
    assert!(b.has_error_message("other"));
    assert!(!b.has_error_message("Invalid"));
    assert!(!body(&[]).has_error_message(""));
}

#[test]
fn errors_as_one_text() {
    assert_eq!(body(&["a", "b", "c"]).errors_as_string("; "), "a; b; c");
    assert_eq!(body(&["a"]).errors_as_string("; "), "a");
    assert_eq!(body(&[]).errors_as_string("; "), "");
}

#[test]
fn error_message_has_status_and_reasons() {
    let err = ApiError { body: body(&["a", "b"]), status: 404 };
    assert_eq!(err.message(), "API error 404 Not Found: a; b");
    let err = ApiError::local(599, "x".to_string());
    assert_eq!(err.message(), "API error 599 <unknown status code>: x");
    assert!(!err.body.success);
    assert_eq!(err.body.errors[0].code, 0);
}

#[test]
fn random_keys_and_serials() {
    let key = generate_random_wg_pubkey();
    assert_eq!(key.len(), 44);
    assert_eq!(STANDARD.decode(&key).unwrap().len(), 32);
    assert_ne!(key, generate_random_wg_pubkey());
    let serial = generate_random_android_serial();
    assert_eq!(serial.len(), 16);
    assert!(serial.chars().all(|c| c.is_ascii_digit() || ('a'..='f').contains(&c)));
    assert_ne!(serial, generate_random_android_serial());
}

#[test]
fn registration_has_defaults() {
    let owned = |s: &str| s.to_string();
    let r = registration("", "", owned("k"), owned("t"), owned("s"));
    assert_eq!(r.model, "PC");
    assert_eq!(r.locale, "en_US");
    assert_eq!((r.key.as_str(), r.tos.as_str(), r.serial.as_str()), ("k", "t", "s"));
    assert_eq!(r.key_type, "curve25519");
    assert_eq!(r.tun_type, "wireguard");
    assert_eq!(r.install_id + &r.fcm_token + &r.os_version, "");
    let r = registration("phone", "de_DE", owned("k"), owned("t"), owned("s"));
    assert_eq!(r.model, "phone");
    assert_eq!(r.locale, "de_DE");
}

#[test]
fn registration_request() {
    let (request, body) = register("", "fr_FR", None);
    assert_eq!(request.url, "https://api.cloudflareclient.com/v0a4471/reg");
    assert_eq!(
        request.headers,
        vec![
            ("user-agent".to_string(), "WARP for Android".to_string()),
            ("CF-Client-Version".to_string(), "a-6.35-4471".to_string()),
            (
                "content-type".to_string(),
                "application/json; charset=UTF-8".to_string()
            ),
            ("Connection".to_string(), "Keep-Alive".to_string()),
        ]
    );
    assert_eq!(body.model, "PC");
    assert_eq!(body.locale, "fr_FR");
    assert_eq!(body.key.len(), 44);
    assert_eq!(body.serial.len(), 16);
    assert!(body.tos.len() >= 29);
    assert_eq!(register("", "", Some("")).0.headers.len(), 4);
    let (request, _) = register("", "", Some("jwt"));
    assert_eq!(
        request.headers[4],
        ("CF-Access-Jwt-Assertion".to_string(), "jwt".to_string())
    );
}

#[test]
fn registration_answers() {
    assert_eq!(check_registered(200, "x"), Ok(()));
    assert_eq!(check_registered(299, ""), Ok(()));
    assert_eq!(
        check_registered(403, ""),
        Err("failed to register: 403 Forbidden".to_string())
    );
    assert_eq!(
        check_registered(500, "why"),
        Err("failed to register: 500 Internal Server Error: why".to_string())
    );
    assert!(!is_success(199));
    assert!(!is_success(300));
}

#[test]
fn enrollment_request() {
    let (request, update) = enroll_key("dev", "tok", &[1, 2, 3, 4], "name");
    assert_eq!(request.url, "https://api.cloudflareclient.com/v0a4471/reg/dev");
    assert_eq!(request.headers.len(), 5);
    assert_eq!(
        request.headers[4],
        ("authorization".to_string(), "Bearer tok".to_string())
    );
    assert_eq!(update.key, "AQIDBA==");
    assert_eq!(update.key_type, "secp256r1");
    assert_eq!(update.tun_type, "masque");
    assert_eq!(update.name, "name");
}

#[test]
fn enrollment_answers() {
    let err = |reply: EnrollReply| check_enrolled(reply).err().unwrap();
    let e = err(EnrollReply::NotSent("down".to_string()));
    assert_eq!(e.message(), "API error 400 Bad Request: down");
    let e = err(EnrollReply::NoBody(200, "cut".to_string()));
    assert_eq!(e.message(), "API error 200 OK: cut");
    let answered = EnrollReply::Answered;
    let no = || "json".to_string();
    let e = err(answered(422, Err(no()), Ok(body(&["Invalid public key"]))));
    assert_eq!(e.status, 422);
    assert!(e.body.has_error_message("Invalid public key"));
    let e = err(answered(500, Err("first".to_string()), Err(no())));
    assert_eq!(e.message(), "API error 500 Internal Server Error: json");
    let e = err(answered(201, Err(no()), Err("second".to_string())));
    assert_eq!(e.message(), "API error 201 Created: json");
    let data = check_enrolled(answered(200, Ok(account()), Err(no()))).ok().unwrap();
    assert_eq!(data.id, "id");
    // The status decides, whatever the body decodes as.
    let e = err(answered(500, Ok(account()), Err(no())));
    assert_eq!(e.message(), "API error 500 Internal Server Error: json");
    let e = err(answered(300, Ok(account()), Ok(body(&["moved"]))));
    assert_eq!(e.body.errors_as_string(";"), "moved");
    let e = err(answered(200, Err(no()), Ok(body(&["other"]))));
    assert_eq!(e.message(), "API error 200 OK: json");
}

#[test]
fn answers_of_users() {
    assert!(is_yes("y"));
    assert!(is_yes(" y\r\n"));
    assert!(!is_yes("Y"));
    assert!(!is_yes("yes"));
    assert!(!is_yes(""));
}
