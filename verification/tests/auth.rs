use fx::auth::decrypt_login;
use fx::auth::encrypt_login;
use fx::auth::encrypt_login_on;
use fx::auth::encrypt_then_decrypt;
use fx::auth::generate_salt;
use fx::auth::handle_login;
use fx::auth::handle_login_on;
use fx::auth::handle_logout;
use fx::auth::is_logged_in;
use fx::auth::is_logged_in_at;
use fx::auth::verify_login;
use fx::auth::Login;
use fx::auth::Salt;
use fx::codec::decode_envelope;
use fx::codec::Ciphertext;
use fx::cookie::Cookie;
use fx::cookie::CookieJar;
use fx::date::format_date;
use fx::date::today;
use fx::date::Date;
use fx::serve::dev_salt;

fn today_string() -> String {
    let date = today().unwrap();
    format_date(&date).iter().collect()
}

fn login(username: &str, password: &str) -> Login {
    Login {
        username: Some(username.to_string()),
        password: Some(password.to_string()),
    }
}

#[test]
fn lib_encryption_roundtrip() {
    let salt: Salt = *b"nblVMlxYtvt0rxo3BML3zw";
    let password = "password";
    let auth = encrypt_login(&salt, password).unwrap();
    let plaintext = decrypt_login(&salt, password, &auth).unwrap();
    let today = today_string();
    assert_eq!(plaintext, today);
}

#[test]
fn auth_encryption_roundtrip() {
    let salt = dev_salt();
    let password = "password";
    let auth = encrypt_login(&salt, password).unwrap();
    let plaintext = decrypt_login(&salt, password, &auth).unwrap();
    let today = today_string();
    assert_eq!(plaintext, today);
}

#[test]
fn roundtrip_for_chosen_date() {
    let salt: Salt = *b"nblVMlxYtvt0rxo3BML3zw";
    let date = Date { year: 2024, month: 2, day: 29 };
    let text = encrypt_then_decrypt(&salt, "hunter2", &date);
    assert_eq!(text, "2024-02-29");
}

#[test]
fn wrong_key_rejected() {
    let salt: Salt = *b"nblVMlxYtvt0rxo3BML3zw";
    let auth = encrypt_login(&salt, "password_a").unwrap();
    assert!(decrypt_login(&salt, "password_b", &auth).is_none());
}

#[test]
fn wrong_salt_rejected() {
    let salt_a: Salt = *b"nblVMlxYtvt0rxo3BML3zw";
    let salt_b: Salt = *b"AAAAAAAAAAAAAAAAAAAAAA";
    let auth = encrypt_login(&salt_a, "password").unwrap();
    assert!(decrypt_login(&salt_b, "password", &auth).is_none());
}

#[test]
fn tamper_detected() {
    let salt: Salt = *b"nblVMlxYtvt0rxo3BML3zw";
    let password = "password";
    let auth = encrypt_login(&salt, password).unwrap();
    // Key derivation is deliberately slow, so sample single-bit flips:
    // both ends of the nonce, and the start, middle and end of the
    // ciphertext (the end sits inside the authentication tag).
    let last = auth.ciphertext.len() - 1;
    let mut t = auth.clone();
    t.nonce[0] ^= 1;
    assert!(decrypt_login(&salt, password, &t).is_none());
    let mut t = auth.clone();
    t.nonce[11] ^= 1 << 7;
    assert!(decrypt_login(&salt, password, &t).is_none());
    let mut t = auth.clone();
    t.ciphertext[0] ^= 1;
    assert!(decrypt_login(&salt, password, &t).is_none());
    let mut t = auth.clone();
    t.ciphertext[last / 2] ^= 1 << 3;
    assert!(decrypt_login(&salt, password, &t).is_none());
    let mut t = auth.clone();
    t.ciphertext[last] ^= 1 << 7;
    assert!(decrypt_login(&salt, password, &t).is_none());
}

#[test]
fn nonce_is_fresh_per_encryption() {
    let salt: Salt = *b"nblVMlxYtvt0rxo3BML3zw";
    let envelopes: Vec<Ciphertext> =
        (0..5).map(|_| encrypt_login(&salt, "password").unwrap()).collect();
    for i in 0..envelopes.len() {
        for j in 0..i {
            assert_ne!(envelopes[i].nonce, envelopes[j].nonce);
            assert_ne!(envelopes[i].ciphertext, envelopes[j].ciphertext);
        }
    }
}

#[test]
fn generated_salts_differ() {
    let a = generate_salt();
    let b = generate_salt();
    assert_eq!(a.len(), 22);
    assert_ne!(a, b);
}

#[test]
fn credential_matching_is_field_complete() {
    let actual = login("admin", "hunter2");
    assert!(verify_login(&actual, &login("admin", "hunter2")));
    assert!(!verify_login(&actual, &login("admin", "wrong")));
    assert!(!verify_login(&actual, &login("wrong", "hunter2")));
    assert!(!verify_login(&actual, &login("wrong", "wrong")));
    let no_password = Login { username: Some("admin".to_string()), password: None };
    assert!(!verify_login(&actual, &no_password));
    assert!(!verify_login(&no_password, &login("admin", "hunter2")));
    let no_username = Login { username: None, password: Some("hunter2".to_string()) };
    assert!(!verify_login(&actual, &no_username));
}

#[test]
fn expiry_boundary() {
    let salt: Salt = *b"nblVMlxYtvt0rxo3BML3zw";
    let actual = login("admin", "hunter2");
    let encrypted_on = Date { year: 2025, month: 1, day: 1 };
    let jar = handle_login_on(&salt, &actual, &login("admin", "hunter2"), CookieJar::new(), &encrypted_on)
        .unwrap();
    let on_day_14 = Date { year: 2025, month: 1, day: 15 };
    assert!(is_logged_in_at(&salt, &actual, &jar, &on_day_14));
    let on_day_15 = Date { year: 2025, month: 1, day: 16 };
    assert!(!is_logged_in_at(&salt, &actual, &jar, &on_day_15));
    // A month-spanning window behaves the same.
    let encrypted_on = Date { year: 2024, month: 12, day: 25 };
    let jar = handle_login_on(&salt, &actual, &login("admin", "hunter2"), CookieJar::new(), &encrypted_on)
        .unwrap();
    assert!(is_logged_in_at(&salt, &actual, &jar, &Date { year: 2025, month: 1, day: 8 }));
    assert!(!is_logged_in_at(&salt, &actual, &jar, &Date { year: 2025, month: 1, day: 9 }));
}

fn garbage_jar(value: &str) -> CookieJar {
    CookieJar::new().add(Cookie {
        name: "auth".to_string(),
        value: value.to_string(),
        max_age: None,
        secure: false,
    })
}

#[test]
fn malformed_cookie_is_not_authenticated() {
    let salt: Salt = *b"nblVMlxYtvt0rxo3BML3zw";
    let actual = login("admin", "hunter2");
    let now = Date { year: 2025, month: 6, day: 1 };
    let garbage = [
        "",
        "garbage",
        "{}",
        "{\"nonce\":[],\"ciphertext\":[]}",
        "{\"nonce\":[1,2,3],\"ciphertext\":[4,5,6]}",
        "{\"nonce\":[0,0,0,0,0,0,0,0,0,0,0,0],\"ciphertext\":[1,2,3]}",
        "{\"nonce\":[256,0,0,0,0,0,0,0,0,0,0,0],\"ciphertext\":[1]}",
        "{\"nonce\":[01,0,0,0,0,0,0,0,0,0,0,0],\"ciphertext\":[1]}",
        "auth=:;\u{0}\u{fffd}💣",
        "{\"nonce\":[0,0,0,0,0,0,0,0,0,0,0,0],\"ciphertext\":[1,2,3]}trailing",
    ];
    for value in garbage {
        assert!(!is_logged_in_at(&salt, &actual, &garbage_jar(value), &now));
    }
    // A huge garbage value neither panics nor authenticates.
    let huge = "a".repeat(100_000);
    assert!(!is_logged_in_at(&salt, &actual, &garbage_jar(&huge), &now));
}

#[test]
fn missing_password_fails_closed() {
    let salt: Salt = *b"nblVMlxYtvt0rxo3BML3zw";
    let actual = login("admin", "hunter2");
    let jar = handle_login(&salt, &actual, &login("admin", "hunter2"), CookieJar::new()).unwrap();
    let unconfigured = Login { username: Some("admin".to_string()), password: None };
    assert!(!is_logged_in(&salt, &unconfigured, &jar));
}

#[test]
fn end_to_end_scenario() {
    let salt: Salt = *b"nblVMlxYtvt0rxo3BML3zw";
    let actual = login("admin", "hunter2");
    // Wrong credentials are rejected with no cookie.
    assert!(handle_login(&salt, &actual, &login("admin", "wrong"), CookieJar::new()).is_none());
    // Matching credentials produce the session cookie.
    let jar = handle_login(&salt, &actual, &login("admin", "hunter2"), CookieJar::new()).unwrap();
    let cookie = jar.get("auth").unwrap();
    assert_eq!(cookie.name, "auth");
    assert_eq!(cookie.max_age, Some(1_209_600));
    assert!(cookie.secure);
    // The value decodes and decrypts, under the same salt and password, to
    // today's date.
    let envelope: Ciphertext = decode_envelope(&cookie.value).unwrap();
    let plaintext = decrypt_login(&salt, "hunter2", &envelope).unwrap();
    assert_eq!(plaintext, today_string());
    // The jar authenticates, and stops doing so after logout.
    assert!(is_logged_in(&salt, &actual, &jar));
    let jar = handle_logout(jar);
    assert!(!is_logged_in(&salt, &actual, &jar));
}

#[test]
fn logout_is_idempotent() {
    let salt: Salt = *b"nblVMlxYtvt0rxo3BML3zw";
    let actual = login("admin", "hunter2");
    // Logging out of an empty jar is a no-op.
    let empty = handle_logout(CookieJar::new());
    assert!(empty.get("auth").is_none());
    // Logging out twice equals logging out once.
    let jar = handle_login(&salt, &actual, &login("admin", "hunter2"), CookieJar::new()).unwrap();
    let once = handle_logout(jar);
    assert!(once.get("auth").is_none());
    let twice = handle_logout(once);
    assert!(twice.get("auth").is_none());
    assert!(!is_logged_in(&salt, &actual, &twice));
}
