//! Encryption and authentication.
//!
//! A login encrypts today's date under a key derived from the admin
//! password; a request is authenticated exactly when its cookie decrypts,
//! under the current salt and password, to a date at most two weeks old.
//! Every failure on that path — missing cookie, malformed envelope, wrong
//! key, tampering, stale date — degrades to "not authenticated".
use crate::codec::Ciphertext;
use crate::codec::decode_envelope;
use crate::codec::encode_envelope;
use crate::codec::json_envelope;
use crate::codec::spec_decode_envelope;
use crate::cookie::Cookie;
use crate::cookie::CookieJar;
use crate::cookie::CookieView;
use crate::date::Date;
use crate::date::day_number;
use crate::date::format_date;
use crate::date::parse_date_bytes;
use crate::date::spec_format_date;
use crate::date::spec_parse_date_bytes;
use crate::date::today;
use crate::date::valid_date;
use crate::text::string_from_chars;
use aes_gcm_siv::AeadCore;
use aes_gcm_siv::Aes256GcmSiv;
use aes_gcm_siv::KeyInit;
use aes_gcm_siv::aead::Aead;
use aes_gcm_siv::aead::Nonce;
use aes_gcm_siv::aead::rand_core::OsRng;
use argon2::Argon2;
use argon2::password_hash::SaltString;
use subtle::ConstantTimeEq;
use vstd::prelude::*;
use vstd::utf8::decode_utf8;
use vstd::utf8::encode_utf8;
use vstd::utf8::valid_utf8;

verus! {

/// The public key-derivation salt: 22 bytes of B64 text.
pub type Salt = [u8; 22];

/// A pair of credentials; either side may be absent, and an absent field
/// never matches.
#[derive(Debug)]
pub struct Login {
    pub username: Option<String>,
    pub password: Option<String>,
}

/// The UTF-8 bytes of a password, as handed to the key derivation.
pub open spec fn password_bytes(password: Seq<char>) -> Seq<u8> {
    encode_utf8(password)
}

/// The password is short enough that its UTF-8 bytes fit the key
/// derivation's four-gigabyte input bound, so deriving a key cannot fail.
/// A caller learns the character count from `unicode_len`.
pub open spec fn password_fits(password: Seq<char>) -> bool {
    password.len() <= 0x3FFF_FFFF
}

/// A character encodes to at most four UTF-8 bytes.
proof fn lemma_password_bytes_bound(password: Seq<char>)
    ensures
        password_bytes(password).len() <= 4 * password.len(),
    decreases password.len(),
{
    if password.len() > 0 {
        lemma_password_bytes_bound(password.drop_first());
    }
}

/// Relies on subtle's `ConstantTimeEq` for byte slices: the comparison runs
/// in constant time and returns exactly whether the two strings are equal.
#[verifier::external_body]
fn constant_time_str_eq(a: &str, b: &str) -> (r: bool)
    ensures
        r == (a@ == b@),
{
    a.as_bytes().ct_eq(b.as_bytes()).into()
}

/// Both usernames and both passwords are present and equal.
pub open spec fn login_matches(actual: Login, received: Login) -> bool {
    &&& match (actual.username, received.username) {
        (Some(a), Some(e)) => a@ == e@,
        _ => false,
    }
    &&& match (actual.password, received.password) {
        (Some(a), Some(e)) => a@ == e@,
        _ => false,
    }
}

/// Compare submitted credentials against the configured ones, in constant
/// time and over every field.
pub fn verify_login(actual: &Login, received: &Login) -> (r: bool)
    ensures
        r == login_matches(*actual, *received),
{
    let username_eq = match (&actual.username, &received.username) {
        (Some(a), Some(e)) => constant_time_str_eq(a.as_str(), e.as_str()),
        _ => false,
    };
    let password_eq = match (&actual.password, &received.password) {
        (Some(a), Some(e)) => constant_time_str_eq(a.as_str(), e.as_str()),
        _ => false,
    };
    username_eq && password_eq
}

/// The 32-byte key that the memory-hard derivation produces for a salt and
/// password; a function of the two alone.
pub uninterp spec fn derived_key(salt: Seq<u8>, password: Seq<u8>) -> Seq<u8>;

/// Relies on argon2's `hash_password_into` with default parameters: the
/// 32-byte output is a deterministic function of salt and password alone,
/// and the call succeeds for a 22-byte salt, a 32-byte output buffer and
/// any password within the four-gigabyte input bound.
#[verifier::external_body]
fn argon2_key(salt: &Salt, password: &[u8]) -> (r: [u8; 32])
    requires
        password@.len() <= 0xFFFF_FFFF,
    ensures
        r@ == derived_key(salt@, password@),
{
    let argon2 = Argon2::default();
    let mut key = [0u8; 32];
    argon2.hash_password_into(password, salt, &mut key).unwrap();
    key
}

/// A derived symmetric session key.
pub struct Key {
    key: [u8; 32],
}

impl View for Key {
    type V = Seq<u8>;

    closed spec fn view(&self) -> Seq<u8> {
        self.key@
    }
}

impl Key {
    /// Derive the key for this salt and password.
    ///
    /// The salt is public: it only defends against precomputed tables, not
    /// against brute force.
    pub fn new(salt: &Salt, password: &str) -> (r: Key)
        requires
            password_fits(password@),
        ensures
            r@ == derived_key(salt@, password_bytes(password@)),
    {
        let bytes = password.as_bytes();
        proof {
            lemma_password_bytes_bound(password@);
        }
        Key { key: argon2_key(salt, bytes) }
    }
}

/// Relies on `Aes256GcmSiv::generate_nonce` over the operating system's
/// random source: a fresh 96-bit nonce; nothing is promised of its value.
#[verifier::external_body]
fn generate_nonce() -> (r: [u8; 12]) {
    let nonce = Aes256GcmSiv::generate_nonce(&mut OsRng);
    nonce.as_slice().try_into().unwrap()
}

/// Relies on `SaltString::generate` over the operating system's random
/// source: twenty-two characters of freshly drawn B64 text; nothing is
/// promised of its value.
#[verifier::external_body]
pub fn generate_salt() -> (r: Salt) {
    SaltString::generate(OsRng).as_str().as_bytes().try_into().unwrap()
}

/// The AES-256-GCM-SIV sealing of a plaintext under a key and nonce: tag
/// included, a deterministic function of the three alone.
pub uninterp spec fn sealed(key: Seq<u8>, nonce: Seq<u8>, plaintext: Seq<u8>) -> Seq<u8>;

/// Relies on `Aes256GcmSiv::encrypt`: AES-256-GCM-SIV encryption is
/// deterministic in key, nonce and plaintext, injective in the plaintext
/// for a fixed key and nonce (decryption inverts it), and succeeds for
/// every plaintext within the algorithm's 2^36-byte bound.
#[verifier::external_body]
fn seal(key: &Key, nonce: &[u8; 12], plaintext: &[u8]) -> (r: Vec<u8>)
    requires
        plaintext@.len() <= 0xFFFF_FFFF,
    ensures
        r@ == sealed(key@, nonce@, plaintext@),
        forall|pt: Seq<u8>| r@ == sealed(key@, nonce@, pt) ==> pt == plaintext@,
{
    let cipher = Aes256GcmSiv::new_from_slice(&key.key).unwrap();
    let nonce = Nonce::<Aes256GcmSiv>::from_slice(nonce);
    cipher.encrypt(nonce, plaintext).unwrap()
}

/// Relies on `Aes256GcmSiv::decrypt`: authenticated decryption inverts
/// encryption under the same key and nonce, returning the unique plaintext
/// whose sealing is this ciphertext and failing when there is none.
#[verifier::external_body]
fn open_sealed(key: &Key, nonce: &[u8; 12], ciphertext: &[u8]) -> (r: Option<Vec<u8>>)
    ensures
        r matches Some(p) ==> ciphertext@ == sealed(key@, nonce@, p@),
        r matches Some(p) ==> forall|pt: Seq<u8>|
            ciphertext@ == sealed(key@, nonce@, pt) ==> p@ == pt,
        r is None ==> forall|pt: Seq<u8>| ciphertext@ != sealed(key@, nonce@, pt),
{
    let cipher = Aes256GcmSiv::new_from_slice(&key.key).unwrap();
    let nonce = Nonce::<Aes256GcmSiv>::from_slice(nonce);
    cipher.decrypt(nonce, ciphertext).ok()
}

/// Relies on `String::from_utf8`: succeeds exactly on valid UTF-8, decoding
/// the bytes to their characters.
#[verifier::external_body]
fn bytes_to_string(v: Vec<u8>) -> (r: Option<String>)
    ensures
        match r {
            Some(s) => valid_utf8(v@) && s@ == decode_utf8(v@),
            None => !valid_utf8(v@),
        },
{
    String::from_utf8(v).ok()
}

/// What decryption yields at the specification level: the unique preimage
/// under [`sealed`], if one exists.
pub open spec fn spec_open(key: Seq<u8>, nonce: Seq<u8>, ct: Seq<u8>) -> Option<Seq<u8>> {
    if exists|pt: Seq<u8>| ct == sealed(key, nonce, pt) {
        Some(choose|pt: Seq<u8>| ct == sealed(key, nonce, pt))
    } else {
        None
    }
}

/// Decrypt, with the result pinned to [`spec_open`].
fn open_checked(key: &Key, nonce: &[u8; 12], ciphertext: &[u8]) -> (r: Option<Vec<u8>>)
    ensures
        match r {
            Some(p) => spec_open(key@, nonce@, ciphertext@) == Some(p@),
            None => spec_open(key@, nonce@, ciphertext@) is None,
        },
{
    let r = open_sealed(key, nonce, ciphertext);
    proof {
        match &r {
            Some(p) => {
                assert(ciphertext@ == sealed(key@, nonce@, p@));
                let w = choose|pt: Seq<u8>| ciphertext@ == sealed(key@, nonce@, pt);
                assert(ciphertext@ == sealed(key@, nonce@, w));
            },
            None => {
                if exists|pt: Seq<u8>| ciphertext@ == sealed(key@, nonce@, pt) {
                    let w = choose|pt: Seq<u8>| ciphertext@ == sealed(key@, nonce@, pt);
                    assert(ciphertext@ == sealed(key@, nonce@, w));
                    assert(false);
                }
            },
        }
    }
    r
}

/// The date string a session envelope encrypts, as plaintext bytes.
pub open spec fn date_plaintext(d: Date) -> Seq<u8> {
    encode_utf8(spec_format_date(d))
}

/// The date characters are plain ASCII, so their UTF-8 bytes are their
/// code points one for one.
pub proof fn lemma_date_plaintext_ascii(d: Date)
    ensures
        date_plaintext(d).len() == 10,
        valid_utf8(date_plaintext(d)),
        decode_utf8(date_plaintext(d)) == spec_format_date(d),
{
    let s = spec_format_date(d);
    crate::date::lemma_format_date_ascii(d);
    vstd::utf8::is_ascii_chars_encode_utf8(s);
    vstd::utf8::encode_utf8_valid_utf8(s);
    vstd::utf8::encode_utf8_decode_utf8(s);
}

/// Encrypt the given calendar date under the key for this salt and
/// password, with a fresh random nonce.
pub fn encrypt_login_on(salt: &Salt, password: &str, date: &Date) -> (r: Ciphertext)
    requires
        password_fits(password@),
        valid_date(*date),
    ensures
        r.ciphertext@ == sealed(
            derived_key(salt@, password_bytes(password@)),
            r.nonce@,
            date_plaintext(*date),
        ),
        forall|pt: Seq<u8>|
            r.ciphertext@ == sealed(derived_key(salt@, password_bytes(password@)), r.nonce@, pt)
                ==> pt == date_plaintext(*date),
{
    let key = Key::new(salt, password);
    // Nonce should be unique per message.
    let nonce = generate_nonce();
    let chars = format_date(date);
    let plaintext = string_from_chars(&chars);
    let bytes = plaintext.as_str().as_bytes();
    proof {
        lemma_date_plaintext_ascii(*date);
    }
    let ciphertext = seal(&key, &nonce, bytes);
    Ciphertext { nonce, ciphertext }
}

/// Encrypt today's date; `None` only if the system clock is outside the
/// supported years.
pub fn encrypt_login(salt: &Salt, password: &str) -> (r: Option<Ciphertext>)
    requires
        password_fits(password@),
    ensures
        r matches Some(c) ==> exists|d: Date|
            valid_date(d) && c.ciphertext@ == sealed(
                derived_key(salt@, password_bytes(password@)),
                c.nonce@,
                date_plaintext(d),
            ),
{
    let date = match today() {
        Some(d) => d,
        None => {
            return None;
        },
    };
    Some(encrypt_login_on(salt, password, &date))
}

/// Decrypt a session envelope back to its plaintext string.
///
/// Fails on an authentication-tag mismatch — a wrong key, a wrong salt, or
/// tampering — and on plaintext that is not UTF-8; this is the expected
/// path for stale cookies and never a crash.
pub fn decrypt_login(salt: &Salt, password: &str, auth: &Ciphertext) -> (r: Option<String>)
    requires
        password_fits(password@),
    ensures
        match r {
            Some(s) => auth.ciphertext@ == sealed(
                derived_key(salt@, password_bytes(password@)),
                auth.nonce@,
                encode_utf8(s@),
            ),
            None => forall|pt: Seq<u8>|
                auth.ciphertext@ == sealed(
                    derived_key(salt@, password_bytes(password@)),
                    auth.nonce@,
                    pt,
                ) ==> !valid_utf8(pt),
        },
{
    let key = Key::new(salt, password);
    let plaintext = match open_sealed(&key, &auth.nonce, auth.ciphertext.as_slice()) {
        Some(p) => p,
        None => {
            return None;
        },
    };
    let ghost pt = plaintext@;
    let r = bytes_to_string(plaintext);
    proof {
        if r is None {
            assert forall|q: Seq<u8>|
                auth.ciphertext@ == sealed(
                    derived_key(salt@, password_bytes(password@)),
                    auth.nonce@,
                    q,
                ) implies !valid_utf8(q) by {
                assert(q == pt);
            }
        } else {
            vstd::utf8::decode_utf8_encode_utf8(pt);
        }
    }
    r
}

/// Decrypting a fresh login envelope under the same salt and password gives
/// back exactly the encrypted date's text: the round trip is lossless for
/// every password, salt and date.
pub fn encrypt_then_decrypt(salt: &Salt, password: &str, date: &Date) -> (r: String)
    requires
        password_fits(password@),
        valid_date(*date),
    ensures
        r@ == spec_format_date(*date),
{
    let env = encrypt_login_on(salt, password, date);
    proof {
        lemma_date_plaintext_ascii(*date);
    }
    match decrypt_login(salt, password, &env) {
        Some(s) => {
            proof {
                assert(encode_utf8(s@) == date_plaintext(*date));
                vstd::utf8::encode_utf8_decode_utf8(s@);
            }
            s
        },
        None => {
            proof {
                assert(false);
            }
            String::new()
        },
    }
}

/// The cookie's `Max-Age`: two weeks, in seconds.
pub const MAX_AGE_SEC: i64 = 2 * 60 * 60 * 24 * 7;

/// How many days after its encrypted date a session stays valid.
pub const MAX_AGE_DAYS: i64 = 14;

/// The configured password, where set.
pub open spec fn pwd_view(l: Login) -> Seq<char> {
    match l.password {
        Some(p) => p@,
        None => Seq::empty(),
    }
}

/// The password, if any, fits the key derivation's input bound.
pub open spec fn login_pwd_fits(l: Login) -> bool {
    match l.password {
        Some(p) => password_fits(p@),
        None => true,
    }
}

/// Whether a cookie value authenticates on day `today`, under this salt and
/// password: it must decode to an envelope, decrypt under the derived key,
/// and carry a date at most [`MAX_AGE_DAYS`] days old.
pub open spec fn session_authentic(
    salt: Seq<u8>,
    password: Seq<char>,
    value: Seq<char>,
    today: Date,
) -> bool {
    match spec_decode_envelope(value) {
        None => false,
        Some((nonce, ct)) => match spec_open(
            derived_key(salt, password_bytes(password)),
            nonce,
            ct,
        ) {
            None => false,
            Some(pt) => match spec_parse_date_bytes(pt) {
                None => false,
                Some(d) => day_number(today) <= day_number(d) + MAX_AGE_DAYS,
            },
        },
    }
}

/// The full authentication check on day `today`: there must be an `auth`
/// cookie, a configured password, and an authentic cookie value.
pub open spec fn spec_is_logged_in(
    salt: Seq<u8>,
    login: Login,
    jar: Map<Seq<char>, CookieView>,
    today: Date,
) -> bool {
    if jar.contains_key("auth"@) {
        match login.password {
            Some(p) => session_authentic(salt, p@, jar["auth"@].value, today),
            None => false,
        }
    } else {
        false
    }
}

/// Whether decrypted plaintext bytes carry a date that is still within the
/// session window on day `today`.
pub fn session_date_current(plaintext: &Vec<u8>, today: &Date) -> (r: bool)
    requires
        valid_date(*today),
    ensures
        r == match spec_parse_date_bytes(plaintext@) {
            Some(d) => day_number(*today) <= day_number(d) + MAX_AGE_DAYS,
            None => false,
        },
{
    match parse_date_bytes(plaintext) {
        Some(d) => {
            proof {
                assert(valid_date(d));
            }
            today.day_number() <= d.day_number() + MAX_AGE_DAYS
        },
        None => false,
    }
}

/// Authentication check against a given current date.
///
/// Every failure — no cookie, malformed envelope, missing configuration,
/// failed decryption, unparseable or stale date — yields `false`.
pub fn is_logged_in_at(salt: &Salt, login: &Login, jar: &CookieJar, now: &Date) -> (r: bool)
    requires
        jar.wf(),
        login_pwd_fits(*login),
        valid_date(*now),
    ensures
        r == spec_is_logged_in(salt@, *login, jar@, *now),
{
    let cookie = match jar.get("auth") {
        Some(cookie) => cookie,
        None => {
            return false;
        },
    };
    let env = match decode_envelope(cookie.value.as_str()) {
        Some(env) => env,
        None => {
            return false;
        },
    };
    let password = match &login.password {
        Some(password) => password,
        None => {
            return false;
        },
    };
    let key = Key::new(salt, password.as_str());
    let plaintext = match open_checked(&key, &env.nonce, env.ciphertext.as_slice()) {
        Some(plaintext) => plaintext,
        None => {
            return false;
        },
    };
    session_date_current(&plaintext, now)
}

/// Authentication check against the system clock; `false` when the clock is
/// out of the supported years.
pub fn is_logged_in(salt: &Salt, login: &Login, jar: &CookieJar) -> (r: bool)
    requires
        jar.wf(),
        login_pwd_fits(*login),
    ensures
        r ==> exists|t: Date| valid_date(t) && spec_is_logged_in(salt@, *login, jar@, t),
        !jar@.contains_key("auth"@) ==> !r,
        login.password is None ==> !r,
{
    match today() {
        Some(now) => {
            let r = is_logged_in_at(salt, login, jar, &now);
            proof {
                if r {
                    assert(valid_date(now) && spec_is_logged_in(salt@, *login, jar@, now));
                }
            }
            r
        },
        None => false,
    }
}

/// Remove the session cookie; logging out without being logged in is a
/// no-op, never an error.
pub fn handle_logout(jar: CookieJar) -> (r: CookieJar)
    requires
        jar.wf(),
    ensures
        r.wf(),
        r@ == jar@.remove("auth"@),
{
    jar.remove("auth")
}

/// Logging out is idempotent: removing the session cookie twice leaves the
/// same jar as removing it once, on any jar — with or without a session.
pub proof fn lemma_logout_idempotent(jar: Map<Seq<char>, CookieView>)
    ensures
        jar.remove("auth"@).remove("auth"@) == jar.remove("auth"@),
{
    assert(jar.remove("auth"@).remove("auth"@) =~= jar.remove("auth"@));
}

/// Log in against a given current date.
///
/// On a credential mismatch the answer is `None`; on a match, the jar comes
/// back with an `auth` cookie whose value is the encoded encryption of
/// `date`, valid for two weeks and marked `Secure`, and that cookie
/// authenticates on exactly the days within the session window.
pub fn handle_login_on(
    salt: &Salt,
    actual: &Login,
    received: &Login,
    jar: CookieJar,
    date: &Date,
) -> (r: Option<CookieJar>)
    requires
        jar.wf(),
        login_pwd_fits(*received),
        valid_date(*date),
    ensures
        r is Some <==> login_matches(*actual, *received),
        r matches Some(j2) ==> j2.wf() && exists|nonce: Seq<u8>|
            nonce.len() == 12 && j2@ == jar@.insert(
                "auth"@,
                (CookieView {
                    name: "auth"@,
                    value: json_envelope(
                        nonce,
                        sealed(
                            derived_key(salt@, password_bytes(pwd_view(*received))),
                            nonce,
                            date_plaintext(*date),
                        ),
                    ),
                    max_age: Some(MAX_AGE_SEC as int),
                    secure: true,
                }),
            ),
        r matches Some(j2) ==> j2@.contains_key("auth"@) && forall|t: Date|
            session_authentic(salt@, pwd_view(*received), j2@["auth"@].value, t) == (day_number(t)
                <= day_number(*date) + MAX_AGE_DAYS),
{
    if verify_login(actual, received) {
        let password = match &received.password {
            Some(password) => password,
            None => {
                proof {
                    assert(false);
                }
                return None;
            },
        };
        let env = encrypt_login_on(salt, password.as_str(), date);
        let ghost key = derived_key(salt@, password_bytes(password@));
        let value = encode_envelope(&env);
        // Secure ensures only HTTPS scheme (except on localhost).
        // Without it, a man-in-the-middle could steal the cookie.
        let cookie = Cookie {
            name: String::from_str("auth"),
            value,
            max_age: Some(MAX_AGE_SEC),
            secure: true,
        };
        let ghost cv = cookie@;
        let updated_jar = jar.add(cookie);
        proof {
            crate::codec::lemma_envelope_roundtrip(env.nonce@, env.ciphertext@);
            assert(spec_open(key, env.nonce@, env.ciphertext@) == Some(date_plaintext(*date))) by {
                assert(env.ciphertext@ == sealed(key, env.nonce@, date_plaintext(*date)));
                let w = choose|pt: Seq<u8>| env.ciphertext@ == sealed(key, env.nonce@, pt);
                assert(env.ciphertext@ == sealed(key, env.nonce@, w));
            }
            crate::date::lemma_date_bytes_roundtrip(*date);
            assert(updated_jar@["auth"@] == cv);
            assert(forall|t: Date|
                session_authentic(salt@, pwd_view(*received), cv.value, t) == (day_number(t)
                    <= day_number(*date) + MAX_AGE_DAYS));
        }
        Some(updated_jar)
    } else {
        None
    }
}

/// Log in: on matching credentials, encrypt today's date into a fresh
/// session cookie; on a mismatch — or a clock outside the supported years —
/// answer `None` for the caller to render a rejection.
pub fn handle_login(salt: &Salt, actual: &Login, received: &Login, jar: CookieJar) -> (r: Option<
    CookieJar,
>)
    requires
        jar.wf(),
        login_pwd_fits(*received),
    ensures
        !login_matches(*actual, *received) ==> r is None,
        r matches Some(j2) ==> login_matches(*actual, *received) && j2.wf()
            && j2@.contains_key("auth"@) && exists|d: Date|
            valid_date(d) && forall|t: Date|
                session_authentic(salt@, pwd_view(*received), j2@["auth"@].value, t) == (
                day_number(t) <= day_number(d) + MAX_AGE_DAYS),
{
    let date = match today() {
        Some(d) => d,
        None => {
            return None;
        },
    };
    handle_login_on(salt, actual, received, jar, &date)
}

} // verus!
