use helpdesk::authentication::{Keyring, LoginError, Session, Uuid};

const HASH_1234: [u8; 24] = [
    77, 12, 248, 207, 26, 13, 135, 4, 197, 161, 100, 201, 15, 163, 145, 132, 193, 83, 22, 17, 241,
    210, 236, 136,
];

fn session(bits: u128) -> Session {
    Session(Uuid::wrap(bits))
}

#[test]
fn hash_string_matches_scrypt_reference() {
    assert_eq!(Keyring::hash_string("1234"), HASH_1234);
}

#[test]
fn hash_string_of_empty_password() {
    let expected: [u8; 24] = [
        218, 226, 220, 35, 72, 241, 128, 60, 42, 156, 134, 177, 94, 61, 119, 88, 15, 226, 165,
        248, 200, 216, 231, 246,
    ];
    assert_eq!(Keyring::hash_string(""), expected);
}

#[test]
fn hash_string_hashes_utf8_bytes() {
    let expected: [u8; 24] = [
        186, 165, 72, 127, 153, 164, 225, 121, 182, 10, 215, 242, 196, 252, 219, 22, 211, 65, 227,
        82, 171, 164, 110, 187,
    ];
    assert_eq!(Keyring::hash_string("pässwörd"), expected);
}

#[test]
fn hash_string_is_deterministic() {
    assert_eq!(Keyring::hash_string("hunter2"), Keyring::hash_string("hunter2"));
    assert_ne!(Keyring::hash_string("hunter2"), Keyring::hash_string("hunter3"));
}

#[test]
fn password_matches_needs_a_stored_equal_hash() {
    let h = Keyring::hash_string("1234");
    assert!(Keyring::password_matches(&h, Some(&HASH_1234[..])));
    assert!(!Keyring::password_matches(&h, None));
    assert!(!Keyring::password_matches(&h, Some(&HASH_1234[..23])));
    let mut other = HASH_1234;
    other[23] ^= 1;
    assert!(!Keyring::password_matches(&h, Some(&other[..])));
}

#[test]
fn new_keyring_has_no_session() {
    let k = Keyring::new();
    assert_eq!(k.get_email(&session(7)), None);
    assert!(!k.is_valid_session(&session(7)));
}

#[test]
fn login_with_right_password_opens_session() {
    let mut k = Keyring::new();
    let s = k.login("bob@mail.com", "1234", Some(&HASH_1234[..])).unwrap();
    assert_eq!(k.get_email(&s), Some("bob@mail.com".to_string()));
    assert!(k.is_valid_session(&s));
}

#[test]
fn login_session_ids_are_version_four() {
    let mut k = Keyring::new();
    let s = k.login("bob@mail.com", "1234", Some(&HASH_1234[..])).unwrap();
    assert_eq!(s.0.uuid & 0xF000C000000000000000, 0x40008000000000000000);
}

#[test]
fn login_with_wrong_password_fails() {
    let mut k = Keyring::new();
    let stored = Keyring::hash_string("4321");
    assert!(k.login("bob@mail.com", "1234", Some(&stored[..])).is_none());
    assert!(!k.is_valid_session(&session(1)));
}

#[test]
fn login_without_account_fails() {
    let mut k = Keyring::new();
    assert!(k.login("nobody@mail.com", "1234", None).is_none());
}

#[test]
fn logout_ends_only_that_session() {
    let mut k = Keyring::new();
    let a = k.start_session("a@mail.com", Uuid::wrap(1));
    let b = k.start_session("b@mail.com", Uuid::wrap(2));
    k.logout(&a);
    assert!(!k.is_valid_session(&a));
    assert_eq!(k.get_email(&a), None);
    assert_eq!(k.get_email(&b), Some("b@mail.com".to_string()));
    k.logout(&a);
    assert!(k.is_valid_session(&b));
}

#[test]
fn relogin_replaces_previous_session() {
    let mut k = Keyring::new();
    let first = k.login("bob@mail.com", "1234", Some(&HASH_1234[..])).unwrap();
    let second = k.login("bob@mail.com", "1234", Some(&HASH_1234[..])).unwrap();
    assert_ne!(first, second);
    assert!(!k.is_valid_session(&first));
    assert_eq!(k.get_email(&second), Some("bob@mail.com".to_string()));
}

#[test]
fn start_session_with_taken_id_moves_it() {
    let mut k = Keyring::new();
    let s = k.start_session("a@mail.com", Uuid::wrap(9));
    assert_eq!(s, session(9));
    k.start_session("b@mail.com", Uuid::wrap(9));
    assert_eq!(k.get_email(&session(9)), Some("b@mail.com".to_string()));
}

#[test]
fn session_from_u128() {
    assert_eq!(Session::from(42u128), session(42));
}

#[test]
fn cookie_text_is_hyphenated_lowercase() {
    let s = session(0x0123456789abcdef0123456789abcdef);
    assert_eq!(s.cookie_text(), "01234567-89ab-cdef-0123-456789abcdef");
    assert_eq!(session(0).cookie_text(), "00000000-0000-0000-0000-000000000000");
}

#[test]
fn cookie_of_open_session_authenticates() {
    let mut k = Keyring::new();
    let s = k.start_session("a@mail.com", Uuid::wrap(0xfeed));
    let cookie = s.cookie_text();
    assert_eq!(k.session_from_cookie(&cookie), Some(s));
    k.logout(&s);
    assert_eq!(k.session_from_cookie(&cookie), None);
}

#[test]
fn garbage_cookie_does_not_authenticate() {
    let mut k = Keyring::new();
    k.start_session("a@mail.com", Uuid::wrap(0));
    assert_eq!(k.session_from_cookie("not a uuid"), None);
    assert_eq!(k.session_from_cookie(""), None);
}

#[test]
fn session_for_id_checks_the_keyring() {
    let mut k = Keyring::new();
    k.start_session("a@mail.com", Uuid::wrap(3));
    assert_eq!(k.session_for_id(Some(3)), Some(session(3)));
    assert_eq!(k.session_for_id(Some(4)), None);
    assert_eq!(k.session_for_id(None), None);
}

#[test]
fn authenticate_by_cookie() {
    let mut k = Keyring::new();
    let s = k.start_session("a@mail.com", Uuid::wrap(77));
    let cookie = s.cookie_text();
    assert_eq!(k.authenticate(Some(&cookie), None, None, None), Ok(s));
}

#[test]
fn authenticate_falls_back_to_credentials() {
    let mut k = Keyring::new();
    let stale = session(5).cookie_text();
    let s = k
        .authenticate(Some(&stale), Some("bob@mail.com"), Some("1234"), Some(&HASH_1234[..]))
        .unwrap();
    assert_eq!(k.get_email(&s), Some("bob@mail.com".to_string()));
}

#[test]
fn authenticate_fails_without_means() {
    let mut k = Keyring::new();
    assert_eq!(k.authenticate(None, None, None, None), Err(LoginError::Error));
    assert_eq!(
        k.authenticate(None, Some("bob@mail.com"), None, Some(&HASH_1234[..])),
        Err(LoginError::Error)
    );
    assert_eq!(
        k.authenticate(None, Some("bob@mail.com"), Some("wrong"), Some(&HASH_1234[..])),
        Err(LoginError::Error)
    );
    assert_eq!(
        k.authenticate(Some("junk"), Some("bob@mail.com"), Some("1234"), None),
        Err(LoginError::Error)
    );
}

#[test]
fn email_follows_login_logout_history() {
    let mut k = Keyring::new();
    let a = k.start_session("a@mail.com", Uuid::wrap(1));
    let b = k.start_session("b@mail.com", Uuid::wrap(2));
    k.logout(&a);
    let a2 = k.start_session("a@mail.com", Uuid::wrap(3));
    let c = k.start_session("c@mail.com", Uuid::wrap(2));
    assert_eq!(k.get_email(&a), None);
    assert_eq!(k.get_email(&a2), Some("a@mail.com".to_string()));
    assert_eq!(k.get_email(&b), Some("c@mail.com".to_string()));
    assert_eq!(c, b);
    k.logout(&c);
    assert_eq!(k.get_email(&b), None);
    assert_eq!(k.get_email(&a2), Some("a@mail.com".to_string()));
}
