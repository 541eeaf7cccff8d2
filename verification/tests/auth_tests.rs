use shelf::auth::{
    account_locked, clear_session_cookie, device_label, hash_password, hex_string, login_username,
    random_token, session_cookie, session_needs_rotation, sha256_hex, validate_password,
    validate_username, verify_password, LoginLimiter,
};
use shelf::auth::{account_names, check_account, lockout_deadline, LoginRefusal, LOCKOUT_AFTER, LOCKOUT_MINUTES};
use shelf::auth::{epoch_seconds, lockout_text, session_deadlines};
use shelf::db::UserRecord;
use shelf::models::UserRole;

#[test]
fn rejects_short_passwords() {
    assert!(validate_password("1234567").is_err());
    assert!(validate_password("12345678").is_ok());
}

#[test]
fn hashes_and_verifies() {
    let hash = hash_password("correct horse").unwrap();
    assert!(verify_password("correct horse", &hash));
    assert!(!verify_password("wrong password", &hash));
}

#[test]
fn session_cookie_sets_secure_and_domain() {
    let cookie = session_cookie("abc", true, Some("shelf.example.com"));
    assert!(cookie.contains("Secure"));
    assert!(cookie.contains("Domain=shelf.example.com"));
    assert!(!session_cookie("abc", false, None).contains("Secure"));
}

#[test]
fn limiter_trips_after_burst() {
    let mut limiter = LoginLimiter::new();
    for _ in 0..8 {
        assert!(limiter.allow("1.2.3.4"));
    }
    assert!(!limiter.allow("1.2.3.4"));
    assert!(limiter.allow("9.9.9.9"));
}

#[test]
fn limiter_window_reopens_after_five_minutes() {
    let mut limiter = LoginLimiter::new_at(1000);
    for _ in 0..8 {
        assert!(limiter.allow_at("1.2.3.4", 1000));
    }
    assert!(!limiter.allow_at("1.2.3.4", 1100));
    assert!(!limiter.allow_at("1.2.3.4", 1300));
    assert!(limiter.allow_at("1.2.3.4", 1401));
}

#[test]
fn limiter_global_window_caps_all_clients() {
    let mut limiter = LoginLimiter::new_at(0);
    for i in 0..60 {
        let key = format!("client-{i}");
        assert!(limiter.allow_at(&key, 10));
    }
    assert!(!limiter.allow_at("fresh", 10));
    assert!(limiter.allow_at("fresh", 400));
}

#[test]
fn password_message_names_the_minimum() {
    assert_eq!(
        validate_password("short").unwrap_err(),
        "Password must be at least 8 characters"
    );
    assert!(hash_password("short").is_err());
}

#[test]
fn usernames_are_trimmed_lowercased_and_checked() {
    assert_eq!(validate_username("  Reader_01 ").unwrap(), "reader_01");
    assert_eq!(
        validate_username("a").unwrap_err(),
        "Username must be 2–32 characters"
    );
    assert!(validate_username(&"x".repeat(33)).is_err());
    assert!(validate_username(&"x".repeat(32)).is_ok());
    assert_eq!(
        validate_username("bad name").unwrap_err(),
        "Username may only contain lowercase letters, digits, and underscores"
    );
    assert_eq!(login_username(" Owner "), "owner");
    assert_eq!(login_username(" Bad Name "), "Bad Name");
}

#[test]
fn device_labels_are_trimmed_and_capped() {
    assert_eq!(device_label(None), "Unknown device");
    assert_eq!(device_label(Some("   ")), "Unknown device");
    assert_eq!(device_label(Some(" iPhone ")), "iPhone");
    let long = "é".repeat(70);
    assert_eq!(device_label(Some(&long)).chars().count(), 64);
}

#[test]
fn cookies_have_exact_attributes() {
    assert_eq!(
        session_cookie("tok", false, None),
        "shelf_session=tok; Path=/; Max-Age=7776000; SameSite=Lax; HttpOnly"
    );
    assert_eq!(
        session_cookie("tok", true, Some(" shelf.example.com ")),
        "shelf_session=tok; Path=/; Max-Age=7776000; SameSite=Lax; HttpOnly; Domain=shelf.example.com; Secure"
    );
    assert_eq!(
        clear_session_cookie(false, Some("  ")),
        "shelf_session=; Path=/; Max-Age=0; SameSite=Lax; HttpOnly"
    );
    assert_eq!(
        clear_session_cookie(true, None),
        "shelf_session=; Path=/; Max-Age=0; SameSite=Lax; HttpOnly; Secure"
    );
}

#[test]
fn sha256_hex_matches_the_known_digest() {
    assert_eq!(
        sha256_hex(b"abc"),
        "ba7816bf8f01cfea414140de5dae2223b00361a396177a9cb410ff61f20015ad"
    );
    assert_eq!(hex_string(&[0x00, 0x0f, 0xa5, 0xff]), "000fa5ff");
}

#[test]
fn random_tokens_are_64_hex_digits_and_differ() {
    let a = random_token();
    let b = random_token();
    assert_eq!(a.len(), 64);
    assert!(a.chars().all(|c| c.is_ascii_hexdigit() && !c.is_ascii_uppercase()));
    assert_ne!(a, b);
}

#[test]
fn accounts_stay_locked_until_their_deadline() {
    let now = (1_790_000_000i64, 0u32);
    assert!(!account_locked(None, now));
    assert!(!account_locked(Some("not a time"), now));
    let later = chrono::DateTime::from_timestamp(now.0 + 60, 0).unwrap().to_rfc3339();
    let earlier = chrono::DateTime::from_timestamp(now.0 - 60, 0).unwrap().to_rfc3339();
    assert!(account_locked(Some(&later), now));
    assert!(!account_locked(Some(&earlier), now));
}

#[test]
fn sessions_rotate_after_a_week() {
    let now = (1_790_000_000i64, 0u32);
    let six_days = chrono::DateTime::from_timestamp(now.0 - 6 * 86400, 0).unwrap().to_rfc3339();
    let eight_days = chrono::DateTime::from_timestamp(now.0 - 8 * 86400, 0).unwrap().to_rfc3339();
    assert!(!session_needs_rotation(&six_days, now));
    assert!(session_needs_rotation(&eight_days, now));
    assert!(session_needs_rotation("garbage", now));
}

fn account(hash: &str, disabled: bool, locked_until: Option<&str>) -> UserRecord {
    UserRecord {
        id: 3,
        username: "reader".into(),
        display_name: "Reader".into(),
        password_hash: hash.into(),
        role: UserRole::Member,
        access_all: false,
        disabled,
        failed_attempts: 0,
        locked_until: locked_until.map(|s| s.to_string()),
        created_at: "2025-01-01T00:00:00Z".into(),
    }
}

#[test]
fn sign_in_checks_the_account_in_order() {
    // 2025-06-01T00:00:00Z
    let now = (1_748_736_000, 0);
    let hash = hash_password("correct horse").unwrap();
    assert_eq!(check_account(&account(&hash, false, None), "correct horse", now), None);
    assert_eq!(
        check_account(&account(&hash, false, None), "wrong horse", now),
        Some(LoginRefusal::InvalidCredentials)
    );
    assert_eq!(
        check_account(&account("", false, None), "correct horse", now),
        Some(LoginRefusal::InvalidCredentials)
    );
    assert_eq!(
        check_account(&account(&hash, true, Some("2030-01-01T00:00:00Z")), "correct horse", now),
        Some(LoginRefusal::Disabled)
    );
    assert_eq!(
        check_account(&account(&hash, false, Some("2030-01-01T00:00:00Z")), "correct horse", now),
        Some(LoginRefusal::Locked)
    );
    assert_eq!(
        check_account(&account(&hash, false, Some("2020-01-01T00:00:00Z")), "correct horse", now),
        None
    );
    assert_eq!(LoginRefusal::Locked.message(), "This account is locked. Try again later.");
    assert_eq!(LoginRefusal::InvalidCredentials.message(), "Invalid username or password");
}

#[test]
fn new_accounts_need_valid_names() {
    assert_eq!(
        account_names("  Kid_2 ", "  Little One "),
        Ok(("kid_2".to_string(), "Little One".to_string()))
    );
    assert_eq!(account_names("kid", "   "), Err("Display name is required".to_string()));
    assert_eq!(account_names("k", "   "), Err("Username must be 2–32 characters".to_string()));
    assert_eq!(
        account_names("kid-2", "Kid"),
        Err("Username may only contain lowercase letters, digits, and underscores".to_string())
    );
}

#[test]
fn eighth_failure_locks_for_fifteen_minutes() {
    // 2025-06-01T00:00:00Z
    let now = (1_748_736_000, 0);
    assert_eq!(lockout_deadline(7, LOCKOUT_AFTER, LOCKOUT_MINUTES, now), None);
    assert_eq!(lockout_deadline(8, LOCKOUT_AFTER, LOCKOUT_MINUTES, now), Some((1_748_736_900, 0)));
    assert_eq!(lockout_deadline(9, LOCKOUT_AFTER, LOCKOUT_MINUTES, now), Some((1_748_736_900, 0)));
    let until = "2025-06-01T00:15:00+00:00";
    assert!(account_locked(Some(until), (1_748_736_000 + 14 * 60, 0)));
    assert!(account_locked(Some(until), (1_748_736_899, 999_999_999)));
    assert!(!account_locked(Some(until), (1_748_736_900, 0)));
}

#[test]
fn clock_readings_become_unix_seconds() {
    assert_eq!(epoch_seconds(Ok((1_748_736_000, 5))), 1_748_736_000);
    assert_eq!(epoch_seconds(Err((10, 0))), -10);
    assert_eq!(epoch_seconds(Err((10, 1))), -11);
    assert_eq!(epoch_seconds(Ok((u64::MAX, 0))), i64::MAX);
    assert_eq!(epoch_seconds(Err((u64::MAX, 3))), i64::MIN);
}

#[test]
fn sessions_idle_out_after_14_days_and_expire_after_90() {
    // 2025-06-01T00:00:00Z
    let (idle, absolute) = session_deadlines((1_748_736_000, 0));
    assert_eq!(idle, "2025-06-15T00:00:00+00:00");
    assert_eq!(absolute, "2025-08-30T00:00:00+00:00");
    let (idle, _) = session_deadlines((1_748_736_000, 500_000_000));
    assert_eq!(idle, "2025-06-15T00:00:00.500+00:00");
}

#[test]
fn eighth_failure_writes_a_lock_deadline() {
    let now = (1_748_736_000, 0);
    assert_eq!(lockout_text(7, now), None);
    let until = lockout_text(8, now).unwrap();
    assert_eq!(until, "2025-06-01T00:15:00+00:00");
    assert!(account_locked(Some(&until), (1_748_736_000 + 60, 0)));
    assert!(!account_locked(Some(&until), (1_748_736_900, 0)));
}

#[test]
fn long_passwords_are_not_refused_as_short() {
    let r = hash_password("a long enough password");
    assert_ne!(r.as_ref().err().map(String::as_str), Some("Password must be at least 8 characters"));
    assert!(r.is_ok());
}
