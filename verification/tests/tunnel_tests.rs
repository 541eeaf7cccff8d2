use shelf::tunnel::{
    classify_log_line, cloudflared_candidates, host_matches_configured, looks_like_tunnel_error,
    looks_like_tunnel_ready, normalize_hostname, public_url_for_hostname, remote_start_check,
    resolve_hostname, restart_delay_secs, restart_status, strip_ansi, summarize_tunnel_error,
    token_to_save, token_to_start, tunnel_run_args, usable_token, LogUpdate,
};

#[test]
fn normalizes_hostname() {
    assert_eq!(
        normalize_hostname("https://Shelf.example.com/").as_deref(),
        Ok("shelf.example.com")
    );
    assert!(normalize_hostname("localhost").is_err());
    assert!(normalize_hostname("").is_err());
}

#[test]
fn matches_configured_and_www() {
    assert!(host_matches_configured("shelf.example.com", "shelf.example.com"));
    assert!(host_matches_configured("www.shelf.example.com", "shelf.example.com"));
    assert!(!host_matches_configured("trycloudflare.com", "shelf.example.com"));
    assert!(!host_matches_configured("abcd.run.pinggy-free.link", "shelf.example.com"));
}

#[test]
fn detects_ready_log() {
    assert!(looks_like_tunnel_ready("INF Registered tunnel connection connIndex=0"));
    assert!(!looks_like_tunnel_ready("starting"));
}

#[test]
fn strips_ansi() {
    let line = "\u{1b}[32mRegistered tunnel connection\u{1b}[0m";
    assert!(looks_like_tunnel_ready(&strip_ansi(line)));
}

#[test]
fn resolve_hostname_uses_stored_value() {
    assert_eq!(
        resolve_hostname(Some("https://shelf.example.com"), None).as_deref(),
        Some("shelf.example.com")
    );
    assert_eq!(resolve_hostname(Some(""), None).as_deref(), None);
    assert_eq!(resolve_hostname(None, None).as_deref(), None);
}

#[test]
fn resolve_hostname_falls_back_to_the_environment() {
    assert_eq!(
        resolve_hostname(Some("bad"), Some("http://Env.Example.org:8443/x")).as_deref(),
        Some("env.example.org")
    );
    assert_eq!(
        resolve_hostname(Some("a.example.com"), Some("b.example.com")).as_deref(),
        Some("a.example.com")
    );
}

#[test]
fn hostnames_lose_scheme_path_port_and_trailing_dots() {
    assert_eq!(normalize_hostname(" http://A.B.C:8080/path ").unwrap(), "a.b.c");
    assert_eq!(normalize_hostname("a.example.com.").unwrap(), "a.example.com");
    assert_eq!(
        normalize_hostname("has space.com").unwrap_err(),
        "Enter a hostname like shelf.example.com"
    );
    assert_eq!(public_url_for_hostname(" a.b "), Some("https://a.b".to_string()));
    assert_eq!(public_url_for_hostname("  "), None);
    assert!(!host_matches_configured("", "a.b"));
    assert!(host_matches_configured(" A.B. ", "a.b"));
}

#[test]
fn error_lines_are_recognized_and_summarized() {
    assert!(looks_like_tunnel_error("ERR failed to connect"));
    assert!(looks_like_tunnel_error("Connection REFUSED"));
    assert!(!looks_like_tunnel_error("INF all good"));
    let long = "x".repeat(130);
    let s = summarize_tunnel_error(&long);
    assert_eq!(s.chars().count(), 118);
    assert!(s.ends_with('…'));
    assert_eq!(summarize_tunnel_error("  short  "), "short");
}

#[test]
fn ansi_sequences_are_removed_up_to_their_letter() {
    assert_eq!(strip_ansi("a\u{1b}[1;31mb\u{1b}[0mc"), "abc");
    assert_eq!(strip_ansi("tail\u{1b}[123"), "tail");
    assert_eq!(strip_ansi("lone\u{1b}x"), "lone\u{1b}x");
}

#[test]
fn log_lines_update_the_status() {
    assert!(matches!(
        classify_log_line("\u{1b}[32mINF Registered tunnel connection\u{1b}[0m"),
        LogUpdate::Ready
    ));
    match classify_log_line("ERR Unauthorized: token rejected ") {
        LogUpdate::Failure(m) => assert_eq!(m, "ERR Unauthorized: token rejected"),
        _ => panic!("expected a failure"),
    }
    assert!(matches!(classify_log_line("INF hello"), LogUpdate::Nothing));
}

#[test]
fn restarts_back_off_up_to_fifteen_seconds() {
    assert_eq!(restart_delay_secs(1), 2);
    assert_eq!(restart_delay_secs(2), 4);
    assert_eq!(restart_delay_secs(3), 8);
    assert_eq!(restart_delay_secs(4), 15);
    assert_eq!(restart_delay_secs(40), 15);
    assert_eq!(restart_status("", 4), "restarting in 4s");
    assert_eq!(restart_status("ERR bad token", 8), "ERR bad token · retry in 8s");
}

#[test]
fn tokens_must_not_be_blank() {
    assert_eq!(usable_token("  abc "), Some("abc".to_string()));
    assert_eq!(usable_token("   "), None);
    assert_eq!(token_to_save(" t ").unwrap(), "t");
    assert_eq!(token_to_save("").unwrap_err(), "Cloud tunnel token is empty");
    assert_eq!(token_to_start(" ").unwrap_err(), "Cloud tunnel token is not configured");
}

#[test]
fn remote_access_needs_password_hostname_and_cloudflared() {
    assert_eq!(
        remote_start_check(false, "a.b", true).unwrap_err(),
        "Set an owner password before enabling remote access"
    );
    assert_eq!(
        remote_start_check(true, "", true).unwrap_err(),
        "Set a public hostname before enabling remote access"
    );
    assert_eq!(
        remote_start_check(true, "a.b", false).unwrap_err(),
        "Install cloudflared: brew install cloudflare/cloudflare/cloudflared"
    );
    assert!(remote_start_check(true, "a.b", true).is_ok());
}

#[test]
fn cloudflared_is_looked_for_on_path_then_homebrew() {
    assert_eq!(
        cloudflared_candidates(Some("/usr/bin:/opt/bin/")),
        vec![
            "/usr/bin/cloudflared".to_string(),
            "/opt/bin/cloudflared".to_string(),
            "/opt/homebrew/bin/cloudflared".to_string(),
            "/usr/local/bin/cloudflared".to_string(),
        ]
    );
    assert_eq!(cloudflared_candidates(None).len(), 2);
}

#[test]
fn named_tunnel_arguments() {
    assert_eq!(
        tunnel_run_args("abc123"),
        ["tunnel", "--no-autoupdate", "run", "--token", "abc123"]
    );
}

#[test]
fn unusable_hostnames_are_refused_with_a_hint() {
    assert_eq!(
        normalize_hostname("localhost"),
        Err("Enter a hostname like shelf.example.com".to_string())
    );
}
