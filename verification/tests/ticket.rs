use bobba_launcher::ticket::{launch_ticket, parse_ticket};

#[test]
fn parses_habbo_link() {
    let t = parse_ticket("habbo://hab?server=hhes&token=1b2c-33ef.V4").expect("ticket");
    assert_eq!(t.server_id, "hhes");
    assert_eq!(t.sso_ticket, "1b2c-33ef.V4");
    assert_eq!(t.server_host, "www.habbo.es");
    assert_eq!(t.username, None);
}

#[test]
fn parses_dotted_code_with_username() {
    let t = parse_ticket("hhus.abc-def.V4.alice").expect("ticket");
    assert_eq!(t.server_id, "hhus");
    assert_eq!(t.sso_ticket, "abc-def.V4");
    assert_eq!(t.server_host, "www.habbo.com");
    assert_eq!(t.username.as_deref(), Some("alice"));
}

#[test]
fn username_skips_empty_segments() {
    let t = parse_ticket("hhbr.tok.V4..carol").expect("ticket");
    assert_eq!(t.username.as_deref(), Some("carol"));
    let t = parse_ticket("hhbr.tok.V4.a.b").expect("ticket");
    assert_eq!(t.username.as_deref(), Some("a.b"));
    let t = parse_ticket("hhbr.tok.V4..").expect("ticket");
    assert_eq!(t.username, None);
}

#[test]
fn surrounding_whitespace_is_ignored() {
    let t = parse_ticket("  \n hhde.x.V4 \t").expect("ticket");
    assert_eq!(t.server_host, "www.habbo.de");
    assert_eq!(t.sso_ticket, "x.V4");
}

#[test]
fn server_id_case_is_kept_but_matched_loosely() {
    let t = parse_ticket("HHFR.x.V4").expect("ticket");
    assert_eq!(t.server_id, "HHFR");
    assert_eq!(t.server_host, "www.habbo.fr");
}

#[test]
fn rejects_non_tickets() {
    assert!(parse_ticket("").is_none());
    assert!(parse_ticket("   ").is_none());
    assert!(parse_ticket("hhes.abc").is_none());
    assert!(parse_ticket("hhxx.abc.V4").is_none());
    // A link with `server=` but no `?server=`.
    assert!(parse_ticket("habbo://server=hhes.a.V4").is_none());
}

#[test]
fn link_and_code_give_the_same_ticket() {
    let a = parse_ticket("habbo://hab?server=hhnl&token=0f0e-aa.V4.bob").expect("link");
    let b = parse_ticket("hhnl.0f0e-aa.V4.bob").expect("code");
    assert_eq!(a.server_id, b.server_id);
    assert_eq!(a.sso_ticket, b.sso_ticket);
    assert_eq!(a.server_host, b.server_host);
    assert_eq!(a.username, b.username);
    // Server ids with dots and hyphens are read the same way in both forms.
    assert_eq!(
        parse_ticket("habbo://hab?server=hh-es.x&token=t.V4").is_some(),
        parse_ticket("hh-es.x.t.V4").is_some()
    );
}

#[test]
fn launch_ticket_reports_invalid_text() {
    let err = launch_ticket("nonsense").err().expect("error");
    assert_eq!(err, "Invalid login ticket. Paste a habbo:// link or server.ticket.V4 code.");
    assert!(launch_ticket("hhit.t.V4").is_ok());
}
