use ditto_replay::audit::{fix_source, scan_source, should_ignore};
use ditto_replay::config::{db_url, describes_settings, redis_url, FileConfig};
use ditto_replay::ids::Timestamp;
use ditto_replay::interaction::Interaction;
use ditto_replay::json::JsonValue;
use ditto_replay::order::sort_positions;
use ditto_replay::patterns::Patterns;
use ditto_replay::postgres::{
    call_status_str, call_type_str, interaction_to_row, parse_call_status, parse_call_type,
    row_to_interaction,
};
use ditto_replay::text::{
    contains, cut, decimal_text, ends_with, join, lines, parse_usize, replace, split,
    starts_with, trim, trim_end_char, trim_prefixes,
};
use ditto_replay::toml_text::parse_document;
use ditto_replay::types::{CallStatus, CallType};

#[test]
fn call_sites_are_found() {
    let source = "fn main() {\n    let c = reqwest::Client::new();\n    // tokio::spawn(x)\n    tokio::task::spawn(f()); tokio::spawn(g());\r\n  * redis::Client::open(u)\n    redis::Client::open(u); // replay_compat\n\tsqlx::PgPool::connect(u)\n}\n";
    let found = scan_source("a.rs", source);
    let seen: Vec<(usize, String)> = found.iter().map(|f| (f.line, f.kind.clone())).collect();
    assert_eq!(
        seen,
        vec![
            (2, "reqwest::Client::new()".to_string()),
            (4, "tokio::task::spawn(".to_string()),
            (7, "sqlx::PgPool::connect(".to_string()),
        ]
    );
    assert_eq!(found[0].file, "a.rs");
    assert_eq!(found[0].snippet, "let c = reqwest::Client::new();");
    assert_eq!(found[0].fix, "use replay_compat::http::Client::new() instead");
    assert_eq!(found[2].snippet, "sqlx::PgPool::connect(u)");
    assert_eq!(found[2].fix, "use replay_compat::sql::connect(...) instead");
}

#[test]
fn every_call_is_known() {
    for (call, fix) in [
        ("reqwest::Client::builder()", "use replay_compat::http::Client::new() instead"),
        (
            "tokio::spawn(",
            "use replay_compat::tokio::task::spawn(...) or annotate with #[instrument_spawns]",
        ),
        ("redis::Client::open(", "use replay_compat::redis::open(...) instead"),
        ("sqlx::Pool::connect(", "use replay_compat::sql::connect(...) instead"),
        ("sqlx::MySqlPool::connect(", "use replay_compat::sql::connect(...) instead"),
    ] {
        let found = scan_source("x", call);
        assert_eq!(found.len(), 1);
        assert_eq!(found[0].kind, call);
        assert_eq!(found[0].fix, fix);
        assert_eq!(found[0].line, 1);
    }
}

#[test]
fn generated_sources_are_skipped() {
    assert!(scan_source("x", "// @generated\ntokio::spawn(f)").is_empty());
    assert!(scan_source("x", "/* @generated */\ntokio::spawn(f)").is_empty());
    assert_eq!(scan_source("x", " // @generated\ntokio::spawn(f)").len(), 1);
}

#[test]
fn paths_are_ignored_by_substring() {
    let pats = vec!["target".to_string(), "gen".to_string()];
    assert!(should_ignore("a/target/b.rs", &pats));
    assert!(should_ignore("a/regen.rs", &pats));
    assert!(!should_ignore("a/b.rs", &pats));
    assert!(!should_ignore("a/b.rs", &vec![]));
    assert!(should_ignore("a/b.rs", &vec![String::new()]));
}

#[test]
fn call_sites_are_rewritten() {
    assert_eq!(
        fix_source("reqwest::Client::new(); reqwest::Client::builder(); redis::Client::open(u);").as_deref(),
        Some("replay_compat::http::Client::new(); replay_compat::http::Client::new(); replay_compat::redis::open(u);")
    );
    assert_eq!(
        fix_source("sqlx::PgPool::connect(u); sqlx::MySqlPool::connect(u); sqlx::Pool::connect(u)").as_deref(),
        Some("replay_compat::sql::connect(u); replay_compat::sql::connect(u); replay_compat::sql::connect(u)")
    );
    assert_eq!(
        fix_source("tokio::spawn(a)").as_deref(),
        Some("replay_compat::tokio::task::spawn(a)")
    );
    assert_eq!(
        fix_source("tokio::task::spawn(a)").as_deref(),
        Some("replay_compat::tokio::task::spawn(a)")
    );
    assert_eq!(fix_source("fn main() {}"), None);
    assert_eq!(fix_source(""), None);
}

#[test]
fn variables_come_before_the_file() {
    let file = "db_url = 'postgres://f'\nredis_url = 'redis://f'\n";
    assert_eq!(db_url(Some("v".to_string()), Some(file)).as_deref(), Some("v"));
    assert_eq!(db_url(None, Some(file)).as_deref(), Some("postgres://f"));
    assert_eq!(redis_url(None, Some(file)).as_deref(), Some("redis://f"));
    assert_eq!(redis_url(Some("r".to_string()), None).as_deref(), Some("r"));
    assert_eq!(db_url(None, None), None);
    assert_eq!(db_url(None, Some("db_url = 5")), None);
    assert_eq!(redis_url(None, Some("db_url = 5\nredis_url = 'x'")), None);
    assert_eq!(db_url(None, Some("not toml {")), None);
    assert_eq!(redis_url(None, Some("other = 1")), None);
    assert!(FileConfig::from_file_text(None).db_url.is_none());
}

#[test]
fn documents_are_read() {
    let d = parse_document("a = 1\n[t]\nb = [true, 'x']\n").unwrap();
    assert_eq!(d.to_compact(), r#"{"a":1,"t":{"b":[true,"x"]}}"#);
    assert!(parse_document("a = ").is_none());
}

#[test]
fn call_types_and_statuses_have_names() {
    for t in [
        CallType::Http,
        CallType::Grpc,
        CallType::Postgres,
        CallType::Redis,
        CallType::Function,
    ] {
        assert_eq!(parse_call_type(call_type_str(&t)), t);
    }
    for s in
        [CallStatus::Completed, CallStatus::Error, CallStatus::Cancelled, CallStatus::Timeout]
    {
        assert_eq!(parse_call_status(call_status_str(&s)), s);
    }
    assert_eq!(call_type_str(&CallType::Postgres), "postgres");
    assert_eq!(call_status_str(&CallStatus::Timeout), "timeout");
    assert_eq!(parse_call_type("other"), CallType::Function);
    assert_eq!(parse_call_status("other"), CallStatus::Completed);
}

#[test]
fn rows_give_back_what_they_hold() {
    let mut i = Interaction::new(
        7,
        u32::MAX,
        CallType::Redis,
        "k".to_string(),
        JsonValue::unsigned(1),
        JsonValue::text("r"),
        u64::MAX,
    );
    i.parent_id = Some(3);
    i.status = CallStatus::Cancelled;
    i.error = Some("e".to_string());
    i.recorded_at = Timestamp { secs: -5, nanos: 9 };
    i.build_hash = "b".to_string();
    i.service_name = "s".to_string();
    let row = interaction_to_row(&i);
    assert_eq!(row.sequence, -1);
    assert_eq!(row.duration_ms, -1);
    assert_eq!(row.call_type, "redis");
    assert_eq!(row.status, "cancelled");
    assert_eq!(row_to_interaction(row), i);
}

#[test]
fn positions_are_sorted_stably() {
    assert_eq!(sort_positions(&vec![3, 1, 2, 1, -4]), vec![4, 1, 3, 2, 0]);
    assert_eq!(sort_positions(&vec![]), Vec::<usize>::new());
}

#[test]
fn patterns_are_searched() {
    let p = Patterns::new();
    assert!(p.is_uuid("550e8400-e29b-41d4-a716-446655440000"));
    assert!(!p.is_uuid("x550e8400-e29b-41d4-a716-446655440000"));
    assert!(p.is_timestamp("2024-01-01T00:00:00+02:00"));
    assert!(!p.is_timestamp("2024-01-01"));
}

#[test]
fn text_is_split_and_joined() {
    assert_eq!(split("a/b//c", '/'), vec!["a", "b", "", "c"]);
    assert_eq!(split("", '/'), vec![""]);
    assert_eq!(join(&split("a/b//c", '/'), "/"), "a/b//c");
    assert_eq!(join(&vec![], "/"), "");
    assert_eq!(cut("a:b:c", ':'), Some(("a".to_string(), "b:c".to_string())));
    assert_eq!(cut("abc", ':'), None);
    assert_eq!(lines("a\nb\r\n\nc"), vec!["a", "b", "", "c"]);
    assert_eq!(lines("a\n"), vec!["a"]);
    assert_eq!(lines(""), Vec::<String>::new());
    assert_eq!(lines("a\r"), vec!["a\r"]);
}

#[test]
fn text_is_searched_and_replaced() {
    assert!(contains("abcabd", "abd") && contains("x", "") && !contains("ab", "abc"));
    assert!(starts_with("abc", "ab") && ends_with("abc", "bc") && !ends_with("c", "bc"));
    assert_eq!(replace("aaa", "aa", "b"), "ba");
    assert_eq!(replace("xaxa", "a", ""), "xx");
    assert_eq!(trim("\u{2003} a b\t\n"), "a b");
    assert_eq!(trim_end_char("a//", '/'), "a");
    assert_eq!(trim_prefixes("ababc", "ab"), "c");
}

#[test]
fn numbers_are_read_and_written() {
    assert_eq!(decimal_text(0), "0");
    assert_eq!(decimal_text(u64::MAX), "18446744073709551615");
    assert_eq!(parse_usize("42"), Some(42));
    assert_eq!(parse_usize("+7"), Some(7));
    assert_eq!(parse_usize("007"), Some(7));
    assert_eq!(parse_usize("18446744073709551615"), Some(usize::MAX));
    for s in ["", "+", "-1", "1 ", "18446744073709551616", "99999999999999999999999"] {
        assert_eq!(parse_usize(s), None);
    }
}

#[test]
fn unreadable_settings_are_told() {
    assert!(describes_settings("db_url = 'x'"));
    assert!(describes_settings(""));
    assert!(describes_settings("other = 5"));
    assert!(!describes_settings("redis_url = 5"));
    assert!(!describes_settings("not toml {"));
}
