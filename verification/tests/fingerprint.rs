use ditto_replay::fingerprint::{looks_like_id, replace_ids, replace_sql_params, FingerprintBuilder};

#[test]
fn http_strips_ids() {
    assert_eq!(
        FingerprintBuilder::http("GET", "/api/v1/payments/pay_abc123"),
        "GET /api/v1/payments/{id}"
    );
}

#[test]
fn http_preserves_static_paths() {
    assert_eq!(
        FingerprintBuilder::http("POST", "/api/v1/payments"),
        "POST /api/v1/payments"
    );
}

#[test]
fn sql_replaces_placeholders() {
    assert_eq!(
        FingerprintBuilder::sql("SELECT * FROM payments WHERE id = $1"),
        "SELECT * FROM payments WHERE id = ?"
    );
}

#[test]
fn sql_replaces_multiple_placeholders() {
    assert_eq!(
        FingerprintBuilder::sql("SELECT * FROM payments WHERE id = $1 AND amount = $2"),
        "SELECT * FROM payments WHERE id = ? AND amount = ?"
    );
}

#[test]
fn redis_key_strips_ids() {
    assert_eq!(
        FingerprintBuilder::redis_key("payment:session:sess_xyz789"),
        "payment:session:{id}"
    );
}

#[test]
fn redis_key_preserves_static() {
    assert_eq!(FingerprintBuilder::redis_key("config:global"), "config:global");
}

#[test]
fn fingerprint_strips_sql_params() {
    assert_eq!(
        FingerprintBuilder::sql("SELECT * FROM payments WHERE id = $1"),
        "SELECT * FROM payments WHERE id = ?"
    );
}

#[test]
fn fingerprint_http_strips_id_segment() {
    assert_eq!(
        FingerprintBuilder::http("GET", "/api/v1/payments/pay_abc123"),
        "GET /api/v1/payments/{id}"
    );
}

#[test]
fn grpc_fingerprint_is_stable_path() {
    assert_eq!(
        FingerprintBuilder::grpc("/payments.PaymentService/CreatePayment"),
        "/payments.PaymentService/CreatePayment"
    );
    assert_eq!(
        FingerprintBuilder::grpc("/grpc.health.v1.Health/Check"),
        "/grpc.health.v1.Health/Check"
    );
}

#[test]
fn redis_fingerprint_strips_dynamic_segments() {
    assert_eq!(
        FingerprintBuilder::redis_key("payment:session:sess_abc123"),
        "payment:session:{id}"
    );
    assert_eq!(
        FingerprintBuilder::redis_key("idempotency:pay_xyz789"),
        "idempotency:{id}"
    );
    assert_eq!(FingerprintBuilder::redis_key("config:global"), "config:global");
    assert_eq!(FingerprintBuilder::redis_key("feature:flags"), "feature:flags");
}

#[test]
fn fingerprint_normalises_sql_params() {
    assert_eq!(
        FingerprintBuilder::sql("SELECT * FROM payments WHERE id = $1 AND status = $2"),
        "SELECT * FROM payments WHERE id = ? AND status = ?"
    );
    assert_eq!(
        FingerprintBuilder::sql("INSERT INTO events (id, payload) VALUES ($1, $2)"),
        "INSERT INTO events (id, payload) VALUES (?, ?)"
    );
    assert_eq!(
        FingerprintBuilder::sql("SELECT COUNT(*) FROM payments"),
        "SELECT COUNT(*) FROM payments"
    );
}

#[test]
fn placeholders_take_all_their_digits() {
    assert_eq!(replace_sql_params("$10"), "?");
    assert_eq!(replace_sql_params("$99,$1"), "?,?");
    assert_eq!(replace_sql_params("$100"), "?");
    assert_eq!(replace_sql_params("SELECT $100"), "SELECT ?");
    assert_eq!(replace_sql_params("$12345x$6"), "?x?");
    assert_eq!(replace_sql_params("$0 $05 $ $a"), "$0 $05 $ $a");
    assert_eq!(replace_sql_params("$$12"), "$?");
    assert_eq!(replace_sql_params(""), "");
}

#[test]
fn identifiers_are_long_and_have_a_digit() {
    assert!(looks_like_id("pay_123"));
    assert!(looks_like_id("550e8400-e29b-41d4-a716-446655440000"));
    assert!(!looks_like_id("pay_1"));
    assert!(!looks_like_id("payments"));
    assert!(!looks_like_id("pay.123456"));
    assert!(!looks_like_id(""));
    // Letters of other scripts count, by their bytes.
    assert!(looks_like_id("éé12"));
    assert!(!looks_like_id("é12"));
}

#[test]
fn stripping_twice_is_stripping_once() {
    let once = replace_ids("/a/abc1234/b//x_99999/");
    assert_eq!(once, "/a/{id}/b//{id}/");
    assert_eq!(replace_ids(&once), once);
}

#[test]
fn sql_template_is_idempotent() {
    let once = FingerprintBuilder::sql("a = $1 and b = $22 and c = '$'");
    assert_eq!(once, "a = ? and b = ? and c = '$'");
    assert_eq!(FingerprintBuilder::sql(&once), once);
}

#[test]
fn function_paths_are_kept() {
    assert_eq!(FingerprintBuilder::function("a::b::c123456"), "a::b::c123456");
}
