use chat_data::defaults_for_models::{
    default_str, default_to_bigint_zero, default_to_channel_str, default_to_false,
    default_to_zero, default_visibility, default_voice_mode,
};
use chat_data::pool_config::PoolConfig;
use chat_data::standardized_error::StandardizedError;

#[test]
fn error_construction_keeps_every_field() {
    let e = StandardizedError::new("boom", "set_account", "database", "DATA_INVALID", 401, "Error");
    assert_eq!(e.error_message, "boom");
    assert_eq!(e.name, "set_account");
    assert_eq!(e.part, "database");
    assert_eq!(e.tag, "DATA_INVALID");
    assert_eq!(e.status_code, 401);
    assert_eq!(e.title, "Error");
}

#[test]
fn error_display_lists_fields_in_fixed_order() {
    let e = StandardizedError::new(
        "No fields to update",
        "AccessDatabaseError",
        "SET",
        "DATA_INVALID",
        401,
        "Error",
    );
    assert_eq!(
        e.display_string(),
        "Error: No fields to update\nName: AccessDatabaseError\nPart: SET\nTag: DATA_INVALID\nStatus Code: 401\nTitle: Error"
    );
}

#[test]
fn error_display_renders_every_status_code_shape() {
    let e = StandardizedError::new("m", "n", "p", "t", 0, "x");
    assert!(e.display_string().contains("Status Code: 0\n"));
    let e = StandardizedError::new("m", "n", "p", "t", 65535, "x");
    assert!(e.display_string().contains("Status Code: 65535\n"));
}

#[test]
fn model_defaults() {
    assert_eq!(default_to_bigint_zero(), 0i64);
    assert_eq!(default_to_zero(), 0u32);
    assert!(!default_to_false());
    assert_eq!(default_to_channel_str(), "channel");
    assert_eq!(default_visibility(), "public");
    assert_eq!(default_voice_mode(), "free");
    assert_eq!(default_str(), " ");
}

#[test]
fn pool_config_documented_defaults() {
    let c = PoolConfig::defaults();
    assert_eq!(c.host, "localhost");
    assert_eq!(c.port, 3306);
    assert_eq!(c.user, "root");
    assert_eq!(c.password, "password");
    assert_eq!(c.database, "chat_app");
    assert_eq!(c.charset, "utf8mb4_unicode_ci");
    assert_eq!(c.max_connections, 10);
}
