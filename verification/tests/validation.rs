use chat_data::database_utils::{convert_to_camel_case, convert_to_snake_case, validate_data};
use chat_data::field_map::FieldMap;

fn map_of(pairs: &[(&str, &str)]) -> FieldMap {
    let mut m = FieldMap::new();
    for (k, v) in pairs {
        m.insert((*k).to_string(), (*v).to_string());
    }
    m
}

#[test]
fn validate_filters_to_allow_list() {
    let m = map_of(&[("account", "a"), ("password", "p"), ("extra", "x")]);
    let (columns, values) = validate_data(m, &["account", "password"]).unwrap();
    assert_eq!(columns.len(), 2);
    assert_eq!(values.len(), 2);
    let ia = columns.iter().position(|c| c == "account").unwrap();
    let ip = columns.iter().position(|c| c == "password").unwrap();
    assert_eq!(values[ia], "a");
    assert_eq!(values[ip], "p");
    assert!(!columns.iter().any(|c| c == "extra"));
}

#[test]
fn validate_rejects_when_nothing_allowed() {
    let m = map_of(&[("foo", "bar")]);
    let e = validate_data(m, &["account", "password"]).unwrap_err();
    assert_eq!(e.tag, "DATA_INVALID");
    assert_eq!(e.error_message, "No fields to update");
    assert_eq!(e.name, "AccessDatabaseError");
    assert_eq!(e.part, "SET");
    assert_eq!(e.status_code, 401);
    assert_eq!(e.title, "Error");
}

#[test]
fn validate_rejects_empty_map() {
    let m = FieldMap::new();
    let e = validate_data(m, &["account"]).unwrap_err();
    assert_eq!(e.tag, "DATA_INVALID");
}

#[test]
fn validate_normalizes_keys_before_filtering() {
    let m = map_of(&[("userId", "42"), ("userName", "bob")]);
    let (columns, values) = validate_data(m, &["user_id"]).unwrap();
    assert_eq!(columns, vec!["user_id".to_string()]);
    assert_eq!(values, vec!["42".to_string()]);
}

#[test]
fn normalize_keys_converts_and_keeps_values() {
    let m = map_of(&[("userId", "1"), ("lastJoinChannelTime", "7")]);
    let n = convert_to_snake_case(m);
    assert_eq!(n.len(), 2);
    assert_eq!(n.get("user_id").unwrap(), "1");
    assert_eq!(n.get("last_join_channel_time").unwrap(), "7");
}

#[test]
fn normalize_keys_later_entry_wins_collision() {
    let m = map_of(&[("userId", "first"), ("user_id", "second")]);
    let n = convert_to_snake_case(m);
    assert_eq!(n.len(), 1);
    assert_eq!(n.get("user_id").unwrap(), "second");
}

#[test]
fn normalize_keys_idempotent_on_normalized_map() {
    let m = map_of(&[("user_id", "1"), ("name", "n"), ("level2", "3")]);
    let once = convert_to_snake_case(m);
    let twice = convert_to_snake_case(convert_to_snake_case(map_of(&[
        ("user_id", "1"),
        ("name", "n"),
        ("level2", "3"),
    ])));
    assert_eq!(once.len(), twice.len());
    for i in 0..once.len() {
        assert_eq!(once.key_at(i), twice.key_at(i));
        assert_eq!(once.value_at(i), twice.value_at(i));
    }
}

#[test]
fn denormalize_keys_converts_outward() {
    let m = map_of(&[("user_id", "5"), ("last_active_at", "9")]);
    let n = convert_to_camel_case(m);
    assert_eq!(n.len(), 2);
    assert_eq!(n.get("userId").unwrap(), "5");
    assert_eq!(n.get("lastActiveAt").unwrap(), "9");
}

#[test]
fn validate_columns_always_allowed_and_paired() {
    // A deterministic pseudo-random sweep over field maps and allow-lists.
    let keys = [
        "userId", "user_id", "name", "avatarUrl", "level", "extraOne", "extra_two", "xp",
        "created_at", "signature",
    ];
    let allowed_pool = [
        "user_id", "name", "avatar_url", "level", "xp", "created_at", "signature",
    ];
    let mut seed: u64 = 0x2545_f491_4f6c_dd1d;
    for _case in 0..50 {
        let mut m = FieldMap::new();
        let n_fields = (seed % 7) as usize;
        for _ in 0..n_fields {
            seed = seed.wrapping_mul(6364136223846793005).wrapping_add(1442695040888963407);
            let k = keys[(seed >> 33) as usize % keys.len()];
            let v = format!("v{}", seed % 1000);
            m.insert(k.to_string(), v);
        }
        seed = seed.wrapping_mul(6364136223846793005).wrapping_add(1442695040888963407);
        let n_allowed = 1 + (seed >> 17) as usize % allowed_pool.len();
        let allowed: Vec<&str> = allowed_pool[..n_allowed].to_vec();
        match validate_data(m, &allowed) {
            Ok((columns, values)) => {
                assert!(!columns.is_empty());
                assert_eq!(columns.len(), values.len());
                for c in &columns {
                    assert!(allowed.iter().any(|a| a == c));
                }
            }
            Err(e) => {
                assert_eq!(e.tag, "DATA_INVALID");
                assert_eq!(e.error_message, "No fields to update");
            }
        }
    }
}

#[test]
fn field_map_insert_get_contains() {
    let mut m = FieldMap::new();
    assert_eq!(m.len(), 0);
    assert!(!m.contains_key("a"));
    m.insert("a".to_string(), "1".to_string());
    m.insert("b".to_string(), "2".to_string());
    m.insert("a".to_string(), "3".to_string());
    assert_eq!(m.len(), 2);
    assert!(m.contains_key("a"));
    assert_eq!(m.get("a").unwrap(), "3");
    assert_eq!(m.get("b").unwrap(), "2");
    assert!(m.get("c").is_none());
}
