use chat_data::database_utils::{camel_to_snake, snake_to_camel};

#[test]
fn camel_to_snake_user_id() {
    assert_eq!(camel_to_snake("userId"), "user_id");
}

#[test]
fn camel_to_snake_leading_upper_never_prefixed() {
    let out = camel_to_snake("UserID");
    assert!(out.starts_with("user_"));
    assert!(!out.starts_with("_"));
    assert_eq!(out, "user_i_d");
}

#[test]
fn snake_to_camel_user_id() {
    assert_eq!(snake_to_camel("user_id"), "userId");
}

#[test]
fn snake_to_camel_long_identifier() {
    assert_eq!(snake_to_camel("last_join_channel_time"), "lastJoinChannelTime");
}

#[test]
fn round_trip_from_canonical_snake() {
    for s in ["user_id", "a", "last_join_channel_time", "level2", "a_b_c"] {
        assert_eq!(camel_to_snake(&snake_to_camel(s)), s);
    }
}

#[test]
fn round_trip_from_canonical_camel() {
    for s in ["userId", "a", "lastJoinChannelTime", "level2", "aBC"] {
        assert_eq!(snake_to_camel(&camel_to_snake(s)), s);
    }
}

#[test]
fn camel_to_snake_lowercases_everything() {
    assert_eq!(camel_to_snake("XY"), "x_y");
    assert_eq!(camel_to_snake("already_snake"), "already_snake");
    assert_eq!(camel_to_snake("with1Digit"), "with1_digit");
}

#[test]
fn snake_to_camel_keeps_pass_through_case() {
    // The outward direction does not normalize case: characters that are
    // not preceded by an underscore keep whatever case they had.
    assert_eq!(snake_to_camel("aXb"), "aXb");
    assert_eq!(snake_to_camel("a_Bc"), "aBc");
}

#[test]
fn conversion_is_total_on_edge_inputs() {
    assert_eq!(camel_to_snake(""), "");
    assert_eq!(snake_to_camel(""), "");
    assert_eq!(snake_to_camel("_a"), "A");
    assert_eq!(snake_to_camel("a__b"), "aB");
    assert_eq!(camel_to_snake("a b"), "a b");
}
