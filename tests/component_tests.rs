use beetroot::naming::extract_sticker_name;
use beetroot::components::{create_pagination_buttons, custom_id_matches, extract_custom_id_value, parse_u8, ComponentResponseBuilder};
use beetroot::nightscout::AuthMethod;

#[test]
fn custom_ids_match_by_prefix() {
    assert!(custom_id_matches("remove_sticker_123", "remove_sticker_"));
    assert!(!custom_id_matches("add_sticker", "remove_sticker_"));
    assert_eq!(extract_custom_id_value("remove_sticker_123", "remove_sticker_"), Some("123"));
    assert_eq!(extract_custom_id_value("other", "remove_sticker_"), None);
}

#[test]
fn numbers_parse_like_std() {
    assert_eq!(parse_u8("+5"), Some(5));
    assert_eq!(parse_u8("255"), Some(255));
    assert_eq!(parse_u8("256"), None);
    assert_eq!(parse_u8(""), None);
    assert_eq!(parse_u8("+"), None);
    assert_eq!(parse_u8("-1"), None);
    assert_eq!(parse_u8("007"), Some(7));
}

#[test]
fn pagination_buttons_point_to_neighbours() {
    let b = create_pagination_buttons("p_", 2, 3).unwrap();
    assert_eq!(b.len(), 2);
    assert_eq!(b[0].custom_id, "p_1");
    assert_eq!(b[0].label, "◀ Previous");
    assert_eq!(b[1].custom_id, "p_3");
    assert_eq!(b[1].label, "Next ▶");
    let last = create_pagination_buttons("p_", 3, 3).unwrap();
    assert_eq!(last.len(), 1);
    assert_eq!(last[0].custom_id, "p_2");
}

#[test]
fn auth_method_follows_token_shape() {
    let bearer = AuthMethod::from_token("eyJhbGciOi");
    assert!(matches!(bearer, AuthMethod::Bearer(ref t) if t == "eyJhbGciOi"));
    assert_eq!(bearer.description(), "Bearer token");
    let secret = AuthMethod::from_token("SECRET-REDACTED");
    assert!(matches!(secret, AuthMethod::ApiSecret(_)));
    assert_eq!(secret.description(), "API-SECRET header");
}

#[test]
fn response_texts_carry_their_tag() {
    assert_eq!(ComponentResponseBuilder::error_content("nope"), "[ERROR] nope");
    assert_eq!(ComponentResponseBuilder::success_content("done"), "[OK] done");
}

#[test]
fn sticker_name_takes_first_good_word() {
    assert_eq!(extract_sticker_name("hi :) Cool_Cat!"), Some("cool_cat".to_string()));
    assert_eq!(extract_sticker_name("Add this"), Some("add".to_string()));
    assert_eq!(extract_sticker_name("a.b"), Some("a.b".to_string()));
    assert_eq!(extract_sticker_name("ab"), Some("ab".to_string()));
    assert_eq!(extract_sticker_name("Éte"), Some("éte".to_string()));
    assert_eq!(extract_sticker_name("!! ??"), None);
    assert_eq!(extract_sticker_name(""), None);
}

#[test]
fn words_split_on_unicode_white_space() {
    assert_eq!(extract_sticker_name("ab\u{3000}cat_1"), Some("cat_1".to_string()));
    assert_eq!(extract_sticker_name("ab\u{200B}cd"), Some("ab\u{200b}cd".to_string()));
}
