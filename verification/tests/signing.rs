use bit_rest_client::params::ParamValue;
use bit_rest_client::sign::get_signature;
use hmac::{Hmac, Mac};
use sha2::Sha256;

fn params_with_timestamp(ts: i64) -> ParamValue {
    ParamValue::new_object().obj_set("timestamp".to_string(), ParamValue::Int(ts))
}

#[test]
fn known_vector_matches_precomputed_signature() {
    let params = params_with_timestamp(1700000000000);
    let sig = get_signature("test_secret", "/um/v1/account_mode", &params);
    assert_eq!(
        sig,
        "c29cc286a03b74bd3553b758ba232e49d9a0b98b8490343b13c487c7cb229b3f"
    );
}

#[test]
fn signature_is_deterministic_across_calls() {
    let params = params_with_timestamp(1700000000000);
    let a = get_signature("test_secret", "/linear/v1/positions", &params);
    let b = get_signature("test_secret", "/linear/v1/positions", &params);
    assert_eq!(a, b);
}

#[test]
fn signature_is_independent_of_key_insertion_order() {
    let a = ParamValue::new_object()
        .obj_set("pair".to_string(), ParamValue::Str("BTC-USD".to_string()))
        .obj_set("timestamp".to_string(), ParamValue::Int(1700000000000));
    let b = ParamValue::new_object()
        .obj_set("timestamp".to_string(), ParamValue::Int(1700000000000))
        .obj_set("pair".to_string(), ParamValue::Str("BTC-USD".to_string()));
    assert_eq!(
        get_signature("test_secret", "/um/v1/accounts", &a),
        get_signature("test_secret", "/um/v1/accounts", &b)
    );
}

#[test]
fn signature_is_lowercase_hex_of_sixty_four_digits() {
    let params = params_with_timestamp(42);
    let sig = get_signature("another_secret", "/spot/v1/orders", &params);
    assert_eq!(sig.len(), 64);
    assert!(sig
        .chars()
        .all(|c| c.is_ascii_digit() || ('a'..='f').contains(&c)));
}

#[test]
fn signature_agrees_with_direct_hmac_computation() {
    let params = params_with_timestamp(1699999999999);
    let sig = get_signature("s3cret", "/um/v1/transactions", &params);
    let mut mac = Hmac::<Sha256>::new_from_slice(b"s3cret").unwrap();
    mac.update(b"/um/v1/transactions&timestamp=1699999999999");
    let expected = hex::encode(mac.finalize().into_bytes());
    assert_eq!(sig, expected);
}

#[test]
fn empty_parameters_sign_path_and_ampersand_alone() {
    let params = ParamValue::new_object();
    let sig = get_signature("test_secret", "/um/v1/account_mode", &params);
    let mut mac = Hmac::<Sha256>::new_from_slice(b"test_secret").unwrap();
    mac.update(b"/um/v1/account_mode&");
    let expected = hex::encode(mac.finalize().into_bytes());
    assert_eq!(sig, expected);
}

#[test]
fn nested_mappings_built_in_different_orders_sign_identically() {
    let inner_a = ParamValue::new_object()
        .obj_set("lo".to_string(), ParamValue::Int(1))
        .obj_set("hi".to_string(), ParamValue::Int(9));
    let inner_b = ParamValue::new_object()
        .obj_set("hi".to_string(), ParamValue::Int(9))
        .obj_set("lo".to_string(), ParamValue::Int(1));
    let a = ParamValue::new_object()
        .obj_set("range".to_string(), inner_a)
        .obj_set("timestamp".to_string(), ParamValue::Int(5));
    let b = ParamValue::new_object()
        .obj_set("timestamp".to_string(), ParamValue::Int(5))
        .obj_set("range".to_string(), inner_b);
    assert_eq!(
        get_signature("k", "/linear/v1/orders", &a),
        get_signature("k", "/linear/v1/orders", &b)
    );
}
