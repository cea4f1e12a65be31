use bit_rest_client::params::ParamValue;
use bit_rest_client::request::{
    prepare_private_request, Credentials, HttpMethod, PreparedRequest, RequestError,
    RequestPayload, ACCESS_KEY_HEADER, LANGUAGE_TYPE_HEADER, LANGUAGE_TYPE_VALUE,
};
use bit_rest_client::routes::{route, Operation};
use bit_rest_client::sign::get_signature;

fn creds() -> Credentials {
    Credentials::new("ak-123", "test_secret", "https://api.example.test")
}

fn is_hex(s: &str) -> bool {
    s.chars()
        .all(|c| c.is_ascii_digit() || ('a'..='f').contains(&c))
}

#[test]
fn get_request_places_auth_in_query_string() {
    let r = prepare_private_request(
        &creds(),
        "/um/v1/account_mode",
        HttpMethod::Get,
        ParamValue::new_object(),
        1700000000000,
    )
    .unwrap();
    assert_eq!(r.url, "https://api.example.test/um/v1/account_mode");
    assert_eq!(r.method, HttpMethod::Get);
    assert_eq!(r.access_key, "ak-123");
    match r.payload {
        RequestPayload::Query(q) => {
            let ts = q.iter().find(|(k, _)| k == "timestamp").unwrap();
            assert_eq!(ts.1, "1700000000000");
            assert_eq!(ts.1.len(), 13);
            let sig = q.iter().find(|(k, _)| k == "signature").unwrap();
            assert_eq!(
                sig.1,
                "c29cc286a03b74bd3553b758ba232e49d9a0b98b8490343b13c487c7cb229b3f"
            );
            assert_eq!(sig.1.len(), 64);
            assert!(is_hex(&sig.1));
            assert_eq!(q.len(), 2);
        }
        RequestPayload::JsonBody(_) => panic!("GET must carry a query string, not a body"),
    }
}

#[test]
fn post_request_body_holds_exactly_caller_fields_plus_auth() {
    let params =
        ParamValue::new_object().obj_set("qty".to_string(), ParamValue::Int(1));
    let r = prepare_private_request(
        &creds(),
        "/spot/v1/orders",
        HttpMethod::Post,
        params,
        1700000000000,
    )
    .unwrap();
    match r.payload {
        RequestPayload::JsonBody(body) => {
            assert_eq!(
                body,
                "{\"qty\":1,\"signature\":\"86ac4866d24a0f641dd5b0fc431386a99aeace21a7b6239f44be95b774a582a8\",\"timestamp\":1700000000000}"
            );
            let parsed: serde_json::Value = serde_json::from_str(&body).unwrap();
            let map = parsed.as_object().unwrap();
            assert_eq!(map.len(), 3);
            assert!(map.contains_key("qty"));
            assert!(map.contains_key("timestamp"));
            assert!(map.contains_key("signature"));
        }
        RequestPayload::Query(_) => panic!("POST must carry a JSON body, not a query string"),
    }
}

#[test]
fn post_signature_ignores_the_http_method() {
    let params =
        ParamValue::new_object().obj_set("qty".to_string(), ParamValue::Int(1))
            .obj_set("timestamp".to_string(), ParamValue::Int(1700000000000));
    let sig = get_signature("test_secret", "/spot/v1/orders", &params);
    assert_eq!(
        sig,
        "86ac4866d24a0f641dd5b0fc431386a99aeace21a7b6239f44be95b774a582a8"
    );
}

#[test]
fn non_mapping_parameters_are_rejected() {
    let r = prepare_private_request(
        &creds(),
        "/spot/v1/orders",
        HttpMethod::Post,
        ParamValue::Int(7),
        1700000000000,
    );
    match r {
        Err(e) => assert_eq!(e, RequestError::NotAnObject),
        Ok(_) => panic!("non-mapping parameters must be rejected"),
    }
}

#[test]
fn nested_values_under_get_are_rejected() {
    let params = ParamValue::new_object().obj_set(
        "filter".to_string(),
        ParamValue::Arr(vec![ParamValue::Int(1)]),
    );
    let r = prepare_private_request(
        &creds(),
        "/um/v1/accounts",
        HttpMethod::Get,
        params,
        1700000000000,
    );
    match r {
        Err(e) => assert_eq!(e, RequestError::NonScalarQueryValue),
        Ok(_) => panic!("nested values under GET must be rejected"),
    }
}

#[test]
fn nested_values_under_post_travel_in_the_body() {
    let inner = ParamValue::new_object().obj_set("price".to_string(), ParamValue::Int(5));
    let params = ParamValue::new_object()
        .obj_set("order".to_string(), inner);
    let r = prepare_private_request(
        &creds(),
        "/spot/v1/batchorders",
        HttpMethod::Post,
        params,
        1,
    );
    assert!(r.is_ok());
}

#[test]
fn header_names_are_fixed() {
    assert_eq!(ACCESS_KEY_HEADER, "x-bit-access-key");
    assert_eq!(LANGUAGE_TYPE_HEADER, "language-type");
    assert_eq!(LANGUAGE_TYPE_VALUE, "1");
}

#[test]
fn routes_give_each_operation_its_path_and_method() {
    assert_eq!(
        route(Operation::UmAccountMode),
        ("/um/v1/account_mode", HttpMethod::Get)
    );
    assert_eq!(route(Operation::WsAuth), ("/v1/ws/auth", HttpMethod::Get));
    assert_eq!(
        route(Operation::SpotNewOrder),
        ("/spot/v1/orders", HttpMethod::Post)
    );
    assert_eq!(
        route(Operation::LinearCancelOrder),
        ("/linear/v1/cancel_orders", HttpMethod::Post)
    );
    assert_eq!(
        route(Operation::SpotEnableCod),
        ("/spot/v1/account_configs/cod", HttpMethod::Post)
    );
}

#[test]
fn um_account_mode_scenario_round_trip() {
    let (path, method) = route(Operation::UmAccountMode);
    assert_eq!(method, HttpMethod::Get);
    let r: PreparedRequest = prepare_private_request(
        &creds(),
        path,
        method,
        ParamValue::new_object(),
        1700000000000,
    )
    .unwrap();
    assert_eq!(r.url, "https://api.example.test/um/v1/account_mode");
    match r.payload {
        RequestPayload::Query(q) => {
            let ts = q.iter().find(|(k, _)| k == "timestamp").unwrap();
            assert_eq!(ts.1.len(), 13);
            assert!(ts.1.chars().all(|c| c.is_ascii_digit()));
            let sig = q.iter().find(|(k, _)| k == "signature").unwrap();
            assert_eq!(sig.1.len(), 64);
            assert!(is_hex(&sig.1));
        }
        RequestPayload::JsonBody(_) => panic!("expected query parameters"),
    }
    let body = "{\"data\":{\"mode\":\"single\"}}".to_string();
    match bit_rest_client::response::normalize_response(body.clone()) {
        bit_rest_client::response::ApiResponse::Json(v) => {
            assert_eq!(v, serde_json::from_str::<serde_json::Value>(&body).unwrap());
            assert_eq!(v["data"]["mode"], "single");
        }
        bit_rest_client::response::ApiResponse::Text(_) => {
            panic!("a JSON body must come back parsed")
        }
    }
}

#[test]
fn json_body_escapes_strings() {
    let params = ParamValue::new_object().obj_set(
        "label".to_string(),
        ParamValue::Str("a\"b\\c\nd".to_string()),
    );
    let r = prepare_private_request(&creds(), "/spot/v1/orders", HttpMethod::Post, params, 2)
        .unwrap();
    match r.payload {
        RequestPayload::JsonBody(body) => {
            let parsed: serde_json::Value = serde_json::from_str(&body).unwrap();
            assert_eq!(parsed["label"], "a\"b\\c\nd");
        }
        RequestPayload::Query(_) => panic!("expected a body"),
    }
}

#[test]
fn wall_clock_nonce_has_thirteen_digits_today() {
    let r = bit_rest_client::request::prepare_private_request_now(
        &creds(),
        "/um/v1/account_mode",
        HttpMethod::Get,
        ParamValue::new_object(),
    )
    .unwrap();
    match r.payload {
        RequestPayload::Query(q) => {
            let ts = q.iter().find(|(k, _)| k == "timestamp").unwrap();
            assert_eq!(ts.1.len(), 13);
            assert!(ts.1.chars().all(|c| c.is_ascii_digit()));
        }
        RequestPayload::JsonBody(_) => panic!("expected query parameters"),
    }
}

#[test]
fn wall_clock_post_with_mapping_parameters_succeeds() {
    let params = ParamValue::new_object().obj_set("qty".to_string(), ParamValue::Int(3));
    let r = bit_rest_client::request::prepare_private_request_now(
        &creds(),
        "/spot/v1/orders",
        HttpMethod::Post,
        params,
    );
    assert!(r.is_ok());
}
