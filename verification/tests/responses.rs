use bit_rest_client::response::{normalize_response, ApiResponse};

#[test]
fn json_body_is_parsed() {
    match normalize_response("{\"code\":0,\"data\":[1,2]}".to_string()) {
        ApiResponse::Json(v) => {
            assert_eq!(v["code"], 0);
            assert_eq!(v["data"][1], 2);
        }
        ApiResponse::Text(_) => panic!("valid JSON must come back parsed"),
    }
}

#[test]
fn non_json_body_comes_back_as_raw_text() {
    match normalize_response("rate limited".to_string()) {
        ApiResponse::Text(t) => assert_eq!(t, "rate limited"),
        ApiResponse::Json(_) => panic!("plain text is not JSON"),
    }
}

#[test]
fn venue_rejections_pass_through_as_json() {
    match normalize_response("{\"code\":18100105,\"message\":\"bad signature\"}".to_string()) {
        ApiResponse::Json(v) => assert_eq!(v["message"], "bad signature"),
        ApiResponse::Text(_) => panic!("a JSON rejection must come back parsed"),
    }
}

#[test]
fn empty_body_is_not_json() {
    match normalize_response(String::new()) {
        ApiResponse::Text(t) => assert_eq!(t, ""),
        ApiResponse::Json(_) => panic!("an empty body is not JSON"),
    }
}
