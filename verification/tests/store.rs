//! The store operation: body decoding, validation and responses.

use autoclearskies::gateway::measurement_from_row;
use autoclearskies::handlers::{handle_store_body, store_rows_response, StoreStep};
use autoclearskies::measurement::Measurement;

fn expect_insert(body: &[u8]) -> (i32, i32, i32) {
    match handle_store_body(&body.to_vec()) {
        StoreStep::Insert(m) => (m.lpg, m.lng, m.co),
        StoreStep::Reject(resp) => panic!("rejected with status {}", resp.status),
    }
}

fn expect_reject(body: &[u8]) -> u16 {
    match handle_store_body(&body.to_vec()) {
        StoreStep::Insert(_) => panic!("body was accepted"),
        StoreStep::Reject(resp) => {
            assert_eq!(resp.body.len(), 0);
            resp.status
        }
    }
}

#[test]
fn store_scenario_returns_stored_values_and_timestamp() {
    // POST {"lpg":10,"lng":20,"co":5} -> 200 with the stored values and
    // the server-assigned timestamp.
    let (lpg, lng, co) = expect_insert(b"{\"lpg\":10,\"lng\":20,\"co\":5}");
    assert_eq!((lpg, lng, co), (10, 20, 5));
    let row = measurement_from_row(lpg, lng, co, b"2024-05-01 12:00:00".to_vec());
    let resp = store_rows_response(&vec![row]);
    assert_eq!(resp.status, 200);
    assert_eq!(
        resp.body,
        b"{\"lpg\":10,\"lng\":20,\"co\":5,\"dateTime\":\"2024-05-01 12:00:00\"}".to_vec()
    );
}

#[test]
fn client_date_time_is_ignored() {
    // A dateTime in the request body changes nothing about what is
    // inserted, and the returned timestamp is the server's.
    let (lpg, lng, co) = expect_insert(b"{\"lpg\":1,\"lng\":2,\"co\":3,\"dateTime\":\"1999-01-01 00:00:00\"}");
    assert_eq!((lpg, lng, co), (1, 2, 3));
    let row = measurement_from_row(lpg, lng, co, b"2024-05-01 12:00:00".to_vec());
    let resp = store_rows_response(&vec![row]);
    assert_eq!(resp.status, 200);
    let text = String::from_utf8(resp.body).unwrap();
    assert!(text.contains("\"dateTime\":\"2024-05-01 12:00:00\""));
    assert!(!text.contains("1999"));
}

#[test]
fn oversized_body_is_rejected_before_decoding() {
    let mut body = vec![b' '; 16385];
    body[0] = b'{';
    assert_eq!(expect_reject(&body), 413);
}

#[test]
fn body_at_the_limit_is_decoded() {
    let mut body = b"{\"lpg\":1,\"lng\":2,\"co\":3}".to_vec();
    while body.len() < 16384 {
        body.push(b' ');
    }
    assert_eq!(expect_insert(&body), (1, 2, 3));
}

#[test]
fn missing_reading_is_rejected() {
    assert_eq!(expect_reject(b"{\"lpg\":1,\"lng\":2}"), 400);
    assert_eq!(expect_reject(b"{}"), 400);
    assert_eq!(expect_reject(b"{\"lng\":2,\"co\":3}"), 400);
}

#[test]
fn non_integer_reading_is_rejected() {
    assert_eq!(expect_reject(b"{\"lpg\":\"1\",\"lng\":2,\"co\":3}"), 400);
    assert_eq!(expect_reject(b"{\"lpg\":1.5,\"lng\":2,\"co\":3}"), 400);
    assert_eq!(expect_reject(b"{\"lpg\":null,\"lng\":2,\"co\":3}"), 400);
    assert_eq!(expect_reject(b"{\"lpg\":true,\"lng\":2,\"co\":3}"), 400);
}

#[test]
fn duplicate_reading_is_rejected() {
    assert_eq!(expect_reject(b"{\"lpg\":1,\"lpg\":2,\"lng\":3,\"co\":4}"), 400);
}

#[test]
fn malformed_bodies_are_rejected() {
    assert_eq!(expect_reject(b""), 400);
    assert_eq!(expect_reject(b"null"), 400);
    assert_eq!(expect_reject(b"[1,2,3]"), 400);
    assert_eq!(expect_reject(b"{\"lpg\":1,\"lng\":2,\"co\":3"), 400);
    assert_eq!(expect_reject(b"{\"lpg\":1,\"lng\":2,\"co\":3}x"), 400);
    assert_eq!(expect_reject(b"{\"lpg\":1 \"lng\":2,\"co\":3}"), 400);
    assert_eq!(expect_reject(b"{\"lpg"), 400);
}

#[test]
fn integer_bounds_are_respected() {
    assert_eq!(
        expect_insert(b"{\"lpg\":2147483647,\"lng\":-2147483648,\"co\":0}"),
        (2147483647, -2147483648, 0)
    );
    assert_eq!(expect_reject(b"{\"lpg\":2147483648,\"lng\":0,\"co\":0}"), 400);
    assert_eq!(expect_reject(b"{\"lpg\":0,\"lng\":-2147483649,\"co\":0}"), 400);
    assert_eq!(expect_reject(b"{\"lpg\":01,\"lng\":0,\"co\":0}"), 400);
    assert_eq!(expect_reject(b"{\"lpg\":99999999999999999999,\"lng\":0,\"co\":0}"), 400);
}

#[test]
fn whitespace_and_unknown_members_are_tolerated() {
    assert_eq!(
        expect_insert(b" \t\r\n{ \"co\" : 3 , \"lng\" : 2 , \"lpg\" : 1 } \n"),
        (1, 2, 3)
    );
    assert_eq!(
        expect_insert(b"{\"note\":\"a \\\"quoted\\\" \\u00e9 value\",\"lpg\":1,\"lng\":2,\"co\":3,\"ok\":true,\"x\":null,\"y\":false,\"z\":-7}"),
        (1, 2, 3)
    );
}

#[test]
fn bad_escape_in_string_is_rejected() {
    assert_eq!(expect_reject(b"{\"lpg\":1,\"lng\":2,\"co\":3,\"s\":\"\\q\"}"), 400);
    assert_eq!(expect_reject(b"{\"lpg\":1,\"lng\":2,\"co\":3,\"s\":\"\\u12g4\"}"), 400);
}

#[test]
fn insert_without_returned_row_is_a_server_error() {
    let rows: Vec<Measurement> = Vec::new();
    let resp = store_rows_response(&rows);
    assert_eq!(resp.status, 500);
    assert!(resp.body.is_empty());
}

#[test]
fn negative_readings_render_with_sign() {
    let row = measurement_from_row(-5, -10, -2147483648, b"t".to_vec());
    let resp = store_rows_response(&vec![row]);
    assert_eq!(resp.status, 200);
    assert_eq!(
        resp.body,
        b"{\"lpg\":-5,\"lng\":-10,\"co\":-2147483648,\"dateTime\":\"t\"}".to_vec()
    );
}

#[test]
fn stored_response_body_is_itself_an_acceptable_store_body() {
    // The 200 body of a store echoes the readings as a JSON object; fed
    // back as a request, it decodes to the same readings (its dateTime
    // member is ignored).
    let row = measurement_from_row(7, -8, 9, b"2024-05-01 12:00:00".to_vec());
    let resp = store_rows_response(&vec![row]);
    assert_eq!(expect_insert(&resp.body), (7, -8, 9));
}

#[test]
fn timestamp_text_is_escaped_in_the_response() {
    let row = measurement_from_row(0, 0, 0, b"a\"b\\c\x01d".to_vec());
    let resp = store_rows_response(&vec![row]);
    assert_eq!(
        resp.body,
        b"{\"lpg\":0,\"lng\":0,\"co\":0,\"dateTime\":\"a\\\"b\\\\c\\u0001d\"}".to_vec()
    );
}
