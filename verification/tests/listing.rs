//! The list operation and the configuration resolver.

use autoclearskies::config::{connection_string, resolve_config};
use autoclearskies::gateway::{insert_statement, measurement_from_row, select_statement};
use autoclearskies::handlers::{error_response, list_response};
use autoclearskies::measurement::Measurement;

#[test]
fn empty_listing_is_a_success_not_an_error() {
    let rows: Vec<Measurement> = Vec::new();
    let resp = list_response(&rows);
    assert_eq!(resp.status, 200);
    assert_eq!(resp.body, b"{\"measurements\":[]}".to_vec());
}

#[test]
fn single_row_listing_matches_the_stored_values() {
    // GET after storing {"lpg":10,"lng":20,"co":5}: exactly one entry,
    // first in the list, with the stored values.
    let rows = vec![measurement_from_row(10, 20, 5, b"2024-05-01 12:00:00".to_vec())];
    let resp = list_response(&rows);
    assert_eq!(resp.status, 200);
    assert_eq!(
        resp.body,
        b"{\"measurements\":[{\"lpg\":10,\"lng\":20,\"co\":5,\"dateTime\":\"2024-05-01 12:00:00\"}]}"
            .to_vec()
    );
}

#[test]
fn listing_keeps_the_newest_first_row_order() {
    // The database hands rows back newest first; the response body keeps
    // that order.
    let rows = vec![
        measurement_from_row(3, 3, 3, b"2024-03-01 00:00:00".to_vec()),
        measurement_from_row(2, 2, 2, b"2024-02-01 00:00:00".to_vec()),
        measurement_from_row(1, 1, 1, b"2024-01-01 00:00:00".to_vec()),
    ];
    let resp = list_response(&rows);
    let text = String::from_utf8(resp.body).unwrap();
    let first = text.find("2024-03-01").unwrap();
    let second = text.find("2024-02-01").unwrap();
    let third = text.find("2024-01-01").unwrap();
    assert!(first < second && second < third);
}

#[test]
fn data_access_failure_is_a_bare_server_error() {
    // Database unreachable: both operations answer 500 with an empty
    // body.
    let resp = error_response();
    assert_eq!(resp.status, 500);
    assert!(resp.body.is_empty());
}

#[test]
fn configuration_defaults_apply_when_unset() {
    let c = resolve_config(None, None, None, None);
    assert_eq!(c.host, "0.0.0.0");
    assert_eq!(c.port, "1337");
    assert_eq!(c.user, "postgres");
    assert_eq!(c.pass, "blab");
    assert_eq!(
        connection_string(&c),
        "host=0.0.0.0 user=postgres port=1337 password=blab dbname=autoclearskiesdb"
    );
}

#[test]
fn configuration_overrides_are_taken_verbatim() {
    let c = resolve_config(
        Some("db.example".to_string()),
        Some("5432".to_string()),
        Some("svc".to_string()),
        Some("SECRET-REDACTED".to_string()),
    );
    assert_eq!(
        connection_string(&c),
        "host=db.example user=svc port=5432 password=SECRET-REDACTED dbname=autoclearskiesdb"
    );
}

#[test]
fn sql_statements_name_the_measurements_table() {
    let ins = insert_statement();
    assert!(ins.starts_with("INSERT INTO misc_measurements"));
    assert!(ins.contains("RETURNING lng, lpg, co, datetime::TEXT"));
    let sel = select_statement();
    assert!(sel.starts_with("SELECT id, lpg, lng, co, datetime::TEXT"));
    assert!(sel.ends_with("ORDER BY datetime DESC"));
}
