use price_store::body::parse_price_body;
use price_store::ids::{parse_uuid, uuid_string};
use price_store::json::{i64_string, not_found_json, prices_json, record_json, status_ok_json};
use price_store::price::{Price, PriceError, Prices};
use price_store::service::{create_price, delete_price, get_all_prices, get_price};

#[test]
fn test_create_price() {
    let mut store = Prices::new();
    let r = create_price(&mut store, "{\"price\": 100}");
    assert_eq!(r.status, 200);
    let records = store.list_all();
    assert_eq!(records.len(), 1);
    assert_eq!(records[0].price, 100);
    assert_eq!(r.body, record_json(&records[0]));
    assert!(r.body.contains("\"price\":100"));
}

#[test]
fn test_get_price() {
    let mut store = Prices::new();
    create_price(&mut store, "{\"price\": 100}");
    let id = store.list_all()[0].id;
    let r = get_price(&store, &uuid_string(id));
    assert_eq!(r.status, 200);
    assert!(r.body.contains("\"price\":100"));
    assert_eq!(r.body, record_json(&Price { id, price: 100 }));
}

#[test]
fn test_delete_price() {
    let mut store = Prices::new();
    create_price(&mut store, "{\"price\": 100}");
    let id_text = uuid_string(store.list_all()[0].id);
    let r = delete_price(&mut store, &id_text);
    assert_eq!(r.status, 200);
    assert_eq!(r.body, "{\"status\":\"ok\"}");
    assert_eq!(store.len(), 0);
}

#[test]
fn test_get_all_prices() {
    let mut store = Prices::new();
    create_price(&mut store, "{\"price\": 100}");
    create_price(&mut store, "{\"price\": 200}");
    let r = get_all_prices(&store);
    assert_eq!(r.status, 200);
    let records = store.list_all();
    assert_eq!(records.len(), 2);
    // Order-independent: exactly one record of each price.
    let prices: Vec<i64> = records.iter().map(|p| p.price).collect();
    assert!(prices.contains(&100) && prices.contains(&200));
    assert_eq!(r.body, prices_json(&records));
}

// Create then get: the record comes back with the price it was created with.
#[test]
fn create_then_get_returns_same_record() {
    let mut store = Prices::new();
    let p = store.create(-42).unwrap();
    assert_eq!(p.price, -42);
    let got = store.get(p.id).unwrap();
    assert_eq!(got, p);
}

// Creating several records yields pairwise distinct identifiers.
#[test]
fn created_ids_are_distinct() {
    let mut store = Prices::new();
    let a = store.create(1).unwrap();
    let b = store.create(2).unwrap();
    let c = store.create(3).unwrap();
    assert_ne!(a.id, b.id);
    assert_ne!(a.id, c.id);
    assert_ne!(b.id, c.id);
    assert_eq!(store.len(), 3);
}

// An identifier never created yields nothing.
#[test]
fn get_never_created_is_not_found() {
    let store = Prices::new();
    assert_eq!(store.get(7), None);
    let r = get_price(&store, "00000000-0000-0000-0000-000000000007");
    assert_eq!(r.status, 404);
    assert_eq!(r.body, not_found_json());
}

// Delete then get on the same identifier yields nothing.
#[test]
fn delete_then_get_is_not_found() {
    let mut store = Prices::new();
    let p = store.create(5).unwrap();
    assert_eq!(store.delete(p.id), Ok(()));
    assert_eq!(store.get(p.id), None);
    let r = get_price(&store, &uuid_string(p.id));
    assert_eq!(r.status, 404);
    assert_eq!(r.body, not_found_json());
}

// A second delete of the same identifier reports it absent and changes
// nothing else.
#[test]
fn delete_twice_is_idempotent() {
    let mut store = Prices::new();
    let keep = store.create(11).unwrap();
    let gone = store.create(22).unwrap();
    assert_eq!(store.delete(gone.id), Ok(()));
    let before = store.list_all();
    assert_eq!(store.delete(gone.id), Err(PriceError::NotFound));
    assert_eq!(store.list_all(), before);
    assert_eq!(store.get(keep.id), Some(keep));
    let id_text = uuid_string(gone.id);
    let r = delete_price(&mut store, &id_text);
    assert_eq!(r.status, 404);
    assert_eq!(r.body, not_found_json());
}

// The list holds exactly the created records, order aside.
#[test]
fn list_all_holds_exactly_the_records() {
    let mut store = Prices::new();
    let a = store.create(100).unwrap();
    let b = store.create(200).unwrap();
    let records = store.list_all();
    assert_eq!(records.len(), 2);
    assert!(records.contains(&a));
    assert!(records.contains(&b));
}

// The whole scenario over the HTTP-shaped layer, with exact bodies.
#[test]
fn full_scenario_over_the_service() {
    let mut store = Prices::new();
    let r = create_price(&mut store, "{\"price\": 100}");
    assert_eq!(r.status, 200);
    let rec = store.list_all()[0];
    let id_text = uuid_string(rec.id);
    assert_eq!(id_text.len(), 36);
    assert_eq!(parse_uuid(&id_text), Some(rec.id));
    assert_eq!(
        r.body,
        format!("{{\"id\":\"{}\",\"price\":100}}", id_text)
    );

    let r = get_price(&store, &id_text);
    assert_eq!(r.status, 200);
    assert_eq!(
        r.body,
        format!("{{\"id\":\"{}\",\"price\":100}}", id_text)
    );

    let r = delete_price(&mut store, &id_text);
    assert_eq!(r.status, 200);
    assert_eq!(r.body, "{\"status\":\"ok\"}");

    let r = get_price(&store, &id_text);
    assert_eq!(r.status, 404);
    assert_eq!(r.body, "{\"error\":\"Price not found\"}");
}

#[test]
fn uuid_text_round_trip_and_shape() {
    let id: u128 = 0x0123456789abcdef0123456789abcdef;
    let text = uuid_string(id);
    assert_eq!(text, "01234567-89ab-cdef-0123-456789abcdef");
    assert_eq!(parse_uuid(&text), Some(id));
    assert_eq!(parse_uuid("01234567-89AB-CDEF-0123-456789ABCDEF"), Some(id));
    assert_eq!(uuid_string(0), "00000000-0000-0000-0000-000000000000");
    assert_eq!(
        uuid_string(u128::MAX),
        "ffffffff-ffff-ffff-ffff-ffffffffffff"
    );
    assert_eq!(parse_uuid("ffffffff-ffff-ffff-ffff-ffffffffffff"), Some(u128::MAX));
}

#[test]
fn uuid_text_rejects_bad_shapes() {
    assert_eq!(parse_uuid(""), None);
    assert_eq!(parse_uuid("0123456789abcdef0123456789abcdef"), None);
    assert_eq!(parse_uuid("01234567-89ab-cdef-0123-456789abcdeg"), None);
    assert_eq!(parse_uuid("01234567x89ab-cdef-0123-456789abcdef"), None);
    assert_eq!(parse_uuid("01234567-89ab-cdef-0123-456789abcde"), None);
    assert_eq!(parse_uuid("01234567-89ab-cdef-0123-456789abcdef0"), None);
}

#[test]
fn decimal_text_exact_values() {
    assert_eq!(i64_string(0), "0");
    assert_eq!(i64_string(100), "100");
    assert_eq!(i64_string(-1), "-1");
    assert_eq!(i64_string(i64::MAX), "9223372036854775807");
    assert_eq!(i64_string(i64::MIN), "-9223372036854775808");
}

#[test]
fn body_parse_accepts_integers() {
    assert_eq!(parse_price_body("{\"price\":100}"), Ok(100));
    assert_eq!(parse_price_body("  { \"price\" :\t-5 }\n"), Ok(-5));
    assert_eq!(parse_price_body("{\"price\":0}"), Ok(0));
    assert_eq!(parse_price_body("{\"price\":-0}"), Ok(0));
    assert_eq!(
        parse_price_body("{\"price\":9223372036854775807}"),
        Ok(i64::MAX)
    );
    assert_eq!(
        parse_price_body("{\"price\":-9223372036854775808}"),
        Ok(i64::MIN)
    );
}

#[test]
fn body_parse_rejects_malformed_input() {
    let bad = [
        "",
        "{}",
        "{\"price\":}",
        "{\"price\":1.5}",
        "{\"price\":\"100\"}",
        "{\"pricey\":100}",
        "{\"price\":007}",
        "{\"price\":100",
        "{\"price\":100}}",
        "{\"price\":9223372036854775808}",
        "{\"price\":-9223372036854775809}",
        "{\"price\":12345678901234567890123456789}",
    ];
    for b in bad {
        assert_eq!(parse_price_body(b), Err(PriceError::Validation));
    }
}

#[test]
fn create_rejects_malformed_body() {
    let mut store = Prices::new();
    let r = create_price(&mut store, "{\"amount\": 3}");
    assert_eq!(r.status, 400);
    assert_eq!(r.body, "{\"error\":\"Invalid price\"}");
    assert_eq!(store.len(), 0);
}

#[test]
fn insert_new_refuses_a_duplicate_identifier() {
    let mut store = Prices::new();
    assert!(store.insert_new(9, 1));
    assert!(!store.insert_new(9, 2));
    assert_eq!(store.len(), 1);
    assert_eq!(store.get(9), Some(Price { id: 9, price: 1 }));
}

#[test]
fn empty_store_lists_nothing() {
    let store = Prices::new();
    assert_eq!(store.len(), 0);
    assert_eq!(store.list_all(), Vec::new());
    let r = get_all_prices(&store);
    assert_eq!(r.status, 200);
    assert_eq!(r.body, "{\"prices\":[]}");
    let two = {
        let mut s = Prices::new();
        s.insert_new(0, 100);
        s.insert_new(1, 200);
        get_all_prices(&s).body
    };
    assert_eq!(
        two,
        "{\"prices\":[{\"id\":\"00000000-0000-0000-0000-000000000000\",\"price\":100},{\"id\":\"00000000-0000-0000-0000-000000000001\",\"price\":200}]}"
    );
    assert_eq!(status_ok_json(), "{\"status\":\"ok\"}");
}
