use price_tracker::decimal::Decimal;
use price_tracker::error::{IdentifierDefect, StoreError};
use price_tracker::search::{
    candidate, candidates, data_url, extract, extract_document, is_absent_price, normalize,
    choose_candidate, product_url, request_url, requested_attribute, select, VariantCandidate,
};
use price_tracker::store::eva::Eva;
use price_tracker::store::{price_label, Strategy};

fn child(attribute: &str, price: &str, in_stock: bool, name: &str) -> String {
    format!(
        "{{\"stock\":{{\"is_in_stock\":{}}},\"name\":\"{}\",\"externalAttr100050\":{},\"price\":{}}}",
        in_stock, name, attribute, price
    )
}

fn response(children: &[String]) -> String {
    format!(
        "{{\"took\":3,\"hits\":{{\"total\":1,\"hits\":[{{\"_id\":\"20285\",\"_source\":{{\"configurable_children\":[{}]}}}}]}}}}",
        children.join(",")
    )
}

fn made(attribute_value: i64, name: &str, price: &str, in_stock: bool) -> VariantCandidate {
    VariantCandidate {
        attribute_value,
        name: name.to_string(),
        price: Decimal::parse(price).unwrap(),
        in_stock,
    }
}

#[test]
fn get_price() -> Result<(), StoreError> {
    let a = Eva::new();
    let body = response(&[
        child("73277", "175.5", true, "Garnier Botanic Therapy Shampoo"),
        child("73278", "189.0", true, "Garnier Fructis Shampoo"),
    ]);
    let item = a.get("pr20285-73278", &body)?;
    assert!(item.name.find("Garnier Fructis").is_some());
    assert!(item.price > 0);
    Ok(())
}

#[test]
fn search_response_yields_the_whole_record() {
    let body = response(&[child("73278", "189.0", true, "Garnier Fructis Shampoo")]);
    let item = Eva::new().get("pr20285-73278", &body).unwrap();
    assert_eq!(item.store, "eva-ua");
    assert_eq!(item.id, "pr20285-73278");
    assert_eq!(item.name, "Garnier Fructis Shampoo");
    assert_eq!(item.price, 18900);
    assert_eq!(item.price_str, "\u{20b4}189");
    assert_eq!(item.url, "https://eva.ua/ua/pr20285/#/73278/");
}

#[test]
fn in_stock_child_gives_price_and_currency_label() {
    let body = response(&[child("5", "12.5", true, "X")]);
    let item = extract("eva-ua", "pr1-5", &body).unwrap();
    assert_eq!(item.name, "X");
    assert_eq!(item.price, 1250);
    assert_eq!(item.price_str, "\u{20b4}12.5");
}

#[test]
fn out_of_stock_child_keeps_its_price() {
    let body = response(&[child("5", "12.5", false, "X")]);
    let item = extract("eva-ua", "pr1-5", &body).unwrap();
    assert_eq!(item.price, 1250);
    assert_eq!(item.price_str, "Out of stock");
}

#[test]
fn no_matching_child_is_not_found() {
    let body = response(&[child("5", "12.5", true, "X"), child("6", "1", true, "Y")]);
    assert_eq!(extract("eva-ua", "pr1-7", &body).unwrap_err(), StoreError::ProductVariantNotFound);
    let none = response(&[]);
    assert_eq!(extract("eva-ua", "pr1-7", &none).unwrap_err(), StoreError::ProductVariantNotFound);
}

#[test]
fn matched_child_without_name_or_price_is_not_found() {
    let nameless = response(&[child("5", "12.5", true, "")]);
    assert_eq!(extract("s", "pr1-5", &nameless).unwrap_err(), StoreError::ProductVariantNotFound);
    let free = response(&[child("5", "0.0", true, "X")]);
    assert_eq!(extract("s", "pr1-5", &free).unwrap_err(), StoreError::ProductVariantNotFound);
    let zero = response(&[child("5", "0", true, "X")]);
    assert_eq!(extract("s", "pr1-5", &zero).unwrap_err(), StoreError::ProductVariantNotFound);
    let negative = response(&[child("5", "-3.5", true, "X")]);
    assert_eq!(extract("s", "pr1-5", &negative).unwrap_err(), StoreError::ProductVariantNotFound);
    let huge = response(&[child("5", "1e30", true, "X")]);
    assert_eq!(extract("s", "pr1-5", &huge).unwrap_err(), StoreError::ProductVariantNotFound);
}

#[test]
fn unusable_child_that_is_not_matched_does_no_harm() {
    let body = response(&[child("4", "0", true, ""), child("5", "2", true, "X")]);
    assert_eq!(extract("s", "pr1-5", &body).unwrap().price, 200);
}

#[test]
fn first_matching_child_is_taken() {
    let body = response(&[
        child("5", "1.5", true, "first"),
        child("5", "2.5", true, "second"),
    ]);
    let item = extract("s", "pr1-5", &body).unwrap();
    assert_eq!(item.name, "first");
    assert_eq!(item.price, 150);
    let blocked = response(&[child("5", "0", true, "first"), child("5", "2.5", true, "second")]);
    assert_eq!(extract("s", "pr1-5", &blocked).unwrap_err(), StoreError::ProductVariantNotFound);
}

#[test]
fn malformed_identifier_fails_before_the_body_is_read() {
    let body = response(&[child("5", "12.5", true, "X")]);
    assert_eq!(
        extract("s", "pr15", &body).unwrap_err(),
        StoreError::MalformedIdentifier(IdentifierDefect::MissingSeparator)
    );
    assert_eq!(
        extract("s", "1-5", &body).unwrap_err(),
        StoreError::MalformedIdentifier(IdentifierDefect::MissingProductPrefix)
    );
    assert_eq!(
        extract("s", "1-5", "not json").unwrap_err(),
        StoreError::MalformedIdentifier(IdentifierDefect::MissingProductPrefix)
    );
    assert_eq!(
        request_url("20285-73278").unwrap_err(),
        StoreError::MalformedIdentifier(IdentifierDefect::MissingProductPrefix)
    );
    assert_eq!(
        request_url("pr20285").unwrap_err(),
        StoreError::MalformedIdentifier(IdentifierDefect::MissingSeparator)
    );
}

#[test]
fn body_that_is_not_json_fails_on_the_json() {
    for body in ["", "not json", "{\"hits\":", "{\"hits\":{}} trailing", "{'hits':1}"] {
        assert_eq!(extract("s", "pr1-5", body).unwrap_err(), StoreError::JsonParse, "{:?}", body);
    }
}

#[test]
fn response_of_another_shape_is_a_mismatch() {
    let bodies = [
        "null".to_string(),
        "{}".to_string(),
        "[]".to_string(),
        "{\"hits\":{\"hits\":[]}}".to_string(),
        "{\"hits\":{\"hits\":{}}}".to_string(),
        "{\"hits\":{\"hits\":[{}]}}".to_string(),
        "{\"hits\":{\"hits\":[{\"_source\":{}}]}}".to_string(),
        "{\"hits\":{\"hits\":[{\"_source\":{\"configurable_children\":null}}]}}".to_string(),
        "{\"hits\":{\"hits\":[{\"_source\":{\"configurable_children\":{}}}]}}".to_string(),
        response(&["{}".to_string()]),
        response(&["5".to_string()]),
        response(&["[{\"is_in_stock\":true},\"X\",5,1.5]".to_string()]),
        response(&[child("5", "1.5", true, "X"), "{\"name\":\"Y\"}".to_string()]),
        response(&[child("5.0", "1.5", true, "X")]),
        response(&[child("5.5", "1.5", true, "X")]),
        response(&[child("\"5\"", "1.5", true, "X")]),
        response(&[child("9223372036854775808", "1.5", true, "X")]),
        response(&[child("5", "\"1.5\"", true, "X")]),
        response(&[child("5", "null", true, "X")]),
        response(&["{\"stock\":{\"is_in_stock\":1},\"name\":\"X\",\"externalAttr100050\":5,\"price\":1}".to_string()]),
        response(&["{\"stock\":true,\"name\":\"X\",\"externalAttr100050\":5,\"price\":1}".to_string()]),
        response(&["{\"stock\":{\"is_in_stock\":true},\"name\":7,\"externalAttr100050\":5,\"price\":1}".to_string()]),
    ];
    for body in bodies.iter() {
        assert_eq!(extract("s", "pr1-5", body).unwrap_err(), StoreError::SchemaMismatch, "{}", body);
    }
}

#[test]
fn only_the_first_hit_is_read() {
    let body = format!(
        "{{\"hits\":{{\"hits\":[{{\"_source\":{{\"configurable_children\":[{}]}}}},{{\"_source\":{{\"configurable_children\":[{}]}}}}]}}}}",
        child("5", "1.5", true, "first hit"),
        child("6", "2.5", true, "second hit")
    );
    assert_eq!(extract("s", "pr1-5", &body).unwrap().name, "first hit");
    assert_eq!(extract("s", "pr1-6", &body).unwrap_err(), StoreError::ProductVariantNotFound);
}

#[test]
fn further_fields_are_passed_over() {
    let body = response(&[
        "{\"sku\":\"a\",\"stock\":{\"qty\":4,\"is_in_stock\":true},\"name\":\"X\",\"externalAttr100050\":5,\"price\":3,\"tags\":[1,2]}".to_string(),
    ]);
    let item = extract("s", "pr1-5", &body).unwrap();
    assert_eq!(item.price, 300);
    assert_eq!(item.price_str, "\u{20b4}3");
}

#[test]
fn attribute_that_is_no_integer_matches_no_child() {
    assert_eq!(requested_attribute("73278"), Some(73278));
    assert_eq!(requested_attribute("-4"), Some(-4));
    assert_eq!(requested_attribute("+4"), Some(4));
    assert_eq!(requested_attribute("0"), Some(0));
    assert_eq!(requested_attribute("abc"), None);
    assert_eq!(requested_attribute(""), None);
    assert_eq!(requested_attribute("7.0"), None);
    assert_eq!(requested_attribute("99999999999999999999"), None);
    let body = response(&[child("5", "1.5", true, "X")]);
    assert_eq!(extract("s", "pr1-abc", &body).unwrap_err(), StoreError::ProductVariantNotFound);
    let with_zero = response(&[child("0", "1.5", true, "none"), child("5", "2", true, "X")]);
    for id in ["pr1-abc", "pr1-", "pr1-5x", "pr1-99999999999999999999", "pr1- 0", "pr1-0.0"] {
        assert_eq!(
            extract("s", id, &with_zero).unwrap_err(),
            StoreError::ProductVariantNotFound,
            "{}",
            id
        );
        assert_eq!(
            Eva::new().get(id, &with_zero).unwrap_err(),
            StoreError::ProductVariantNotFound,
            "{}",
            id
        );
    }
    assert_eq!(extract("s", "pr1-0", &with_zero).unwrap().name, "none");
    assert_eq!(extract("s", "pr1-abc", "{}").unwrap_err(), StoreError::SchemaMismatch);
}

#[test]
fn choice_goes_by_the_integer_of_the_segment() {
    let list = vec![made(0, "zero", "1", true), made(2, "b", "2", true), made(2, "c", "3", true)];
    assert_eq!(choose_candidate(&list, "2").unwrap().name, "b");
    assert_eq!(choose_candidate(&list, "+2").unwrap().name, "b");
    assert_eq!(choose_candidate(&list, "0").unwrap().name, "zero");
    assert!(choose_candidate(&list, "3").is_none());
    assert!(choose_candidate(&list, "abc").is_none());
    assert!(choose_candidate(&list, "").is_none());
}

#[test]
fn prices_are_read_as_written() {
    for (price, units, label) in [
        ("0.29", 29, "\u{20b4}0.29"),
        ("1.15", 115, "\u{20b4}1.15"),
        ("189", 18900, "\u{20b4}189"),
        ("12.349", 1234, "\u{20b4}12.349"),
        ("0.001", 0, "\u{20b4}0.001"),
        ("1.0e2", 10000, "\u{20b4}100"),
        ("25e-1", 250, "\u{20b4}2.5"),
        ("10000000000000000.0", 1_000_000_000_000_000_000, "\u{20b4}10000000000000000"),
        ("0.0000001", 0, "\u{20b4}0.0000001"),
    ] {
        let body = response(&[child("5", price, true, "X")]);
        let item = extract("s", "pr1-5", &body).unwrap();
        assert_eq!(item.price, units, "{}", price);
        assert_eq!(item.price_str, label, "{}", price);
    }
}

#[test]
fn names_keep_their_characters() {
    let body = response(&[child("5", "1", true, "\u{428}\u{430}\u{43c}\u{43f}\u{443}\u{43d}\u{44c} \\\"Fructis\\\" \\u20b4")]);
    let item = extract("s", "pr1-5", &body).unwrap();
    assert_eq!(item.name, "\u{428}\u{430}\u{43c}\u{43f}\u{443}\u{43d}\u{44c} \"Fructis\" \u{20b4}");
}

#[test]
fn data_url_carries_the_encoded_filter() {
    assert_eq!(
        data_url("20285"),
        "https://pwa-api.eva.ua/api/catalog/eva_catalog_default/product/_search?_source_include=configurable_children.externalAttr100050,configurable_children.price,configurable_children.name,configurable_children.stock.is_in_stock&request=%7B%22query%22%3A%7B%22bool%22%3A%7B%22filter%22%3A%7B%22terms%22%3A%7B%22id%22%3A%5B20285%5D%7D%7D%7D%7D%7D"
    );
    assert!(data_url("a b/\u{44f}~").ends_with("%5Ba%20b%2F%D1%8F~%5D%7D%7D%7D%7D%7D"));
    assert_eq!(Eva::new().dataURL("20285"), data_url("20285"));
    assert_eq!(request_url("pr20285-73278").unwrap(), data_url("20285"));
}

#[test]
fn product_url_carries_both_segments() {
    assert_eq!(product_url("pr20285", "73278"), "https://eva.ua/ua/pr20285/#/73278/");
    assert_eq!(Eva::new().productURL("pr20285", "73278"), "https://eva.ua/ua/pr20285/#/73278/");
    assert_eq!(product_url("", ""), "https://eva.ua/ua//#//");
}

#[test]
fn candidates_come_in_the_order_of_the_children() {
    let body = response(&[child("5", "1.5", true, "a"), child("-6", "2", false, "b")]);
    let document: serde_json::Value = serde_json::from_str(&body).unwrap();
    let list = candidates(&document).unwrap();
    assert_eq!(list.len(), 2);
    assert_eq!(list[0].attribute_value, 5);
    assert_eq!(list[0].name, "a");
    assert_eq!(list[0].price.display(), "1.5");
    assert!(list[0].in_stock);
    assert_eq!(list[1].attribute_value, -6);
    assert_eq!(list[1].name, "b");
    assert!(!list[1].in_stock);
    let first: serde_json::Value = serde_json::from_str(&child("7", "3", true, "c")).unwrap();
    assert_eq!(candidate(&first).unwrap().attribute_value, 7);
    assert!(candidate(&serde_json::Value::Null).is_none());
    assert_eq!(candidates(&serde_json::Value::Null).unwrap_err(), StoreError::SchemaMismatch);
}

#[test]
fn select_finds_the_first_with_the_attribute() {
    let list = vec![made(1, "a", "1", true), made(2, "b", "2", true), made(2, "c", "3", true)];
    assert_eq!(select(&list, 2).unwrap().name, "b");
    assert_eq!(select(&list, 1).unwrap().name, "a");
    assert!(select(&list, 3).is_none());
    assert!(select(&Vec::new(), 0).is_none());
}

#[test]
fn normalize_builds_the_record() {
    let item = normalize("shop", "pr1-2", "u".to_string(), &made(2, "n", "4.05", true)).unwrap();
    assert_eq!(item.store, "shop");
    assert_eq!(item.id, "pr1-2");
    assert_eq!(item.name, "n");
    assert_eq!(item.price, 405);
    assert_eq!(item.price_str, "\u{20b4}4.05");
    assert_eq!(item.url, "u");
    let edge = normalize("s", "i", String::new(), &made(2, "n", "92233720368547758.07", false)).unwrap();
    assert_eq!(edge.price, i64::MAX);
    assert_eq!(edge.price_str, "Out of stock");
    for unusable in [made(2, "", "4", true), made(2, "n", "0", true), made(2, "n", "-1", true), made(2, "n", "92233720368547758.08", true)] {
        assert_eq!(
            normalize("s", "i", String::new(), &unusable).unwrap_err(),
            StoreError::ProductVariantNotFound
        );
    }
}

#[test]
fn zero_price_is_the_absence_signal() {
    assert!(is_absent_price(&Decimal::parse("0.00").unwrap()));
    assert!(!is_absent_price(&Decimal::parse("0.01").unwrap()));
    assert_eq!(price_label(&Decimal::parse("0.50").unwrap(), true), "\u{20b4}0.5");
    assert_eq!(price_label(&Decimal::parse("0.50").unwrap(), false), "Out of stock");
}

#[test]
fn extract_document_reads_a_given_document() {
    let body = response(&[child("5", "12.5", true, "X")]);
    let document: serde_json::Value = serde_json::from_str(&body).unwrap();
    let item = extract_document("eva-ua", "pr1-5", &document).unwrap();
    assert_eq!(item.price, 1250);
    assert_eq!(item.url, "https://eva.ua/ua/pr1/#/5/");
    assert_eq!(
        extract_document("eva-ua", "1-5", &document).unwrap_err(),
        StoreError::MalformedIdentifier(IdentifierDefect::MissingProductPrefix)
    );
}

#[test]
fn store_runs_the_strategy_it_was_made_with() {
    let search = Eva::new();
    assert_eq!(search.name(), "eva-ua");
    assert_eq!(search.strategy(), Strategy::SearchApi);
    let page = Eva::with_strategy(Strategy::StructuredData);
    assert_eq!(page.strategy(), Strategy::StructuredData);
    assert_eq!(page.request("20285-x").unwrap(), "https://eva.ua/ua/20285-x/");
    assert_eq!(search.request("pr20285-73278").unwrap(), data_url("20285"));
    assert_eq!(
        search.request("20285-x").unwrap_err(),
        StoreError::MalformedIdentifier(IdentifierDefect::MissingProductPrefix)
    );
    let body = response(&[child("5", "12.5", true, "X")]);
    assert_eq!(search.get("pr1-5", &body).unwrap().price, 1250);
    assert_eq!(page.get("pr1-5", &body).unwrap_err(), StoreError::ExtractionFormat);
}

#[test]
fn failed_fetch_is_a_transport_failure() {
    let body = response(&[child("5", "12.5", true, "X")]);
    for store in [Eva::new(), Eva::with_strategy(Strategy::StructuredData)] {
        assert_eq!(store.receive("pr1-5", None).unwrap_err(), StoreError::Transport);
    }
    assert_eq!(
        Eva::new().receive("1-5", None).unwrap_err(),
        StoreError::MalformedIdentifier(IdentifierDefect::MissingProductPrefix)
    );
    assert_eq!(
        Eva::new().receive("pr15", None).unwrap_err(),
        StoreError::MalformedIdentifier(IdentifierDefect::MissingSeparator)
    );
    assert_eq!(
        Eva::new().receive("pr15", Some(&body)).unwrap_err(),
        StoreError::MalformedIdentifier(IdentifierDefect::MissingSeparator)
    );
    assert_eq!(
        Eva::with_strategy(Strategy::StructuredData).receive("1-5", None).unwrap_err(),
        StoreError::Transport
    );
    let store = Eva::new();
    assert_eq!(store.receive("pr1-5", Some(&body)).unwrap(), store.get("pr1-5", &body).unwrap());
    assert_eq!(store.receive("pr1-5", Some("")).unwrap_err(), StoreError::JsonParse);
}
