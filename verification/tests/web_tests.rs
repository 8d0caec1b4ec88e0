use price_tracker::config::ConfigParams;
use price_tracker::error::{Field, IdentifierDefect, StoreError};
use price_tracker::store::ItemInfo;
use price_tracker::web::{prefix_segments, WebHandler};

fn conf(prefix: Option<&str>) -> ConfigParams {
    ConfigParams { db_file: "items.db".to_string(), port: 8080, url_prefix: prefix.map(|p| p.to_string()) }
}

fn segments(prefix: Option<&str>) -> (Vec<String>, bool) {
    let route = prefix_segments(&prefix.map(|p| p.to_string()));
    (route.segments, route.shortened)
}

#[test]
fn handler_keeps_the_settings() {
    let handler = WebHandler::new(&conf(Some("shop/api")));
    assert_eq!(handler.db_file(), "items.db");
    assert_eq!(handler.port(), 8080);
    assert_eq!(handler.url_prefix(), &Some("shop/api".to_string()));
    let bare = WebHandler::new(&conf(None));
    assert_eq!(bare.url_prefix(), &None);
    let copy = handler.clone();
    assert_eq!(copy.port(), 8080);
    assert_eq!(copy.db_file(), "items.db");
}

#[test]
fn handler_splits_its_prefix() {
    let route = WebHandler::new(&conf(Some("shop/api/v1"))).prefix();
    assert_eq!(route.segments, vec!["shop".to_string(), "api".to_string()]);
    assert!(route.shortened);
    let none = WebHandler::new(&conf(None)).prefix();
    assert!(none.segments.is_empty());
    assert!(!none.shortened);
}

#[test]
fn prefix_has_at_most_two_segments() {
    assert_eq!(segments(None), (vec![], false));
    assert_eq!(segments(Some("api")), (vec!["api".to_string()], false));
    assert_eq!(segments(Some("a/b")), (vec!["a".to_string(), "b".to_string()], false));
    assert_eq!(segments(Some("a/b/c")), (vec!["a".to_string(), "b".to_string()], true));
    assert_eq!(segments(Some("a/b/c/d/e")), (vec!["a".to_string(), "b".to_string()], true));
}

#[test]
fn prefix_keeps_empty_segments() {
    assert_eq!(segments(Some("")), (vec!["".to_string()], false));
    assert_eq!(segments(Some("/")), (vec!["".to_string(), "".to_string()], false));
    assert_eq!(segments(Some("a/")), (vec!["a".to_string(), "".to_string()], false));
    assert_eq!(segments(Some("/a")), (vec!["".to_string(), "a".to_string()], false));
    assert_eq!(segments(Some("//")), (vec!["".to_string(), "".to_string()], true));
    assert_eq!(segments(Some("\u{44f}/\u{20b4}")), (vec!["\u{44f}".to_string(), "\u{20b4}".to_string()], false));
}

#[test]
fn prefix_agrees_with_split() {
    for path in ["", "a", "a/b", "a/b/c", "/x//y", "one/two/"] {
        let all: Vec<String> = path.split('/').map(|s| s.to_string()).collect();
        let (found, shortened) = segments(Some(path));
        assert_eq!(shortened, all.len() > 2);
        assert_eq!(found, all[..all.len().min(2)].to_vec());
    }
}

#[test]
fn new_record_is_blank() {
    let item = ItemInfo::new("eva-ua", "pr1-2");
    assert_eq!(item.store, "eva-ua");
    assert_eq!(item.id, "pr1-2");
    assert_eq!(item.name, "");
    assert_eq!(item.price, 0);
    assert_eq!(item.price_str, "");
    assert_eq!(item.url, "");
}

#[test]
fn every_failure_has_its_message() {
    assert_eq!(StoreError::MalformedIdentifier(IdentifierDefect::MissingSeparator).message(), "Failed to parse ID");
    assert_eq!(StoreError::MalformedIdentifier(IdentifierDefect::MissingProductPrefix).message(), "Failed to extract product ID");
    assert_eq!(StoreError::Transport.message(), "Failed to fetch data");
    assert_eq!(StoreError::ExtractionFormat.message(), "Failed to find structured data");
    assert_eq!(StoreError::JsonParse.message(), "Failed to parse JSON");
    assert_eq!(StoreError::MissingField(Field::OffersPrice).message(), "Failed to read field offers.price");
    assert_eq!(StoreError::MissingField(Field::Name).message(), "Failed to read field name");
    assert_eq!(StoreError::SchemaMismatch.message(), "Failed to match data shape");
    assert_eq!(StoreError::ProductVariantNotFound.message(), "Failed to find product sub-type");
}
