use price_tracker::error::{IdentifierDefect, StoreError};
use price_tracker::identifier::{compose, parse, split};

fn pair(a: &str, b: &str) -> (String, String) {
    (a.to_string(), b.to_string())
}

#[test]
fn parse_gives_product_and_attribute() {
    assert_eq!(parse("pr20285-73278").unwrap(), pair("20285", "73278"));
}

#[test]
fn parse_splits_at_the_first_separator() {
    assert_eq!(parse("pr1-2-3").unwrap(), pair("1", "2-3"));
    assert_eq!(parse("pr7--").unwrap(), pair("7", "-"));
}

#[test]
fn parse_accepts_empty_ids() {
    assert_eq!(parse("pr-").unwrap(), pair("", ""));
    assert_eq!(parse("pr-5").unwrap(), pair("", "5"));
    assert_eq!(parse("pr5-").unwrap(), pair("5", ""));
}

#[test]
fn parse_without_separator_is_malformed() {
    let expected = Err(StoreError::MalformedIdentifier(IdentifierDefect::MissingSeparator));
    assert_eq!(parse("pr20285"), expected);
    assert_eq!(parse(""), expected);
    assert_eq!(parse("20285"), expected);
}

#[test]
fn parse_without_prefix_is_malformed() {
    let expected = Err(StoreError::MalformedIdentifier(IdentifierDefect::MissingProductPrefix));
    assert_eq!(parse("20285-73278"), expected);
    assert_eq!(parse("p-73278"), expected);
    assert_eq!(parse("-73278"), expected);
    assert_eq!(parse("PR20285-73278"), expected);
    assert_eq!(parse("xpr20285-73278"), expected);
    assert_eq!(parse("p-r20285"), expected);
}

#[test]
fn split_keeps_the_prefix() {
    assert_eq!(split("pr20285-73278").unwrap(), pair("pr20285", "73278"));
    assert_eq!(split("20285-73278").unwrap(), pair("20285", "73278"));
    assert_eq!(
        split("none"),
        Err(StoreError::MalformedIdentifier(IdentifierDefect::MissingSeparator))
    );
}

#[test]
fn compose_writes_prefix_and_separator() {
    assert_eq!(compose("20285", "73278"), "pr20285-73278");
    assert_eq!(compose("", ""), "pr-");
}

#[test]
fn parse_undoes_compose() {
    for (product, attribute) in [("20285", "73278"), ("", ""), ("a", "b-c"), ("pr", "-"), ("\u{44f}", "\u{20b4}")] {
        let id = compose(product, attribute);
        assert_eq!(parse(&id).unwrap(), pair(product, attribute));
    }
}

#[test]
fn compose_undoes_parse() {
    for id in ["pr20285-73278", "pr-", "pr1-2-3", "prpr-pr"] {
        let (product, attribute) = parse(id).unwrap();
        assert_eq!(compose(&product, &attribute), id);
    }
}

#[test]
fn compose_with_separator_in_product_does_not_round_trip() {
    let id = compose("1-2", "3");
    assert_eq!(parse(&id).unwrap(), pair("1", "2-3"));
}
