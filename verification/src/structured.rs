//! The structured-data strategy: the product page carries a script block of
//! type `application/ld+json`, and the record is read from the JSON in it.

use vstd::prelude::*;
use crate::decimal::{
    lemma_decimal_well_formed, lemma_minor_units_round, lemma_minor_units_truncate, spec_decimal,
    spec_minor_units, spec_rounded_minor_units, spec_truncated_minor_units, Decimal, DecimalView,
};
use crate::numeral::digit_value;
use crate::error::{Field, StoreError};
use crate::json::{
    document, member, number_text, parsed, read_document, then_member, then_number, Json,
};
use crate::store::{agrees, complete, price_label, spec_price_label, ItemInfo, ItemView};
use crate::text::{chars_of, find, find_before, lemma_find_is_first, occurs_at, spec_find};

verus! {

/// The tag that opens the structured-data block.
pub open spec fn opening() -> Seq<char> {
    "<script type=\"application/ld+json\">"@
}

/// The tag that closes the structured-data block.
pub open spec fn closing() -> Seq<char> {
    "</script>"@
}

/// The brace with which the JSON in the block starts.
pub open spec fn brace() -> Seq<char> {
    seq!['{']
}

/// The address of the page of `id`.
pub open spec fn spec_page_url(id: Seq<char>) -> Seq<char> {
    "https://eva.ua/ua/"@ + id + "/"@
}

/// The JSON that a page carries: with the block being what stands between
/// the first opening tag and the first closing tag after it, the block from
/// its first `{` on. `None` where a tag or the brace is missing.
pub open spec fn spec_payload(page: Seq<char>) -> Option<Seq<char>> {
    match spec_find(page, opening(), 0) {
        None => None,
        Some(open_at) => match spec_find(page, closing(), open_at + opening().len()) {
            None => None,
            Some(close_at) => match spec_find(
                page.take(close_at),
                brace(),
                open_at + opening().len(),
            ) {
                None => None,
                Some(brace_at) => Some(page.subrange(brace_at, close_at)),
            },
        },
    }
}

/// The price that a structured-data document states: the number under
/// `offers`, `price`.
pub open spec fn spec_offer_price(data: Json) -> Option<DecimalView> {
    match then_number(then_member(then_member(Some(data), "offers"@), "price"@)) {
        Some(text) => spec_decimal(text),
        None => None,
    }
}

/// The name that a structured-data document states: the string under `name`.
pub open spec fn spec_name(data: Json) -> Option<Seq<char>> {
    match then_member(Some(data), "name"@) {
        Some(Json::Text(name)) => Some(name),
        _ => None,
    }
}

/// What the structured-data strategy makes of a document for `id`: the
/// price is looked for first, then the name; a name that is empty and a price
/// that is below zero or beyond the range of the record's price do not have
/// the shape of a record.
pub open spec fn spec_extract_document(store: Seq<char>, id: Seq<char>, data: Json) -> Result<
    ItemView,
    StoreError,
> {
    match spec_offer_price(data) {
        None => Err(StoreError::MissingField(Field::OffersPrice)),
        Some(price) => match spec_name(data) {
            None => Err(StoreError::MissingField(Field::Name)),
            Some(name) => if name.len() == 0 || price.negative || spec_minor_units(price)
                > i64::MAX {
                Err(StoreError::SchemaMismatch)
            } else {
                Ok(
                    ItemView {
                        store,
                        id,
                        name,
                        price: spec_minor_units(price),
                        price_str: spec_price_label(price, true),
                        url: spec_page_url(id),
                    },
                )
            },
        },
    }
}

/// What the structured-data strategy makes of a page for `id`.
pub open spec fn spec_extract(store: Seq<char>, id: Seq<char>, page: Seq<char>) -> Result<
    ItemView,
    StoreError,
> {
    match spec_payload(page) {
        None => Err(StoreError::ExtractionFormat),
        Some(payload) => match parsed(payload) {
            None => Err(StoreError::JsonParse),
            Some(data) => spec_extract_document(store, id, data),
        },
    }
}

/// The address of the page of `id`.
pub fn page_url(id: &str) -> (url: String)
    ensures
        url@ == spec_page_url(id@),
{
    let mut url = "https://eva.ua/ua/".to_owned();
    url.append(id);
    url.append("/");
    url
}

/// The JSON that a page carries. Fails where the page lacks the opening tag,
/// a closing tag after it, or a `{` between the two.
pub fn payload(page: &str) -> (found: Result<&str, StoreError>)
    ensures
        match spec_payload(page@) {
            Some(text) => found matches Ok(slice) && slice@ == text,
            None => found matches Err(e) && e == StoreError::ExtractionFormat,
        },
{
    let chars = chars_of(page);
    let open = chars_of("<script type=\"application/ld+json\">");
    let close = chars_of("</script>");
    let mut curly: Vec<char> = Vec::new();
    curly.push('{');
    assert(curly@ =~= brace());
    let open_at = match find(&chars, &open, 0) {
        Some(at) => at,
        None => {
            return Err(StoreError::ExtractionFormat);
        },
    };
    proof {
        lemma_find_is_first(page@, opening(), 0);
        assert(occurs_at(page@, opening(), open_at as int));
        assert(open_at + open.len() <= chars.len());
    }
    let from: usize = open_at + open.len();
    let close_at = match find(&chars, &close, from) {
        Some(at) => at,
        None => {
            return Err(StoreError::ExtractionFormat);
        },
    };
    proof {
        lemma_find_is_first(page@, closing(), from as int);
        assert(occurs_at(page@, closing(), close_at as int));
    }
    let brace_at = match find_before(&chars, &curly, from, close_at) {
        Some(at) => at,
        None => {
            return Err(StoreError::ExtractionFormat);
        },
    };
    proof {
        lemma_find_is_first(page@.take(close_at as int), brace(), from as int);
        assert(occurs_at(page@.take(close_at as int), brace(), brace_at as int));
    }
    Ok(page.substring_char(brace_at, close_at))
}

/// The price that a structured-data document states.
pub fn offer_price(data: &serde_json::Value) -> (found: Option<Decimal>)
    ensures
        match spec_offer_price(document(*data)) {
            Some(price) => found matches Some(amount) && amount@ == price,
            None => found is None,
        },
{
    let offers = match member(data, "offers") {
        Some(value) => value,
        None => {
            return None;
        },
    };
    let price = match member(offers, "price") {
        Some(value) => value,
        None => {
            return None;
        },
    };
    match number_text(price) {
        Some(text) => Decimal::parse(text.as_str()),
        None => None,
    }
}

/// The name that a structured-data document states.
pub fn name(data: &serde_json::Value) -> (found: Option<String>)
    ensures
        match spec_name(document(*data)) {
            Some(name) => found matches Some(text) && text@ == name,
            None => found is None,
        },
{
    match member(data, "name") {
        Some(value) => match value.as_str() {
            Some(text) => Some(text.to_owned()),
            None => None,
        },
        None => None,
    }
}

/// The record that a structured-data document holds for `id`. Fails where
/// the document lacks the price or the name, and where what it states does
/// not have the shape of a record.
pub fn extract_document(store: &str, id: &str, data: &serde_json::Value) -> (outcome: Result<
    ItemInfo,
    StoreError,
>)
    ensures
        agrees(outcome, spec_extract_document(store@, id@, document(*data))),
        outcome matches Ok(item) ==> complete(item@),
{
    let price = match offer_price(data) {
        Some(price) => price,
        None => {
            return Err(StoreError::MissingField(Field::OffersPrice));
        },
    };
    let name = match name(data) {
        Some(name) => name,
        None => {
            return Err(StoreError::MissingField(Field::Name));
        },
    };
    if name.as_str().is_empty() || price.is_negative() {
        return Err(StoreError::SchemaMismatch);
    }
    let units = match price.minor_units() {
        Some(units) => units,
        None => {
            return Err(StoreError::SchemaMismatch);
        },
    };
    let mut item = ItemInfo::new(store, id);
    item.name = name;
    item.price = units;
    item.price_str = price_label(&price, true);
    item.url = page_url(id);
    Ok(item)
}

/// The record that a product page holds for `id`. Fails where the page
/// carries no structured-data block, where the block is not JSON, and as
/// `extract_document` does.
pub fn extract(store: &str, id: &str, page: &str) -> (outcome: Result<ItemInfo, StoreError>)
    ensures
        agrees(outcome, spec_extract(store@, id@, page@)),
        outcome matches Ok(item) ==> complete(item@),
{
    let text = match payload(page) {
        Ok(text) => text,
        Err(error) => {
            return Err(error);
        },
    };
    match read_document(text) {
        Err(_) => Err(StoreError::JsonParse),
        Ok(data) => extract_document(store, id, &data),
    }
}

/// A record that the structured-data strategy gives has a name, and as its
/// price a hundred times the stated price with what follows the decimal
/// point dropped: the nearest integer, where the price has no third digit
/// after the point or one below five.
pub proof fn lemma_record(store: Seq<char>, id: Seq<char>, data: Json)
    requires
        spec_extract_document(store, id, data) is Ok,
    ensures
        spec_offer_price(data) is Some,
        ({
            let item = spec_extract_document(store, id, data)->Ok_0;
            let price = spec_offer_price(data)->0;
            &&& complete(item)
            &&& item.price == spec_truncated_minor_units(price)
            &&& (price.fraction.len() > 2 ==> digit_value(price.fraction[2]) < 5) ==> item.price
                == spec_rounded_minor_units(price)
        }),
{
    let price = spec_offer_price(data)->0;
    let text = then_number(then_member(then_member(Some(data), "offers"@), "price"@))->0;
    lemma_decimal_well_formed(text);
    lemma_minor_units_truncate(price);
    if price.fraction.len() > 2 ==> digit_value(price.fraction[2]) < 5 {
        lemma_minor_units_round(price);
    }
}

/// The structured-data strategy asks nothing of the identifier: whether a
/// page yields a record does not depend on it.
pub proof fn lemma_identifier_is_free(store: Seq<char>, id: Seq<char>, other: Seq<char>, page: Seq<char>)
    ensures
        spec_extract(store, id, page) is Ok <==> spec_extract(store, other, page) is Ok,
        spec_extract(store, id, page) is Err ==> spec_extract(store, other, page)
            == spec_extract(store, id, page),
{
}

/// A page in which the opening tag stands nowhere has no payload: its
/// extraction fails for want of the markers.
pub proof fn lemma_missing_block(store: Seq<char>, id: Seq<char>, page: Seq<char>)
    requires
        forall|at: int| !occurs_at(page, opening(), at),
    ensures
        spec_extract(store, id, page) == Err::<ItemView, StoreError>(StoreError::ExtractionFormat),
{
    lemma_find_is_first(page, opening(), 0);
}

/// A page whose block holds text that does not read as JSON fails on the
/// JSON.
pub proof fn lemma_block_not_json(store: Seq<char>, id: Seq<char>, page: Seq<char>)
    requires
        spec_payload(page) matches Some(payload) && parsed(payload) is None,
    ensures
        spec_extract(store, id, page) == Err::<ItemView, StoreError>(StoreError::JsonParse),
{
}

} // verus!
