//! The search strategy: a filtered query to the catalog search service, and
//! the choice of the variant that carries the requested attribute.

use vstd::prelude::*;
use crate::decimal::{
    lemma_decimal_well_formed, lemma_minor_units_round, lemma_minor_units_truncate, spec_decimal,
    spec_is_zero, spec_minor_units, spec_rounded_minor_units, spec_truncated_minor_units,
    well_formed, Decimal, DecimalView,
};
use crate::error::{IdentifierDefect, StoreError};
use crate::escape::{percent_encode, spec_percent_encode};
use crate::identifier::{parse, prefix, spec_parse};
use crate::json::{
    document, element, member, number_text, parsed, read_document, then_element, then_member,
    then_number, Json,
};
use crate::numeral::{digit_value, integer, spec_integer};
use crate::store::{agrees, complete, price_label, spec_price_label, ItemInfo, ItemView};

verus! {

/// One variant of a product, as the search service lists it.
#[derive(Debug)]
pub struct VariantCandidate {
    pub attribute_value: i64,
    pub name: String,
    pub price: Decimal,
    pub in_stock: bool,
}

/// What a `VariantCandidate` holds.
pub struct CandidateView {
    pub attribute_value: int,
    pub name: Seq<char>,
    pub price: DecimalView,
    pub in_stock: bool,
}

impl View for VariantCandidate {
    type V = CandidateView;

    open spec fn view(&self) -> CandidateView {
        CandidateView {
            attribute_value: self.attribute_value as int,
            name: self.name@,
            price: self.price@,
            in_stock: self.in_stock,
        }
    }
}

/// The views of a list of candidates, in order.
pub open spec fn candidate_views(list: Seq<VariantCandidate>) -> Seq<CandidateView> {
    list.map_values(|candidate: VariantCandidate| candidate@)
}

/// The address of the search service.
pub open spec fn search_address() -> Seq<char> {
    "https://pwa-api.eva.ua/api/catalog/eva_catalog_default/product/_search"@
}

/// The fields that the search service is asked to return.
pub open spec fn projected_fields() -> Seq<char> {
    "configurable_children.externalAttr100050,configurable_children.price,configurable_children.name,configurable_children.stock.is_in_stock"@
}

/// The filter that selects the documents whose `id` is `product_id`.
pub open spec fn spec_filter(product_id: Seq<char>) -> Seq<char> {
    "{\"query\":{\"bool\":{\"filter\":{\"terms\":{\"id\":["@ + product_id + "]}}}}}"@
}

/// The address from which the variants of `product_id` are fetched: the
/// search service, the projected fields under `_source_include`, and the
/// filter, percent-encoded, under `request`.
pub open spec fn spec_data_url(product_id: Seq<char>) -> Seq<char> {
    search_address() + "?_source_include="@ + projected_fields() + "&request="@
        + spec_percent_encode(spec_filter(product_id))
}

/// The address of the page of a product, with the variant in its fragment.
pub open spec fn spec_product_url(product: Seq<char>, attribute: Seq<char>) -> Seq<char> {
    "https://eva.ua/ua/"@ + product + "/#/"@ + attribute + "/"@
}

/// The address to fetch for `id`: the data address of its product id.
pub open spec fn spec_request_url(id: Seq<char>) -> Result<Seq<char>, StoreError> {
    match spec_parse(id) {
        Ok((product_id, attribute_id)) => Ok(spec_data_url(product_id)),
        Err(defect) => Err(StoreError::MalformedIdentifier(defect)),
    }
}

/// The list under `hits`, `hits`, the first element, `_source`,
/// `configurable_children` of a search response.
pub open spec fn spec_children(response: Json) -> Option<Seq<Json>> {
    match then_member(
        then_member(
            then_element(then_member(then_member(Some(response), "hits"@), "hits"@), 0),
            "_source"@,
        ),
        "configurable_children"@,
    ) {
        Some(Json::Array(children)) => Some(children),
        _ => None,
    }
}

/// The candidate that one child describes: an object with a boolean under
/// `stock`, `is_in_stock`, a string under `name`, an integer under
/// `externalAttr100050` and a number under `price`.
pub open spec fn spec_candidate(child: Json) -> Option<CandidateView> {
    match (
        then_member(then_member(Some(child), "stock"@), "is_in_stock"@),
        then_member(Some(child), "name"@),
        then_number(then_member(Some(child), "externalAttr100050"@)),
        then_number(then_member(Some(child), "price"@)),
    ) {
        (Some(Json::Bool(in_stock)), Some(Json::Text(name)), Some(attribute), Some(price)) => {
            match (spec_integer(attribute), spec_decimal(price)) {
                (Some(attribute_value), Some(amount)) => Some(
                    CandidateView { attribute_value, name, price: amount, in_stock },
                ),
                _ => None,
            }
        },
        _ => None,
    }
}

/// The candidates of a search response, in the order of its children; `None`
/// where the response lacks the list or a child does not describe a
/// candidate.
pub open spec fn spec_candidates(response: Json) -> Option<Seq<CandidateView>> {
    match spec_children(response) {
        Some(children) => if forall|i: int|
            0 <= i < children.len() ==> (#[trigger] spec_candidate(children[i])) is Some {
            Some(Seq::new(children.len(), |i: int| spec_candidate(children[i])->0))
        } else {
            None
        },
        None => None,
    }
}

/// The attribute that an attribute segment asks for: the integer it denotes.
/// A segment that denotes no integer asks for no attribute at all.
pub open spec fn spec_requested_attribute(segment: Seq<char>) -> Option<int> {
    spec_integer(segment)
}

/// The first candidate that carries `attribute`.
pub open spec fn spec_select(candidates: Seq<CandidateView>, attribute: int) -> Option<
    CandidateView,
>
    decreases candidates.len(),
{
    if candidates.len() == 0 {
        None
    } else if candidates[0].attribute_value == attribute {
        Some(candidates[0])
    } else {
        spec_select(candidates.skip(1), attribute)
    }
}

/// A price of exactly zero stands for a variant that is not on offer.
pub open spec fn spec_is_absent_price(price: DecimalView) -> bool {
    spec_is_zero(price)
}

/// A candidate can be turned into a record: it has a name, and a price that
/// is on offer, not below zero, and within the range of the record's price.
pub open spec fn usable(candidate: CandidateView) -> bool {
    &&& candidate.name.len() > 0
    &&& !spec_is_absent_price(candidate.price)
    &&& !candidate.price.negative
    &&& spec_minor_units(candidate.price) <= i64::MAX
}

/// The record of a usable candidate.
pub open spec fn spec_record(
    store: Seq<char>,
    id: Seq<char>,
    url: Seq<char>,
    candidate: CandidateView,
) -> ItemView {
    ItemView {
        store,
        id,
        name: candidate.name,
        price: spec_minor_units(candidate.price),
        price_str: spec_price_label(candidate.price, candidate.in_stock),
        url,
    }
}

/// The candidate that an attribute segment asks for among `candidates`: the
/// first that carries the integer which the segment denotes. A segment that
/// denotes no integer matches no candidate.
pub open spec fn spec_choose(candidates: Seq<CandidateView>, attribute_id: Seq<char>) -> Option<
    CandidateView,
> {
    match spec_requested_attribute(attribute_id) {
        Some(attribute) => spec_select(candidates, attribute),
        None => None,
    }
}

/// The candidate that the attribute segment of an identifier asks for in a
/// response.
pub open spec fn spec_chosen(attribute_id: Seq<char>, response: Json) -> Option<CandidateView> {
    match spec_candidates(response) {
        Some(candidates) => spec_choose(candidates, attribute_id),
        None => None,
    }
}

/// What the search strategy makes of a response for `id`.
pub open spec fn spec_extract_document(store: Seq<char>, id: Seq<char>, response: Json) -> Result<
    ItemView,
    StoreError,
> {
    match spec_parse(id) {
        Err(defect) => Err(StoreError::MalformedIdentifier(defect)),
        Ok((product_id, attribute_id)) => match spec_candidates(response) {
            None => Err(StoreError::SchemaMismatch),
            Some(candidates) => match spec_chosen(attribute_id, response) {
                None => Err(StoreError::ProductVariantNotFound),
                Some(candidate) => if usable(candidate) {
                    Ok(
                        spec_record(
                            store,
                            id,
                            spec_product_url(prefix() + product_id, attribute_id),
                            candidate,
                        ),
                    )
                } else {
                    Err(StoreError::ProductVariantNotFound)
                },
            },
        },
    }
}

/// What the search strategy makes of a response body for `id`, given what
/// the body reads as.
pub open spec fn spec_extract(store: Seq<char>, id: Seq<char>, read: Option<Json>) -> Result<
    ItemView,
    StoreError,
> {
    match spec_parse(id) {
        Err(defect) => Err(StoreError::MalformedIdentifier(defect)),
        Ok(_) => match read {
            None => Err(StoreError::JsonParse),
            Some(response) => spec_extract_document(store, id, response),
        },
    }
}

/// What `spec_select` gives is the first candidate that carries the
/// attribute, and `None` only where no candidate carries it.
pub proof fn lemma_select(candidates: Seq<CandidateView>, attribute: int)
    ensures
        match spec_select(candidates, attribute) {
            Some(chosen) => exists|at: int|
                {
                    &&& 0 <= at < candidates.len()
                    &&& #[trigger] candidates[at] == chosen
                    &&& chosen.attribute_value == attribute
                    &&& forall|before: int|
                        0 <= before < at ==> (#[trigger] candidates[before]).attribute_value
                            != attribute
                },
            None => forall|at: int|
                0 <= at < candidates.len() ==> (#[trigger] candidates[at]).attribute_value
                    != attribute,
        },
    decreases candidates.len(),
{
    if candidates.len() == 0 {
    } else if candidates[0].attribute_value == attribute {
        assert(candidates[0] == candidates[0]);
    } else {
        let rest = candidates.skip(1);
        lemma_select(rest, attribute);
        match spec_select(rest, attribute) {
            Some(chosen) => {
                let at = choose|at: int|
                    {
                        &&& 0 <= at < rest.len()
                        &&& #[trigger] rest[at] == chosen
                        &&& chosen.attribute_value == attribute
                        &&& forall|before: int|
                            0 <= before < at ==> (#[trigger] rest[before]).attribute_value
                                != attribute
                    };
                assert(candidates[at + 1] == chosen);
                assert forall|before: int| 0 <= before < at + 1 implies (
                #[trigger] candidates[before]).attribute_value != attribute by {
                    if before > 0 {
                        assert(rest[before - 1] == candidates[before]);
                    }
                }
            },
            None => {
                assert forall|at: int| 0 <= at < candidates.len() implies (
                #[trigger] candidates[at]).attribute_value != attribute by {
                    if at > 0 {
                        assert(rest[at - 1] == candidates[at]);
                    }
                }
            },
        }
    }
}

/// A malformed identifier fails the search strategy, whatever was fetched,
/// and no address is given for it.
pub proof fn lemma_malformed_identifier(store: Seq<char>, id: Seq<char>, read: Option<Json>)
    requires
        spec_parse(id) is Err,
    ensures
        spec_extract(store, id, read) == Err::<ItemView, StoreError>(
            StoreError::MalformedIdentifier(spec_parse(id)->Err_0),
        ),
        spec_request_url(id) == Err::<Seq<char>, StoreError>(
            StoreError::MalformedIdentifier(spec_parse(id)->Err_0),
        ),
{
}

/// Where no candidate of a response carries the integer that the attribute
/// segment of a well-formed identifier denotes, the variant is not found.
pub proof fn lemma_no_match(store: Seq<char>, id: Seq<char>, response: Json)
    requires
        spec_parse(id) is Ok,
        spec_candidates(response) is Some,
        forall|at: int|
            0 <= at < spec_candidates(response)->0.len() ==> spec_requested_attribute(
                spec_parse(id)->Ok_0.1,
            ) != Some((#[trigger] spec_candidates(response)->0[at]).attribute_value),
    ensures
        spec_extract_document(store, id, response) == Err::<ItemView, StoreError>(
            StoreError::ProductVariantNotFound,
        ),
{
    let candidates = spec_candidates(response)->0;
    if spec_requested_attribute(spec_parse(id)->Ok_0.1) is Some {
        let attribute = spec_requested_attribute(spec_parse(id)->Ok_0.1)->0;
        lemma_select(candidates, attribute);
        if spec_select(candidates, attribute) is Some {
            let chosen = spec_select(candidates, attribute)->0;
            let at = choose|at: int|
                0 <= at < candidates.len() && #[trigger] candidates[at] == chosen
                    && chosen.attribute_value == attribute;
            assert(candidates[at].attribute_value != attribute);
        }
    }
}

/// An attribute segment that denotes no integer matches no variant: for a
/// well-formed identifier with such a segment, every response that has the
/// shape of a search result gives that the variant is not found.
pub proof fn lemma_attribute_not_an_integer(store: Seq<char>, id: Seq<char>, response: Json)
    requires
        spec_parse(id) is Ok,
        spec_integer(spec_parse(id)->Ok_0.1) is None,
        spec_candidates(response) is Some,
    ensures
        spec_chosen(spec_parse(id)->Ok_0.1, response) is None,
        spec_extract_document(store, id, response) == Err::<ItemView, StoreError>(
            StoreError::ProductVariantNotFound,
        ),
{
}

/// Every candidate of a response has a price in its one plain form.
pub proof fn lemma_candidate_prices(response: Json, at: int)
    requires
        spec_candidates(response) is Some,
        0 <= at < spec_candidates(response)->0.len(),
    ensures
        well_formed(spec_candidates(response)->0[at].price),
{
    let children = spec_children(response)->0;
    assert(spec_candidate(children[at]) is Some);
    let price_text = then_number(then_member(Some(children[at]), "price"@))->0;
    lemma_decimal_well_formed(price_text);
}

/// A record that the search strategy gives is that of the first candidate
/// that carries the integer which the attribute segment denotes. It has a
/// name, and as its price a hundred times the price of that candidate with
/// what follows the decimal point dropped: the nearest integer, where the
/// price has no third digit after the point or one below five.
pub proof fn lemma_record(store: Seq<char>, id: Seq<char>, response: Json)
    requires
        spec_extract_document(store, id, response) is Ok,
    ensures
        spec_parse(id) is Ok,
        spec_integer(spec_parse(id)->Ok_0.1) is Some,
        spec_chosen(spec_parse(id)->Ok_0.1, response) is Some,
        spec_chosen(spec_parse(id)->Ok_0.1, response)->0.attribute_value == spec_integer(
            spec_parse(id)->Ok_0.1,
        )->0,
        ({
            let item = spec_extract_document(store, id, response)->Ok_0;
            let chosen = spec_chosen(spec_parse(id)->Ok_0.1, response)->0;
            &&& complete(item)
            &&& item.name == chosen.name
            &&& item.price == spec_truncated_minor_units(chosen.price)
            &&& (chosen.price.fraction.len() > 2 ==> digit_value(chosen.price.fraction[2]) < 5)
                ==> item.price == spec_rounded_minor_units(chosen.price)
            &&& item.price_str == spec_price_label(chosen.price, chosen.in_stock)
        }),
{
    let attribute_id = spec_parse(id)->Ok_0.1;
    let candidates = spec_candidates(response)->0;
    let attribute = spec_requested_attribute(attribute_id)->0;
    let chosen = spec_chosen(attribute_id, response)->0;
    lemma_select(candidates, attribute);
    let at = choose|at: int| 0 <= at < candidates.len() && #[trigger] candidates[at] == chosen;
    lemma_candidate_prices(response, at);
    lemma_minor_units_truncate(chosen.price);
    if chosen.price.fraction.len() > 2 ==> digit_value(chosen.price.fraction[2]) < 5 {
        lemma_minor_units_round(chosen.price);
    }
}

/// A record made from a candidate that is out of stock shows the fixed note
/// and still carries the candidate's price.
pub proof fn lemma_out_of_stock(store: Seq<char>, id: Seq<char>, response: Json)
    requires
        spec_extract_document(store, id, response) is Ok,
        spec_parse(id) matches Ok(parts) && spec_chosen(parts.1, response) matches Some(chosen)
            && !chosen.in_stock,
    ensures
        spec_extract_document(store, id, response)->Ok_0.price_str == "Out of stock"@,
        spec_extract_document(store, id, response)->Ok_0.price == spec_minor_units(
            spec_chosen(spec_parse(id)->Ok_0.1, response)->0.price,
        ),
{
}

/// The address from which the variants of `product_id` are fetched.
pub fn data_url(product_id: &str) -> (url: String)
    ensures
        url@ == spec_data_url(product_id@),
{
    let mut filter = "{\"query\":{\"bool\":{\"filter\":{\"terms\":{\"id\":[".to_owned();
    filter.append(product_id);
    filter.append("]}}}}}");
    let request = percent_encode(filter.as_str());
    let mut url = "https://pwa-api.eva.ua/api/catalog/eva_catalog_default/product/_search".to_owned();
    url.append("?_source_include=");
    url.append(
        "configurable_children.externalAttr100050,configurable_children.price,configurable_children.name,configurable_children.stock.is_in_stock",
    );
    url.append("&request=");
    url.append(request.as_str());
    url
}

/// The address of the page of a product, with the variant in its fragment.
pub fn product_url(product: &str, attribute: &str) -> (url: String)
    ensures
        url@ == spec_product_url(product@, attribute@),
{
    let mut url = "https://eva.ua/ua/".to_owned();
    url.append(product);
    url.append("/#/");
    url.append(attribute);
    url.append("/");
    url
}

/// The address to fetch for `id`. Fails where `id` is malformed.
pub fn request_url(id: &str) -> (url: Result<String, StoreError>)
    ensures
        match spec_request_url(id@) {
            Ok(address) => url matches Ok(text) && text@ == address,
            Err(error) => url matches Err(e) && e == error,
        },
{
    match parse(id) {
        Ok((product_id, _attribute_id)) => Ok(data_url(product_id.as_str())),
        Err(error) => Err(error),
    }
}

/// The candidate that one child of a search response describes.
pub fn candidate(child: &serde_json::Value) -> (found: Option<VariantCandidate>)
    ensures
        match spec_candidate(document(*child)) {
            Some(view) => found matches Some(c) && c@ == view,
            None => found is None,
        },
{
    let in_stock = match member(child, "stock") {
        Some(stock) => match member(stock, "is_in_stock") {
            Some(flag) => match flag.as_bool() {
                Some(value) => value,
                None => {
                    return None;
                },
            },
            None => {
                return None;
            },
        },
        None => {
            return None;
        },
    };
    let name = match member(child, "name") {
        Some(value) => match value.as_str() {
            Some(text) => text.to_owned(),
            None => {
                return None;
            },
        },
        None => {
            return None;
        },
    };
    let attribute_text = match member(child, "externalAttr100050") {
        Some(value) => match number_text(value) {
            Some(text) => text,
            None => {
                return None;
            },
        },
        None => {
            return None;
        },
    };
    let price_text = match member(child, "price") {
        Some(value) => match number_text(value) {
            Some(text) => text,
            None => {
                return None;
            },
        },
        None => {
            return None;
        },
    };
    let attribute_value = match integer(attribute_text.as_str()) {
        Some(value) => value,
        None => {
            return None;
        },
    };
    let price = match Decimal::parse(price_text.as_str()) {
        Some(amount) => amount,
        None => {
            return None;
        },
    };
    Some(VariantCandidate { attribute_value, name, price, in_stock })
}

/// The list of children of a search response.
fn children(response: &serde_json::Value) -> (found: Option<&Vec<serde_json::Value>>)
    ensures
        match spec_children(document(*response)) {
            Some(list) => found matches Some(items) && items@.map_values(
                |item: serde_json::Value| document(item),
            ) == list,
            None => found is None,
        },
{
    let outer = match member(response, "hits") {
        Some(value) => value,
        None => {
            return None;
        },
    };
    let inner = match member(outer, "hits") {
        Some(value) => value,
        None => {
            return None;
        },
    };
    let first = match element(inner, 0) {
        Some(value) => value,
        None => {
            return None;
        },
    };
    let source = match member(first, "_source") {
        Some(value) => value,
        None => {
            return None;
        },
    };
    match member(source, "configurable_children") {
        Some(value) => value.as_array(),
        None => None,
    }
}

/// The candidates of a search response, in the order of its children. Fails
/// where the response lacks the list of children or one of them does not
/// describe a candidate.
pub fn candidates(response: &serde_json::Value) -> (found: Result<Vec<VariantCandidate>, StoreError>)
    ensures
        match spec_candidates(document(*response)) {
            Some(views) => found matches Ok(list) && candidate_views(list@) == views,
            None => found matches Err(e) && e == StoreError::SchemaMismatch,
        },
{
    let items = match children(response) {
        Some(items) => items,
        None => {
            return Err(StoreError::SchemaMismatch);
        },
    };
    let ghost trees = spec_children(document(*response))->0;
    let mut list: Vec<VariantCandidate> = Vec::new();
    let mut at: usize = 0;
    while at < items.len()
        invariant
            at <= items.len(),
            spec_children(document(*response)) == Some(trees),
            trees == items@.map_values(|item: serde_json::Value| document(item)),
            list@.len() == at,
            forall|i: int| 0 <= i < at ==> (#[trigger] spec_candidate(trees[i])) is Some,
            forall|i: int| 0 <= i < at ==> (#[trigger] list@[i])@ == spec_candidate(trees[i])->0,
        decreases items.len() - at,
    {
        assert(trees[at as int] == document(items@[at as int]));
        match candidate(&items[at]) {
            Some(found) => {
                list.push(found);
            },
            None => {
                assert(0 <= at < trees.len() && spec_candidate(trees[at as int]) is None);
                return Err(StoreError::SchemaMismatch);
            },
        }
        at += 1;
    }
    assert(candidate_views(list@) =~= spec_candidates(document(*response))->0);
    Ok(list)
}

/// The attribute that an attribute segment asks for, `None` where the
/// segment denotes no integer.
pub fn requested_attribute(segment: &str) -> (attribute: Option<i64>)
    ensures
        attribute matches Some(value) ==> spec_requested_attribute(segment@) == Some(value as int),
        attribute is None ==> spec_requested_attribute(segment@) is None,
{
    integer(segment)
}

/// The first candidate that carries `attribute`.
pub fn select(candidates: &Vec<VariantCandidate>, attribute: i64) -> (found: Option<
    &VariantCandidate,
>)
    ensures
        match spec_select(candidate_views(candidates@), attribute as int) {
            Some(view) => found matches Some(c) && c@ == view && candidates@.contains(*c),
            None => found is None,
        },
{
    let ghost views = candidate_views(candidates@);
    let mut at: usize = 0;
    assert(views.skip(0) =~= views);
    while at < candidates.len()
        invariant
            at <= candidates.len(),
            views == candidate_views(candidates@),
            spec_select(views, attribute as int) == spec_select(
                views.skip(at as int),
                attribute as int,
            ),
        decreases candidates.len() - at,
    {
        assert(views.skip(at as int)[0] == candidates@[at as int]@);
        if candidates[at].attribute_value == attribute {
            return Some(&candidates[at]);
        }
        assert(views.skip(at as int).skip(1) =~= views.skip(at + 1));
        at += 1;
    }
    None
}

/// The candidate that an attribute segment asks for: the first that carries
/// the integer which the segment denotes, and none where it denotes no
/// integer.
pub fn choose_candidate<'a>(candidates: &'a Vec<VariantCandidate>, attribute_id: &str) -> (found:
    Option<&'a VariantCandidate>)
    ensures
        match spec_choose(candidate_views(candidates@), attribute_id@) {
            Some(view) => found matches Some(c) && c@ == view && candidates@.contains(*c),
            None => found is None,
        },
{
    match requested_attribute(attribute_id) {
        Some(attribute) => select(candidates, attribute),
        None => None,
    }
}

/// Whether a price stands for a variant that is not on offer.
pub fn is_absent_price(price: &Decimal) -> (absent: bool)
    ensures
        absent == spec_is_absent_price(price@),
{
    price.is_zero()
}

/// The record of a candidate for `id`, with `url` as the address of its page.
/// Fails where the candidate has no name, or no price that is on offer, not
/// below zero and within the range of the record's price.
pub fn normalize(store: &str, id: &str, url: String, candidate: &VariantCandidate) -> (outcome:
    Result<ItemInfo, StoreError>)
    ensures
        agrees(
            outcome,
            if usable(candidate@) {
                Ok(spec_record(store@, id@, url@, candidate@))
            } else {
                Err(StoreError::ProductVariantNotFound)
            },
        ),
        outcome matches Ok(item) ==> complete(item@),
{
    if candidate.name.as_str().is_empty() || is_absent_price(&candidate.price)
        || candidate.price.is_negative() {
        return Err(StoreError::ProductVariantNotFound);
    }
    let price = match candidate.price.minor_units() {
        Some(units) => units,
        None => {
            return Err(StoreError::ProductVariantNotFound);
        },
    };
    let mut item = ItemInfo::new(store, id);
    item.name = candidate.name.clone();
    item.price = price;
    item.price_str = price_label(&candidate.price, candidate.in_stock);
    item.url = url;
    Ok(item)
}

/// What the strategy makes of a response, once `id` has been taken apart.
fn extract_parts(
    store: &str,
    id: &str,
    product_id: &str,
    attribute_id: &str,
    response: &serde_json::Value,
) -> (outcome: Result<ItemInfo, StoreError>)
    requires
        spec_parse(id@) == Ok::<(Seq<char>, Seq<char>), IdentifierDefect>(
            (product_id@, attribute_id@),
        ),
    ensures
        agrees(outcome, spec_extract_document(store@, id@, document(*response))),
        outcome matches Ok(item) ==> complete(item@),
{
    let list = match candidates(response) {
        Ok(list) => list,
        Err(error) => {
            return Err(error);
        },
    };
    let found = match choose_candidate(&list, attribute_id) {
        Some(found) => found,
        None => {
            return Err(StoreError::ProductVariantNotFound);
        },
    };
    let mut product = "pr".to_owned();
    product.append(product_id);
    proof {
        reveal_strlit("pr");
        assert(product@ =~= prefix() + product_id@);
    }
    let url = product_url(product.as_str(), attribute_id);
    normalize(store, id, url, found)
}

/// The record that a search response holds for `id`: that of the first
/// child whose attribute is the one that `id` asks for. Fails where `id` is
/// malformed, where the response does not have the shape of a search result,
/// and where no child matches or the one that does is not usable.
pub fn extract_document(store: &str, id: &str, response: &serde_json::Value) -> (outcome: Result<
    ItemInfo,
    StoreError,
>)
    ensures
        agrees(outcome, spec_extract_document(store@, id@, document(*response))),
        outcome matches Ok(item) ==> complete(item@),
{
    match parse(id) {
        Err(error) => Err(error),
        Ok((product_id, attribute_id)) => extract_parts(
            store,
            id,
            product_id.as_str(),
            attribute_id.as_str(),
            response,
        ),
    }
}

/// The record that the body of a search response holds for `id`. Fails as
/// `extract_document` does, and where the body is not JSON.
pub fn extract(store: &str, id: &str, body: &str) -> (outcome: Result<ItemInfo, StoreError>)
    ensures
        agrees(outcome, spec_extract(store@, id@, parsed(body@))),
        outcome matches Ok(item) ==> complete(item@),
{
    match parse(id) {
        Err(error) => Err(error),
        Ok((product_id, attribute_id)) => match read_document(body) {
            Err(_) => Err(StoreError::JsonParse),
            Ok(response) => extract_parts(
                store,
                id,
                product_id.as_str(),
                attribute_id.as_str(),
                &response,
            ),
        },
    }
}

} // verus!
