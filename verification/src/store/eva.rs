//! The `eva-ua` store: one retailer, served by one of two strategies that is
//! fixed when the store is made.

use vstd::prelude::*;
use crate::error::StoreError;
use crate::identifier::parse;
use crate::json::parsed;
use crate::search;
use crate::store::{agrees, complete, ItemInfo, ItemView, Strategy};
use crate::structured;

verus! {

/// The `eva-ua` store.
#[derive(Clone, Copy, Debug)]
pub struct Eva {
    name: &'static str,
    strategy: Strategy,
}

/// What an `Eva` holds: its name and its strategy.
pub struct EvaView {
    pub name: Seq<char>,
    pub strategy: Strategy,
}

impl View for Eva {
    type V = EvaView;

    closed spec fn view(&self) -> EvaView {
        EvaView { name: self.name@, strategy: self.strategy }
    }
}

/// The name of the store.
pub open spec fn store_name() -> Seq<char> {
    "eva-ua"@
}

/// The address that a store fetches for `id`: the page of `id` under the
/// structured-data strategy, the data address of its product under the
/// search strategy, which asks for a well-formed `id`.
pub open spec fn spec_request(store: EvaView, id: Seq<char>) -> Result<Seq<char>, StoreError> {
    match store.strategy {
        Strategy::StructuredData => Ok(structured::spec_page_url(id)),
        Strategy::SearchApi => search::spec_request_url(id),
    }
}

/// What a store makes of what a fetch came to. An identifier for which no
/// address is given fails as `spec_request` says, before any fetch; else a
/// failed fetch is a transport failure, and a body gives what the strategy
/// makes of it.
pub open spec fn spec_receive(store: EvaView, id: Seq<char>, fetched: Option<Seq<char>>) -> Result<
    ItemView,
    StoreError,
> {
    match spec_request(store, id) {
        Err(error) => Err(error),
        Ok(_) => match fetched {
            Some(body) => spec_get(store, id, body),
            None => Err(StoreError::Transport),
        },
    }
}

/// The text of a string slice that may be absent.
pub open spec fn optional_body(fetched: Option<&str>) -> Option<Seq<char>> {
    match fetched {
        Some(body) => Some(body@),
        None => None,
    }
}

/// What a store makes of the body fetched for `id`, by its strategy.
pub open spec fn spec_get(store: EvaView, id: Seq<char>, body: Seq<char>) -> Result<
    ItemView,
    StoreError,
> {
    match store.strategy {
        Strategy::StructuredData => structured::spec_extract(store.name, id, body),
        Strategy::SearchApi => search::spec_extract(store.name, id, parsed(body)),
    }
}

/// An identifier for which no address is given fails in the same way,
/// whatever is handed over as fetched.
pub proof fn lemma_request_failure(store: EvaView, id: Seq<char>, body: Seq<char>)
    requires
        spec_request(store, id) is Err,
    ensures
        spec_get(store, id, body) == Err::<ItemView, StoreError>(spec_request(store, id)->Err_0),
{
}

impl Eva {
    /// The store with the search strategy.
    pub fn new() -> (store: Eva)
        ensures
            store@ == (EvaView { name: store_name(), strategy: Strategy::SearchApi }),
    {
        Eva { name: "eva-ua", strategy: Strategy::SearchApi }
    }

    /// The store with the given strategy.
    pub fn with_strategy(strategy: Strategy) -> (store: Eva)
        ensures
            store@ == (EvaView { name: store_name(), strategy }),
    {
        Eva { name: "eva-ua", strategy }
    }

    /// The name of the store.
    pub fn name(&self) -> (name: &'static str)
        ensures
            name@ == self@.name,
    {
        self.name
    }

    /// The strategy of the store.
    pub fn strategy(&self) -> (strategy: Strategy)
        ensures
            strategy == self@.strategy,
    {
        self.strategy
    }

    /// The address from which the search strategy fetches the variants of the
    /// product `id`.
    #[allow(non_snake_case)]
    pub fn dataURL(&self, id: &str) -> (url: String)
        ensures
            url@ == search::spec_data_url(id@),
    {
        search::data_url(id)
    }

    /// The address of the page of the product segment `id`, with `attribute`
    /// in its fragment.
    #[allow(non_snake_case)]
    pub fn productURL(&self, id: &str, attribute: &str) -> (url: String)
        ensures
            url@ == search::spec_product_url(id@, attribute@),
    {
        search::product_url(id, attribute)
    }

    /// The address to fetch for `id`. Fails under the search strategy where
    /// `id` is malformed.
    pub fn request(&self, id: &str) -> (url: Result<String, StoreError>)
        ensures
            match spec_request(self@, id@) {
                Ok(address) => url matches Ok(text) && text@ == address,
                Err(error) => url matches Err(e) && e == error,
            },
    {
        match self.strategy {
            Strategy::StructuredData => Ok(structured::page_url(id)),
            Strategy::SearchApi => search::request_url(id),
        }
    }

    /// The record for `id`, from the body that was fetched from the address
    /// that `request` gives. Every failure of the strategy comes out as it
    /// is.
    pub fn get(&self, id: &str, body: &str) -> (outcome: Result<ItemInfo, StoreError>)
        ensures
            agrees(outcome, spec_get(self@, id@, body@)),
            outcome matches Ok(item) ==> complete(item@) && item@.store == self@.name && item@.id
                == id@,
    {
        match self.strategy {
            Strategy::StructuredData => structured::extract(self.name, id, body),
            Strategy::SearchApi => search::extract(self.name, id, body),
        }
    }

    /// The record for `id` from what the fetch came to: `None` stands for a
    /// fetch that obtained no response. An identifier that `request` refuses
    /// fails as it does there, whatever is handed over; else a fetch without
    /// a response is a transport failure.
    pub fn receive(&self, id: &str, fetched: Option<&str>) -> (outcome: Result<ItemInfo, StoreError>)
        ensures
            agrees(outcome, spec_receive(self@, id@, optional_body(fetched))),
            outcome matches Ok(item) ==> complete(item@) && item@.store == self@.name && item@.id
                == id@,
    {
        match fetched {
            Some(body) => {
                proof {
                    if spec_request(self@, id@) is Err {
                        lemma_request_failure(self@, id@, body@);
                    }
                }
                self.get(id, body)
            },
            None => match self.strategy {
                Strategy::StructuredData => Err(StoreError::Transport),
                Strategy::SearchApi => match parse(id) {
                    Ok(_) => Err(StoreError::Transport),
                    Err(error) => Err(error),
                },
            },
        }
    }
}

} // verus!
