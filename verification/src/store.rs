//! The record that every extraction produces, and the store that produces it.

use vstd::prelude::*;
use crate::decimal::{spec_display, Decimal, DecimalView};
use crate::error::StoreError;

pub mod eva;

verus! {

/// The two ways in which a store's data is obtained.
#[derive(Clone, Copy, Debug, PartialEq, Eq, Structural)]
pub enum Strategy {
    /// From the structured-data block of the product page.
    StructuredData,
    /// From the catalog search service.
    SearchApi,
}

/// A product variant with its price, as a store reports it.
#[derive(Clone, Debug, PartialEq, Eq)]
pub struct ItemInfo {
    /// The short name of the store.
    pub store: String,
    /// The compound identifier that the caller gave.
    pub id: String,
    /// The name of the product variant.
    pub name: String,
    /// The price in hundredths of the currency unit.
    pub price: i64,
    /// The price as shown to a reader, or a note that the variant is out of
    /// stock.
    pub price_str: String,
    /// The address of the product page.
    pub url: String,
}

/// What an `ItemInfo` holds.
pub struct ItemView {
    pub store: Seq<char>,
    pub id: Seq<char>,
    pub name: Seq<char>,
    pub price: int,
    pub price_str: Seq<char>,
    pub url: Seq<char>,
}

impl View for ItemInfo {
    type V = ItemView;

    open spec fn view(&self) -> ItemView {
        ItemView {
            store: self.store@,
            id: self.id@,
            name: self.name@,
            price: self.price as int,
            price_str: self.price_str@,
            url: self.url@,
        }
    }
}

/// `outcome` is the record or the failure that `expected` names.
pub open spec fn agrees(outcome: Result<ItemInfo, StoreError>, expected: Result<ItemView, StoreError>) -> bool {
    match expected {
        Ok(view) => outcome matches Ok(item) && item@ == view,
        Err(error) => outcome matches Err(e) && e == error,
    }
}

/// The currency sign.
pub open spec fn currency() -> Seq<char> {
    seq!['\u{20b4}']
}

/// The price as shown: the currency sign and the amount where the variant is
/// in stock, a fixed note where it is not.
pub open spec fn spec_price_label(price: DecimalView, in_stock: bool) -> Seq<char> {
    if in_stock {
        currency() + spec_display(price)
    } else {
        "Out of stock"@
    }
}

/// A record is complete: it has a name, and its price is not below zero.
pub open spec fn complete(item: ItemView) -> bool {
    item.name.len() > 0 && item.price >= 0
}

impl ItemInfo {
    /// A record of `store` for `id` with nothing else filled in.
    pub fn new(store: &str, id: &str) -> (item: ItemInfo)
        ensures
            item@ == (ItemView {
                store: store@,
                id: id@,
                name: Seq::empty(),
                price: 0,
                price_str: Seq::empty(),
                url: Seq::empty(),
            }),
    {
        ItemInfo {
            store: store.to_owned(),
            id: id.to_owned(),
            name: String::new(),
            price: 0,
            price_str: String::new(),
            url: String::new(),
        }
    }
}

/// The price as shown.
pub fn price_label(price: &Decimal, in_stock: bool) -> (label: String)
    ensures
        label@ == spec_price_label(price@, in_stock),
{
    if in_stock {
        let mut label = String::new();
        label.push('\u{20b4}');
        label.append(price.display().as_str());
        assert(label@ =~= currency() + spec_display(price@));
        label
    } else {
        "Out of stock".to_owned()
    }
}

} // verus!
