//! The failures of an extraction.

use vstd::prelude::*;

verus! {

/// What is wrong with a compound identifier.
#[derive(Clone, Copy, Debug, PartialEq, Eq, Structural)]
pub enum IdentifierDefect {
    /// It holds no `-` between product and attribute.
    MissingSeparator,
    /// Its product segment does not start with `pr`.
    MissingProductPrefix,
}

/// A field that a structured-data block must carry.
#[derive(Clone, Copy, Debug, PartialEq, Eq, Structural)]
pub enum Field {
    /// The number under `offers`, `price`.
    OffersPrice,
    /// The string under `name`.
    Name,
}

/// Why an extraction failed. Every failure ends the call that met it.
#[derive(Clone, Copy, Debug, PartialEq, Eq, Structural)]
pub enum StoreError {
    /// The compound identifier lacks its separator or its prefix.
    MalformedIdentifier(IdentifierDefect),
    /// The fetcher obtained no response.
    Transport,
    /// A fetched document lacks the markers that frame its data.
    ExtractionFormat,
    /// A payload is not valid JSON.
    JsonParse,
    /// A required field is absent or of the wrong type.
    MissingField(Field),
    /// A document or a value in it does not have the expected shape.
    SchemaMismatch,
    /// No variant matches the requested attribute, or the one that does has
    /// no usable name or price.
    ProductVariantNotFound,
}

/// The message of each failure.
pub open spec fn spec_message(error: StoreError) -> Seq<char> {
    match error {
        StoreError::MalformedIdentifier(IdentifierDefect::MissingSeparator) => "Failed to parse ID"@,
        StoreError::MalformedIdentifier(IdentifierDefect::MissingProductPrefix) => "Failed to extract product ID"@,
        StoreError::Transport => "Failed to fetch data"@,
        StoreError::ExtractionFormat => "Failed to find structured data"@,
        StoreError::JsonParse => "Failed to parse JSON"@,
        StoreError::MissingField(Field::OffersPrice) => "Failed to read field offers.price"@,
        StoreError::MissingField(Field::Name) => "Failed to read field name"@,
        StoreError::SchemaMismatch => "Failed to match data shape"@,
        StoreError::ProductVariantNotFound => "Failed to find product sub-type"@,
    }
}

impl StoreError {
    /// The text that a caller shows for this failure.
    pub fn message(&self) -> (text: String)
        ensures
            text@ == spec_message(*self),
    {
        let text: &str = match self {
            StoreError::MalformedIdentifier(IdentifierDefect::MissingSeparator) => "Failed to parse ID",
            StoreError::MalformedIdentifier(IdentifierDefect::MissingProductPrefix) => "Failed to extract product ID",
            StoreError::Transport => "Failed to fetch data",
            StoreError::ExtractionFormat => "Failed to find structured data",
            StoreError::JsonParse => "Failed to parse JSON",
            StoreError::MissingField(Field::OffersPrice) => "Failed to read field offers.price",
            StoreError::MissingField(Field::Name) => "Failed to read field name",
            StoreError::SchemaMismatch => "Failed to match data shape",
            StoreError::ProductVariantNotFound => "Failed to find product sub-type",
        };
        text.to_owned()
    }
}

} // verus!
