//! Compound identifiers: `pr<product_id>-<attribute_id>`.
//!
//! The product id names the parent product, the attribute id one variant of
//! it. An identifier is split at its first `-`; what stands before it is the
//! product segment, which carries the prefix `pr`.

use vstd::prelude::*;
use crate::error::{IdentifierDefect, StoreError};
use crate::text::{
    chars_of, find, lemma_find_is_first, lemma_first_is_found, occurs_at, spec_find,
};

verus! {

/// The separator between the two segments.
pub open spec fn separator() -> Seq<char> {
    seq!['-']
}

/// The prefix of the product segment.
pub open spec fn prefix() -> Seq<char> {
    seq!['p', 'r']
}

/// `text` starts with the prefix.
pub open spec fn has_prefix(text: Seq<char>) -> bool {
    text.len() >= 2 && text[0] == 'p' && text[1] == 'r'
}

/// The two segments of `id`: what stands before its first `-`, and what
/// stands after it.
pub open spec fn spec_split(id: Seq<char>) -> Option<(Seq<char>, Seq<char>)> {
    match spec_find(id, separator(), 0) {
        Some(at) => Some((id.take(at), id.skip(at + 1))),
        None => None,
    }
}

/// The product id and the attribute id of `id`, or what is wrong with it.
pub open spec fn spec_parse(id: Seq<char>) -> Result<(Seq<char>, Seq<char>), IdentifierDefect> {
    match spec_split(id) {
        None => Err(IdentifierDefect::MissingSeparator),
        Some((product, attribute)) => if has_prefix(product) {
            Ok((product.skip(2), attribute))
        } else {
            Err(IdentifierDefect::MissingProductPrefix)
        },
    }
}

/// The identifier of a product id and an attribute id.
pub open spec fn spec_compose(product_id: Seq<char>, attribute_id: Seq<char>) -> Seq<char> {
    prefix() + product_id + separator() + attribute_id
}

/// The two segments of `id`: the product segment with its prefix, and the
/// attribute segment. Fails where `id` holds no `-`.
pub fn split(id: &str) -> (segments: Result<(String, String), StoreError>)
    ensures
        match spec_split(id@) {
            Some((product, attribute)) => segments matches Ok(pair) && pair.0@ == product
                && pair.1@ == attribute,
            None => segments == Err::<(String, String), StoreError>(
                StoreError::MalformedIdentifier(IdentifierDefect::MissingSeparator),
            ),
        },
{
    let chars = chars_of(id);
    let mut dash: Vec<char> = Vec::new();
    dash.push('-');
    assert(dash@ =~= separator());
    match find(&chars, &dash, 0) {
        None => Err(StoreError::MalformedIdentifier(IdentifierDefect::MissingSeparator)),
        Some(at) => {
            proof {
                lemma_find_is_first(id@, separator(), 0);
                assert(occurs_at(id@, separator(), at as int));
                assert(at + 1 <= chars.len());
            }
            let product = id.substring_char(0, at).to_owned();
            let attribute = id.substring_char(at + 1, chars.len()).to_owned();
            Ok((product, attribute))
        },
    }
}

/// The product id and the attribute id of `id`. Fails where `id` holds no
/// `-`, and where what stands before the first `-` does not start with `pr`.
pub fn parse(id: &str) -> (parts: Result<(String, String), StoreError>)
    ensures
        match spec_parse(id@) {
            Ok((product_id, attribute_id)) => parts matches Ok(pair) && pair.0@ == product_id
                && pair.1@ == attribute_id,
            Err(defect) => parts == Err::<(String, String), StoreError>(
                StoreError::MalformedIdentifier(defect),
            ),
        },
{
    match split(id) {
        Err(error) => Err(error),
        Ok((product, attribute)) => {
            let chars = chars_of(product.as_str());
            if chars.len() >= 2 && chars[0] == 'p' && chars[1] == 'r' {
                let product_id = product.as_str().substring_char(2, chars.len()).to_owned();
                Ok((product_id, attribute))
            } else {
                Err(StoreError::MalformedIdentifier(IdentifierDefect::MissingProductPrefix))
            }
        },
    }
}

/// The identifier of a product id and an attribute id.
pub fn compose(product_id: &str, attribute_id: &str) -> (id: String)
    ensures
        id@ == spec_compose(product_id@, attribute_id@),
{
    let mut id = String::new();
    id.push('p');
    id.push('r');
    id.append(product_id);
    id.push('-');
    id.append(attribute_id);
    assert(id@ =~= spec_compose(product_id@, attribute_id@));
    id
}

/// Parsing undoes composing: for a product id that holds no `-`, the
/// composed identifier parses back into the two ids it was made of.
pub proof fn lemma_parse_compose(product_id: Seq<char>, attribute_id: Seq<char>)
    requires
        !product_id.contains('-'),
    ensures
        spec_parse(spec_compose(product_id, attribute_id)) == Ok::<
            (Seq<char>, Seq<char>),
            IdentifierDefect,
        >((product_id, attribute_id)),
{
    let id = spec_compose(product_id, attribute_id);
    let at = 2 + product_id.len() as int;
    assert(id[at] == '-');
    assert(id.subrange(at, at + 1) =~= separator());
    assert(occurs_at(id, separator(), at));
    assert forall|j: int| 0 <= j < at implies !occurs_at(id, separator(), j) by {
        if occurs_at(id, separator(), j) {
            assert(id.subrange(j, j + 1)[0] == '-');
            assert(id[j] == '-');
            if j >= 2 {
                assert(product_id[j - 2] == '-');
            }
        }
    }
    lemma_first_is_found(id, separator(), 0, at);
    let product = id.take(at);
    assert(product.skip(2) =~= product_id);
    assert(id.skip(at + 1) =~= attribute_id);
}

/// Composing undoes parsing: an identifier that parses is the composition of
/// its two ids, and its product id holds no `-`.
pub proof fn lemma_compose_parse(id: Seq<char>)
    requires
        spec_parse(id) is Ok,
    ensures
        spec_compose(spec_parse(id)->Ok_0.0, spec_parse(id)->Ok_0.1) == id,
        !spec_parse(id)->Ok_0.0.contains('-'),
{
    lemma_find_is_first(id, separator(), 0);
    let at = spec_find(id, separator(), 0)->0;
    let product = id.take(at);
    let product_id = product.skip(2);
    assert(id.subrange(at, at + 1)[0] == id[at]);
    assert(spec_compose(product_id, id.skip(at + 1)) =~= id);
    assert forall|k: int| 0 <= k < product_id.len() implies product_id[k] != '-' by {
        if product_id[k] == '-' {
            assert(id.subrange(k + 2, k + 3) =~= separator());
            assert(occurs_at(id, separator(), k + 2));
        }
    }
}

/// When parsing succeeds and how it fails: an identifier without a `-` lacks
/// its separator; one with a `-` parses where it starts with `pr`, and lacks
/// its prefix where it does not.
pub proof fn lemma_parse_outcome(id: Seq<char>)
    ensures
        !id.contains('-') <==> spec_parse(id) == Err::<(Seq<char>, Seq<char>), IdentifierDefect>(
            IdentifierDefect::MissingSeparator,
        ),
        id.contains('-') && has_prefix(id) <==> spec_parse(id) is Ok,
        id.contains('-') && !has_prefix(id) <==> spec_parse(id) == Err::<
            (Seq<char>, Seq<char>),
            IdentifierDefect,
        >(IdentifierDefect::MissingProductPrefix),
{
    lemma_find_is_first(id, separator(), 0);
    match spec_find(id, separator(), 0) {
        Some(at) => {
            assert(id.subrange(at, at + 1)[0] == id[at]);
            assert(id.contains('-'));
        },
        None => {
            if id.contains('-') {
                let k = choose|k: int| 0 <= k < id.len() && id[k] == '-';
                assert(id.subrange(k, k + 1) =~= separator());
                assert(occurs_at(id, separator(), k));
            }
        },
    }
}

} // verus!
