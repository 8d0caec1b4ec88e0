//! Sequences of characters: copying a string's characters out, and finding
//! one sequence inside another.

use vstd::prelude::*;
use vstd::std_specs::iter::IteratorSpec;

verus! {

/// `needle` stands in `hay` at position `at`.
pub open spec fn occurs_at(hay: Seq<char>, needle: Seq<char>, at: int) -> bool {
    &&& 0 <= at
    &&& at + needle.len() <= hay.len()
    &&& hay.subrange(at, at + needle.len()) == needle
}

/// The least position at or after `from` where `needle` stands in `hay`.
pub open spec fn spec_find(hay: Seq<char>, needle: Seq<char>, from: int) -> Option<int>
    decreases hay.len() + 1 - from,
{
    if from < 0 || from + needle.len() > hay.len() {
        None
    } else if occurs_at(hay, needle, from) {
        Some(from)
    } else {
        spec_find(hay, needle, from + 1)
    }
}

/// `spec_find` gives the first occurrence, and `None` only where there is none.
pub proof fn lemma_find_is_first(hay: Seq<char>, needle: Seq<char>, from: int)
    requires
        0 <= from,
    ensures
        match spec_find(hay, needle, from) {
            Some(at) => {
                &&& from <= at
                &&& occurs_at(hay, needle, at)
                &&& forall|j: int| from <= j < at ==> !occurs_at(hay, needle, j)
            },
            None => forall|j: int| from <= j ==> !occurs_at(hay, needle, j),
        },
    decreases hay.len() + 1 - from,
{
    if from + needle.len() > hay.len() {
    } else if occurs_at(hay, needle, from) {
    } else {
        lemma_find_is_first(hay, needle, from + 1);
    }
}

/// A position where `needle` stands, with none before it from `from` on, is
/// what `spec_find` gives.
pub proof fn lemma_first_is_found(hay: Seq<char>, needle: Seq<char>, from: int, at: int)
    requires
        0 <= from <= at,
        occurs_at(hay, needle, at),
        forall|j: int| from <= j < at ==> !occurs_at(hay, needle, j),
    ensures
        spec_find(hay, needle, from) == Some(at),
    decreases at - from,
{
    if from < at {
        lemma_first_is_found(hay, needle, from + 1, at);
    }
}

/// The characters of `text`, in order.
pub fn chars_of(text: &str) -> (chars: Vec<char>)
    ensures
        chars@ == text@,
{
    let mut chars: Vec<char> = Vec::new();
    let mut rest = text.chars();
    loop
        invariant
            chars@ + rest.remaining() == text@,
            rest.decrease() is Some,
        ensures
            chars@ == text@,
        decreases rest.decrease()->0,
    {
        broadcast use vstd::string::group_string_axioms;
        match rest.next() {
            Some(c) => {
                chars.push(c);
            },
            None => {
                assert(chars@ =~= chars@ + rest.remaining());
                break;
            },
        }
    }
    chars
}

/// Whether `needle` stands in `hay` at position `at`.
pub fn matches_at(hay: &Vec<char>, needle: &Vec<char>, at: usize) -> (hit: bool)
    requires
        at + needle@.len() <= hay@.len(),
    ensures
        hit == occurs_at(hay@, needle@, at as int),
{
    let mut k: usize = 0;
    while k < needle.len()
        invariant
            k <= needle@.len(),
            at + needle.len() <= hay.len(),
            forall|j: int| 0 <= j < k ==> hay@[at + j] == needle@[j],
        decreases needle@.len() - k,
    {
        if hay[at + k] != needle[k] {
            assert(hay@.subrange(at as int, at + needle@.len())[k as int] != needle@[k as int]);
            return false;
        }
        k += 1;
    }
    assert(hay@.subrange(at as int, at + needle@.len()) =~= needle@);
    true
}

/// The first position at or after `from` where `needle` stands in the first
/// `end` characters of `hay`.
pub fn find_before(hay: &Vec<char>, needle: &Vec<char>, from: usize, end: usize) -> (found: Option<
    usize,
>)
    requires
        end <= hay.len(),
    ensures
        found matches Some(at) ==> spec_find(hay@.take(end as int), needle@, from as int) == Some(
            at as int,
        ),
        found is None ==> spec_find(hay@.take(end as int), needle@, from as int) is None,
{
    if needle.len() > end || from > end - needle.len() {
        return None;
    }
    let ghost part = hay@.take(end as int);
    let last: usize = end - needle.len();
    let mut at: usize = from;
    loop
        invariant
            from <= at <= last,
            end <= hay.len(),
            last == end - needle@.len(),
            part == hay@.take(end as int),
            spec_find(part, needle@, from as int) == spec_find(part, needle@, at as int),
        decreases last - at,
    {
        assert(part.subrange(at as int, at + needle@.len()) =~= hay@.subrange(
            at as int,
            at + needle@.len(),
        ));
        if matches_at(hay, needle, at) {
            return Some(at);
        }
        if at == last {
            assert(spec_find(part, needle@, at + 1) is None);
            return None;
        }
        at += 1;
    }
}

/// The first position at or after `from` where `needle` stands in `hay`.
pub fn find(hay: &Vec<char>, needle: &Vec<char>, from: usize) -> (found: Option<usize>)
    ensures
        found matches Some(at) ==> spec_find(hay@, needle@, from as int) == Some(at as int),
        found is None ==> spec_find(hay@, needle@, from as int) is None,
{
    assert(hay@.take(hay.len() as int) =~= hay@);
    find_before(hay, needle, from, hay.len())
}

/// `String::push`: the string with `c` added at its end.
pub assume_specification[ String::push ](text: &mut String, c: char)
    ensures
        final(text)@ == old(text)@.push(c),
;

/// Adds the characters of `chars` from `from` up to `to` at the end of `out`.
pub fn append_range(out: &mut Vec<char>, chars: &Vec<char>, from: usize, to: usize)
    requires
        from <= to <= chars.len(),
    ensures
        final(out)@ == old(out)@ + chars@.subrange(from as int, to as int),
{
    let mut at: usize = from;
    while at < to
        invariant
            from <= at <= to <= chars.len(),
            out@ == old(out)@ + chars@.subrange(from as int, at as int),
        decreases to - at,
    {
        out.push(chars[at]);
        at += 1;
        assert(out@ =~= old(out)@ + chars@.subrange(from as int, at as int));
    }
    assert(out@ =~= old(out)@ + chars@.subrange(from as int, to as int));
}

/// Adds the characters of `chars` at the end of `out`.
pub fn push_chars(out: &mut String, chars: &Vec<char>)
    ensures
        final(out)@ == old(out)@ + chars@,
{
    let mut at: usize = 0;
    while at < chars.len()
        invariant
            at <= chars.len(),
            out@ == old(out)@ + chars@.take(at as int),
        decreases chars.len() - at,
    {
        out.push(chars[at]);
        at += 1;
        assert(out@ =~= old(out)@ + chars@.take(at as int));
    }
    assert(chars@.take(chars.len() as int) =~= chars@);
}

} // verus!
