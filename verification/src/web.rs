//! The listing service's settings and the path prefix of its routes.

use vstd::prelude::*;
use crate::config::ConfigParams;
use crate::text::{chars_of, find, lemma_find_is_first, occurs_at, spec_find};

verus! {

/// The settings with which the listing service runs.
#[derive(Clone, Debug)]
pub struct WebHandler {
    db_file: String,
    port: u16,
    url_prefix: Option<String>,
}

/// What a `WebHandler` holds.
pub struct WebHandlerView {
    pub db_file: Seq<char>,
    pub port: u16,
    pub url_prefix: Option<Seq<char>>,
}

/// The text of a string that may be absent.
pub open spec fn optional_text(text: Option<String>) -> Option<Seq<char>> {
    match text {
        Some(inner) => Some(inner@),
        None => None,
    }
}

impl View for WebHandler {
    type V = WebHandlerView;

    closed spec fn view(&self) -> WebHandlerView {
        WebHandlerView {
            db_file: self.db_file@,
            port: self.port,
            url_prefix: optional_text(self.url_prefix),
        }
    }
}

/// The segments of a path prefix, and whether segments were left out.
#[derive(Debug)]
pub struct RoutePrefix {
    /// The segments under which the routes are mounted: none, one or two.
    pub segments: Vec<String>,
    /// The prefix held more than two segments; those past the second are
    /// left out.
    pub shortened: bool,
}

/// The separator of path segments.
pub open spec fn slash() -> Seq<char> {
    seq!['/']
}

/// The segments of a prefix: none where there is no prefix, else what
/// stands before its first `/` and, where there is a `/`, what stands
/// between it and the next `/` or the end.
pub open spec fn spec_prefix_segments(prefix: Option<Seq<char>>) -> Seq<Seq<char>> {
    match prefix {
        None => Seq::empty(),
        Some(path) => match spec_find(path, slash(), 0) {
            None => seq![path],
            Some(first) => {
                let rest = path.skip(first + 1);
                match spec_find(rest, slash(), 0) {
                    None => seq![path.take(first), rest],
                    Some(second) => seq![path.take(first), rest.take(second)],
                }
            },
        },
    }
}

/// The prefix holds more than two segments, that is two or more `/`.
pub open spec fn spec_prefix_shortened(prefix: Option<Seq<char>>) -> bool {
    match prefix {
        None => false,
        Some(path) => match spec_find(path, slash(), 0) {
            None => false,
            Some(first) => spec_find(path.skip(first + 1), slash(), 0) is Some,
        },
    }
}

/// The texts of a list of strings, in order.
pub open spec fn texts(list: Seq<String>) -> Seq<Seq<char>> {
    list.map_values(|text: String| text@)
}

impl WebHandler {
    /// The handler for the given settings.
    pub fn new(conf: &ConfigParams) -> (handler: WebHandler)
        ensures
            handler@ == (WebHandlerView {
                db_file: conf.db_file@,
                port: conf.port,
                url_prefix: optional_text(conf.url_prefix),
            }),
    {
        let url_prefix = match &conf.url_prefix {
            Some(prefix) => Some(prefix.clone()),
            None => None,
        };
        WebHandler { db_file: conf.db_file.clone(), port: conf.port, url_prefix }
    }

    /// The file that holds the stored records.
    pub fn db_file(&self) -> (file: &str)
        ensures
            file@ == self@.db_file,
    {
        self.db_file.as_str()
    }

    /// The port on which the service listens.
    pub fn port(&self) -> (port: u16)
        ensures
            port == self@.port,
    {
        self.port
    }

    /// The path under which the service is reached, if it is not the root.
    pub fn url_prefix(&self) -> (prefix: &Option<String>)
        ensures
            optional_text(*prefix) == self@.url_prefix,
    {
        &self.url_prefix
    }

    /// The segments under which the routes are mounted.
    pub fn prefix(&self) -> (route: RoutePrefix)
        ensures
            texts(route.segments@) == spec_prefix_segments(self@.url_prefix),
            route.shortened == spec_prefix_shortened(self@.url_prefix),
    {
        prefix_segments(&self.url_prefix)
    }
}

/// The segments of a path prefix: at most the first two of those that `/`
/// separates.
pub fn prefix_segments(prefix: &Option<String>) -> (route: RoutePrefix)
    ensures
        texts(route.segments@) == spec_prefix_segments(optional_text(*prefix)),
        route.shortened == spec_prefix_shortened(optional_text(*prefix)),
{
    let mut segments: Vec<String> = Vec::new();
    let path = match prefix {
        Some(path) => path.as_str(),
        None => {
            assert(texts(segments@) =~= Seq::<Seq<char>>::empty());
            return RoutePrefix { segments, shortened: false };
        },
    };
    let chars = chars_of(path);
    let mut bar: Vec<char> = Vec::new();
    bar.push('/');
    assert(bar@ =~= slash());
    let first = match find(&chars, &bar, 0) {
        Some(at) => at,
        None => {
            segments.push(path.to_owned());
            assert(texts(segments@) =~= seq![path@]);
            return RoutePrefix { segments, shortened: false };
        },
    };
    proof {
        lemma_find_is_first(path@, slash(), 0);
        assert(occurs_at(path@, slash(), first as int));
        assert(first + 1 <= chars.len());
    }
    let rest = path.substring_char(first + 1, chars.len());
    assert(rest@ =~= path@.skip(first + 1));
    let rest_chars = chars_of(rest);
    segments.push(path.substring_char(0, first).to_owned());
    match find(&rest_chars, &bar, 0) {
        None => {
            segments.push(rest.to_owned());
            assert(texts(segments@) =~= seq![path@.take(first as int), rest@]);
            RoutePrefix { segments, shortened: false }
        },
        Some(second) => {
            proof {
                lemma_find_is_first(rest@, slash(), 0);
                assert(occurs_at(rest@, slash(), second as int));
            }
            segments.push(rest.substring_char(0, second).to_owned());
            assert(texts(segments@) =~= seq![
                path@.take(first as int),
                rest@.take(second as int),
            ]);
            RoutePrefix { segments, shortened: true }
        },
    }
}

} // verus!
