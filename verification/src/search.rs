//! The queries that a run sends to the search.

use crate::config::Credentials;
use crate::post::GelbooruPost;
use crate::text::{decimal, decimal_string, join_spaced, joined, texts};
use vstd::prelude::*;

verus! {

/// How many posts a page of the search holds at most.
pub const PAGE_SIZE: usize = 100;

/// One query to the search: at most `limit` posts of page `page`.
#[derive(Clone, Copy, Debug, PartialEq, Eq, Structural)]
pub struct SearchRequest {
    pub limit: usize,
    pub page: usize,
}

/// A [`SearchRequest`] over the natural numbers.
pub struct SearchView {
    pub limit: nat,
    pub page: nat,
}

impl View for SearchRequest {
    type V = SearchView;

    open spec fn view(&self) -> SearchView {
        SearchView { limit: self.limit as nat, page: self.page as nat }
    }
}

/// One answer of the search: the count of all results, and the posts of
/// the page, which are absent behind the last page.
#[derive(Debug, PartialEq, Eq)]
pub struct SearchPage {
    pub count: usize,
    pub posts: Option<Vec<GelbooruPost>>,
}

impl SearchPage {
    /// The posts of the page; none where they are absent.
    pub open spec fn spec_posts(&self) -> Seq<GelbooruPost> {
        match self.posts {
            Some(posts) => posts@,
            None => Seq::empty(),
        }
    }

    /// Whether the page ends the results: its posts are absent or none.
    pub fn is_last(&self) -> (last: bool)
        ensures
            last == (self.spec_posts().len() == 0),
    {
        match &self.posts {
            Some(posts) => posts.len() == 0,
            None => true,
        }
    }

    /// Gives up the page for its posts; none where they are absent.
    pub fn into_posts(self) -> (posts: Vec<GelbooruPost>)
        ensures
            posts@ == self.spec_posts(),
    {
        match self.posts {
            Some(posts) => posts,
            None => Vec::new(),
        }
    }
}

/// The two credentials as plain text, if there are any.
pub open spec fn credentials_view(credentials: Option<Credentials>) -> Option<
    (Seq<char>, Seq<char>),
> {
    match credentials {
        Some(pair) => Some((pair.api_key@, pair.user_id@)),
        None => None,
    }
}

/// The parameters of a query, as names and values: the page size, the page
/// and the tags with a space between each two; behind them the two
/// credentials where there are any, and nothing where there are none.
pub open spec fn spec_query_params(
    request: SearchView,
    tags: Seq<Seq<char>>,
    credentials: Option<(Seq<char>, Seq<char>)>,
) -> Seq<(Seq<char>, Seq<char>)> {
    let query = seq![
        ("limit"@, decimal(request.limit)),
        ("pid"@, decimal(request.page)),
        ("tags"@, joined(tags, seq![' '])),
    ];
    match credentials {
        Some((api_key, user_id)) => query + seq![("api_key"@, api_key), ("user_id"@, user_id)],
        None => query,
    }
}

/// Names and values over plain text.
pub open spec fn pair_views(pairs: Seq<(String, String)>) -> Seq<(Seq<char>, Seq<char>)> {
    Seq::new(pairs.len(), |i: int| (pairs[i].0@, pairs[i].1@))
}

/// The parameters of a query, as names and values. The credentials are
/// named only where they are given.
pub fn query_params(
    request: SearchRequest,
    tags: &Vec<String>,
    credentials: &Option<Credentials>,
) -> (params: Vec<(String, String)>)
    ensures
        pair_views(params@) == spec_query_params(
            request@,
            texts(tags@),
            credentials_view(*credentials),
        ),
{
    let mut params: Vec<(String, String)> = Vec::new();
    params.push(("limit".to_owned(), decimal_string(request.limit)));
    params.push(("pid".to_owned(), decimal_string(request.page)));
    params.push(("tags".to_owned(), join_spaced(tags)));
    match credentials {
        Some(pair) => {
            params.push(("api_key".to_owned(), pair.api_key.clone()));
            params.push(("user_id".to_owned(), pair.user_id.clone()));
        },
        None => {},
    }
    assert(pair_views(params@) =~= spec_query_params(
        request@,
        texts(tags@),
        credentials_view(*credentials),
    ));
    params
}

} // verus!
