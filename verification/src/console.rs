//! The interactive query console route: serves the query collaborator's
//! browser page for a given endpoint URL, as HTML.

use vstd::prelude::*;

use crate::negotiate::ContentType;

verus! {

/// The console page's HTML for an endpoint URL. It is a function of the URL
/// alone; its pages of markup are not restated here.
pub uninterp spec fn console_page_of(url: Seq<char>) -> Seq<char>;

/// Relies on juniper::graphiql::graphiql_source: the interactive console
/// page for the given endpoint, without a subscriptions endpoint. The page
/// depends on the URLs alone.
#[verifier::external_body]
fn console_source(url: &str) -> (r: String)
    ensures
        r@ == console_page_of(url@),
{
    juniper::http::graphiql::graphiql_source(url, None)
}

/// The console route's reply: 200, `text/html`, and the console page for
/// the given endpoint URL.
pub fn console_route(url: &str) -> (r: (u16, ContentType, String))
    ensures
        r.0 == 200,
        r.1 == ContentType::Html,
        r.2@ == console_page_of(url@),
{
    (200, ContentType::Html, console_source(url))
}

} // verus!
