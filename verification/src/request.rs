//! The requests that the client sends to the Habr API, as plain descriptions:
//! a URL, query parameters and headers.
use vstd::prelude::*;

use crate::text::{decimal, decimal_u8};

verus! {

/// A GET request: its URL, its query parameters in order, and the headers it
/// adds to those of the client.
pub struct HttpRequest {
    pub url: String,
    pub query: Vec<(String, String)>,
    pub headers: Vec<(String, String)>,
}

pub struct RequestView {
    pub url: Seq<char>,
    pub query: Seq<(Seq<char>, Seq<char>)>,
    pub headers: Seq<(Seq<char>, Seq<char>)>,
}

pub open spec fn pairs_view(s: Seq<(String, String)>) -> Seq<(Seq<char>, Seq<char>)> {
    s.map_values(|p: (String, String)| (p.0@, p.1@))
}

impl View for HttpRequest {
    type V = RequestView;

    open spec fn view(&self) -> RequestView {
        RequestView { url: self.url@, query: pairs_view(self.query@), headers: pairs_view(self.headers@) }
    }
}

/// The cookie that selects the Russian feed and interface.
pub open spec fn spec_cookie() -> (Seq<char>, Seq<char>) {
    ("Cookie"@, "fl=ru; hl=ru;"@)
}

/// The language parameters that every request of the client carries.
pub open spec fn spec_language_query() -> Seq<(Seq<char>, Seq<char>)> {
    seq![("fl"@, "ru"@), ("hl"@, "ru"@)]
}

pub open spec fn articles_url() -> Seq<char> {
    "https://habr.com/kek/v2/articles/"@
}

pub open spec fn hubs_url() -> Seq<char> {
    "https://habr.com/kek/v2/hubs/"@
}

fn pair(name: &str, value: &str) -> (r: (String, String))
    ensures
        r.0@ == name@,
        r.1@ == value@,
{
    (String::from_str(name), String::from_str(value))
}

/// The headers that the client sends with every request.
pub fn default_headers() -> (r: Vec<(String, String)>)
    ensures
        pairs_view(r@) == seq![spec_cookie()],
{
    let mut r: Vec<(String, String)> = Vec::new();
    r.push(pair("Cookie", "fl=ru; hl=ru;"));
    assert(pairs_view(r@) =~= seq![spec_cookie()]);
    r
}

fn push_language_query(q: &mut Vec<(String, String)>)
    ensures
        pairs_view(final(q)@) == pairs_view(old(q)@) + spec_language_query(),
{
    q.push(pair("fl", "ru"));
    q.push(pair("hl", "ru"));
    assert(pairs_view(q@) =~= pairs_view(old(q)@) + spec_language_query());
}

/// A request of the client for `url`, with the language parameters.
pub fn setup_request(url: &str) -> (r: HttpRequest)
    ensures
        r@ == (RequestView { url: url@, query: spec_language_query(), headers: Seq::empty() }),
{
    let mut query: Vec<(String, String)> = Vec::new();
    push_language_query(&mut query);
    let r = HttpRequest { url: String::from_str(url), query, headers: Vec::new() };
    assert(r@.query =~= spec_language_query());
    assert(r@.headers =~= Seq::<(Seq<char>, Seq<char>)>::empty());
    r
}

/// The request for a page of the articles of a hub, fifteen to a page, in the
/// site's order.
pub fn articles_request(hub: &str, page: u8) -> (r: HttpRequest)
    ensures
        r@ == (RequestView {
            url: articles_url(),
            query: spec_language_query() + seq![
                ("page"@, decimal(page as nat)),
                ("hub"@, hub@),
                ("sort"@, "all"@),
                ("perPage"@, "15"@),
            ],
            headers: Seq::empty(),
        }),
{
    let mut r = setup_request("https://habr.com/kek/v2/articles/");
    let ghost q0 = pairs_view(r.query@);
    r.query.push((String::from_str("page"), decimal_u8(page)));
    r.query.push(pair("hub", hub));
    r.query.push(pair("sort", "all"));
    r.query.push(pair("perPage", "15"));
    assert(pairs_view(r.query@) =~= q0 + seq![
        ("page"@, decimal(page as nat)),
        ("hub"@, hub@),
        ("sort"@, "all"@),
        ("perPage"@, "15"@),
    ]);
    r
}

/// The request for the page of an article.
pub fn article_details_request(article_id: &str) -> (r: HttpRequest)
    ensures
        r@ == (RequestView {
            url: articles_url() + article_id@,
            query: spec_language_query(),
            headers: Seq::empty(),
        }),
{
    let url = String::from_str("https://habr.com/kek/v2/articles/").concat(article_id);
    setup_request(url.as_str())
}

/// The request for a page of the hub list, thirty to a page; it carries the
/// language cookie itself.
pub fn hubs_request(page: u8) -> (r: HttpRequest)
    ensures
        r@ == (RequestView {
            url: hubs_url(),
            query: seq![
                ("page"@, decimal(page as nat)),
                ("fl"@, "ru"@),
                ("hl"@, "ru"@),
                ("perPage"@, "30"@),
            ],
            headers: seq![spec_cookie()],
        }),
{
    let mut query: Vec<(String, String)> = Vec::new();
    query.push((String::from_str("page"), decimal_u8(page)));
    query.push(pair("fl", "ru"));
    query.push(pair("hl", "ru"));
    query.push(pair("perPage", "30"));
    let r = HttpRequest { url: String::from_str("https://habr.com/kek/v2/hubs/"), query, headers: default_headers() };
    assert(r@.query =~= seq![
        ("page"@, decimal(page as nat)),
        ("fl"@, "ru"@),
        ("hl"@, "ru"@),
        ("perPage"@, "30"@),
    ]);
    r
}

/// Every request of the client asks for the Russian feed and interface, and
/// the API lives under `https://habr.com/kek/v2/`.
pub proof fn lemma_request_constants()
    ensures
        spec_language_query() == seq![("fl"@, "ru"@), ("hl"@, "ru"@)],
        spec_cookie() == ("Cookie"@, "fl=ru; hl=ru;"@),
        articles_url() == "https://habr.com/kek/v2/articles/"@,
        hubs_url() == "https://habr.com/kek/v2/hubs/"@,
{
}

} // verus!
