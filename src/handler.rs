//! The decisions of the two routes, per request: look in the cache; on a
//! miss, fetch (the caller does that), then turn the upstream outcome into a
//! reply and store a successful body in the cache.

use crate::cache::{after_get, after_put, entries_wf, lemma_get_after_put, lookup, Entry, ResponseCache};
use crate::market::{encode_snapshot, first_match, snapshot_json, snapshot_of, CoinRecord};
use crate::news::{
    articles_json, encode_articles, normalize_articles, normalizes, NewsArticle, UpstreamArticle,
};
use crate::timestamp::append_char_text;
use vstd::prelude::*;

verus! {

pub const STATUS_OK: u16 = 200;

pub const STATUS_NOT_FOUND: u16 = 404;

pub const STATUS_SERVER_ERROR: u16 = 500;

/// The two routes, `/news/{identifier}` and `/crypto/{identifier}`.
#[derive(Clone, Copy, Debug, PartialEq, Eq)]
pub enum RouteKind {
    News,
    Crypto,
}

/// The cache key of a route and identifier: `news_<id>` or `crypto_<id>`.
pub open spec fn key_text(kind: RouteKind, ident: Seq<char>) -> Seq<char> {
    match kind {
        RouteKind::News => "news_"@ + ident,
        RouteKind::Crypto => "crypto_"@ + ident,
    }
}

/// The cache key of a route and identifier.
pub fn cache_key(kind: RouteKind, ident: &str) -> (r: String)
    ensures
        r@ == key_text(kind, ident@),
{
    let mut key = match kind {
        RouteKind::News => String::from_str("news_"),
        RouteKind::Crypto => String::from_str("crypto_"),
    };
    append_char_text(&mut key, ident);
    key
}

/// The search request of the news upstream for an identifier.
pub fn news_url(ident: &str, api_key: &str) -> (r: String)
    ensures
        r@ == "https://gnews.io/api/v4/search?q="@ + ident@ + "&lang=en&token="@ + api_key@,
{
    let mut url = String::from_str("https://gnews.io/api/v4/search?q=");
    append_char_text(&mut url, ident);
    append_char_text(&mut url, "&lang=en&token=");
    append_char_text(&mut url, api_key);
    url
}

/// The markets request of the market-data upstream for an identifier.
pub fn market_url(ident: &str) -> (r: String)
    ensures
        r@ == "https://api.coingecko.com/api/v3/coins/markets?vs_currency=usd&ids="@ + ident@,
{
    let mut url = String::from_str(
        "https://api.coingecko.com/api/v3/coins/markets?vs_currency=usd&ids=",
    );
    append_char_text(&mut url, ident);
    url
}

/// A body stored for a request is what the next lookup of that request
/// serves, in a cache that can hold an entry at all.
pub proof fn lemma_stored_reply_is_served(
    s: Seq<Entry>,
    kind: RouteKind,
    ident: Seq<char>,
    body: Seq<char>,
    cap: nat,
)
    requires
        entries_wf(s, cap),
        cap > 0,
    ensures
        lookup(after_put(s, key_text(kind, ident), body, cap), key_text(kind, ident)) == Some(body),
{
    lemma_get_after_put(s, key_text(kind, ident), body, cap);
}

/// An HTTP reply: a status and a JSON body.
pub struct Reply {
    pub status: u16,
    pub body: String,
}

/// A reply whose body is the JSON string `msg` (the messages hold nothing to escape).
fn message_reply(status: u16, msg: &str) -> (r: Reply)
    ensures
        r.status == status,
        r.body@ == "\""@ + msg@ + "\""@,
{
    let mut body = String::from_str("\"");
    append_char_text(&mut body, msg);
    append_char_text(&mut body, "\"");
    Reply { status, body }
}

/// What the cache says of a request.
pub enum Lookup {
    /// The stored body, served with status 200.
    Hit(Reply),
    /// Nothing stored: the upstream has to be asked.
    Miss,
}

/// Looks the request up in the cache; a hit becomes the most recently used entry.
pub fn check_cache(cache: &mut ResponseCache, kind: RouteKind, ident: &str) -> (r: Lookup)
    requires
        old(cache).wf(),
    ensures
        final(cache).wf(),
        final(cache).capacity() == old(cache).capacity(),
        final(cache)@ == after_get(old(cache)@, key_text(kind, ident@)),
        match r {
            Lookup::Hit(reply) => reply.status == 200 && lookup(
                old(cache)@,
                key_text(kind, ident@),
            ) == Some(reply.body@),
            Lookup::Miss => lookup(old(cache)@, key_text(kind, ident@)) == None::<Seq<char>>,
        },
{
    let key = cache_key(kind, ident);
    match cache.get(&key) {
        Some(body) => Lookup::Hit(Reply { status: STATUS_OK, body }),
        None => Lookup::Miss,
    }
}

/// What came of asking the news upstream.
pub enum NewsOutcome {
    /// No response arrived (connection failure or timeout).
    Unreachable,
    /// A response arrived whose body is not a list of articles.
    Unparsable,
    /// The articles of the response, in order.
    Articles(Vec<UpstreamArticle>),
}

/// The reply to a news request after the upstream was asked; a successful
/// body is stored under the request's key.
pub fn finish_news(cache: &mut ResponseCache, ident: &str, outcome: NewsOutcome) -> (r: Reply)
    requires
        old(cache).wf(),
    ensures
        final(cache).wf(),
        final(cache).capacity() == old(cache).capacity(),
        match outcome {
            NewsOutcome::Unreachable => r.status == 500 && r.body@ == "\"Failed to fetch news\""@
                && final(cache)@ == old(cache)@,
            NewsOutcome::Unparsable => r.status == 500 && r.body@ == "\"Failed to parse news\""@
                && final(cache)@ == old(cache)@,
            NewsOutcome::Articles(v) => r.status == 200 && final(cache)@ == after_put(
                old(cache)@,
                key_text(RouteKind::News, ident@),
                r.body@,
                old(cache).capacity(),
            ) && exists|ns: Seq<NewsArticle>|
                ns.len() == v@.len() && (forall|i: int|
                    0 <= i < v@.len() ==> normalizes(#[trigger] v@[i], ns[i])) && r.body@
                    == articles_json(ns),
        },
{
    match outcome {
        NewsOutcome::Unreachable => {
            let r = message_reply(STATUS_SERVER_ERROR, "Failed to fetch news");
            proof {
                reveal_strlit("\"");
                reveal_strlit("Failed to fetch news");
                reveal_strlit("\"Failed to fetch news\"");
                assert(r.body@ =~= "\"Failed to fetch news\""@);
            }
            r
        },
        NewsOutcome::Unparsable => {
            let r = message_reply(STATUS_SERVER_ERROR, "Failed to parse news");
            proof {
                reveal_strlit("\"");
                reveal_strlit("Failed to parse news");
                reveal_strlit("\"Failed to parse news\"");
                assert(r.body@ =~= "\"Failed to parse news\""@);
            }
            r
        },
        NewsOutcome::Articles(v) => {
            let articles = normalize_articles(v);
            let body = encode_articles(&articles);
            let key = cache_key(RouteKind::News, ident);
            cache.put(key, body.clone());
            Reply { status: STATUS_OK, body }
        },
    }
}

/// What came of asking the market-data upstream.
pub enum CryptoOutcome {
    /// No response arrived (connection failure or timeout).
    Unreachable,
    /// The upstream answered 404.
    NotFound,
    /// The upstream answered with another unsuccessful status.
    Failed,
    /// A successful response whose body is not a list of coins.
    Unparsable,
    /// The coins of a successful response, in order.
    Coins(Vec<CoinRecord>),
}

/// The reply to a market-data request after the upstream was asked: the
/// first coin on success, 404 when there is none; a successful body is
/// stored under the request's key.
pub fn finish_crypto(cache: &mut ResponseCache, ident: &str, outcome: CryptoOutcome) -> (r: Reply)
    requires
        old(cache).wf(),
    ensures
        final(cache).wf(),
        final(cache).capacity() == old(cache).capacity(),
        r.status != 200 ==> final(cache)@ == old(cache)@,
        match outcome {
            CryptoOutcome::Unreachable => r.status == 500 && r.body@
                == "\"Failed to connect to CoinGecko API\""@,
            CryptoOutcome::NotFound => r.status == 404 && r.body@ == "\"Cryptocurrency not found\""@,
            CryptoOutcome::Failed => r.status == 500 && r.body@ == "\"Failed to fetch crypto data\""@,
            CryptoOutcome::Unparsable => r.status == 500 && r.body@
                == "\"Failed to parse crypto data\""@,
            CryptoOutcome::Coins(v) => if v@.len() == 0 {
                r.status == 404 && r.body@ == "\"Cryptocurrency not found\""@
            } else {
                r.status == 200 && final(cache)@ == after_put(
                    old(cache)@,
                    key_text(RouteKind::Crypto, ident@),
                    r.body@,
                    old(cache).capacity(),
                ) && exists|s| snapshot_of(v@[0], s) && r.body@ == snapshot_json(s)
            },
        },
{
    proof {
        reveal_strlit("\"");
        reveal_strlit("Failed to connect to CoinGecko API");
        reveal_strlit("\"Failed to connect to CoinGecko API\"");
        reveal_strlit("Cryptocurrency not found");
        reveal_strlit("\"Cryptocurrency not found\"");
        reveal_strlit("Failed to fetch crypto data");
        reveal_strlit("\"Failed to fetch crypto data\"");
        reveal_strlit("Failed to parse crypto data");
        reveal_strlit("\"Failed to parse crypto data\"");
    }
    match outcome {
        CryptoOutcome::Unreachable => {
            let r = message_reply(STATUS_SERVER_ERROR, "Failed to connect to CoinGecko API");
            assert(r.body@ =~= "\"Failed to connect to CoinGecko API\""@);
            r
        },
        CryptoOutcome::NotFound => {
            let r = message_reply(STATUS_NOT_FOUND, "Cryptocurrency not found");
            assert(r.body@ =~= "\"Cryptocurrency not found\""@);
            r
        },
        CryptoOutcome::Failed => {
            let r = message_reply(STATUS_SERVER_ERROR, "Failed to fetch crypto data");
            assert(r.body@ =~= "\"Failed to fetch crypto data\""@);
            r
        },
        CryptoOutcome::Unparsable => {
            let r = message_reply(STATUS_SERVER_ERROR, "Failed to parse crypto data");
            assert(r.body@ =~= "\"Failed to parse crypto data\""@);
            r
        },
        CryptoOutcome::Coins(v) => {
            match first_match(v) {
                Some(s) => {
                    let body = encode_snapshot(&s);
                    let key = cache_key(RouteKind::Crypto, ident);
                    cache.put(key, body.clone());
                    Reply { status: STATUS_OK, body }
                },
                None => {
                    let r = message_reply(STATUS_NOT_FOUND, "Cryptocurrency not found");
                    assert(r.body@ =~= "\"Cryptocurrency not found\""@);
                    r
                },
            }
        },
    }
}

} // verus!
