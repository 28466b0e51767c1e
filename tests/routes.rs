use crypto_feed::cache::{ResponseCache, CACHE_CAPACITY};
use crypto_feed::handler::{
    cache_key, check_cache, finish_crypto, finish_news, market_url, news_url, CryptoOutcome,
    Lookup, NewsOutcome, Reply, RouteKind,
};
use crypto_feed::market::{encode_snapshot, first_match, CoinRecord, CryptoSnapshot};
use crypto_feed::news::{encode_articles, normalize_article, NewsArticle, UpstreamArticle};

fn bitcoin() -> CoinRecord {
    CoinRecord {
        id: "bitcoin".to_string(),
        symbol: "btc".to_string(),
        name: "Bitcoin".to_string(),
        current_price: "64000.5".to_string(),
        market_cap: "1.2e12".to_string(),
        image: Some("https://img/btc.png".to_string()),
    }
}

fn article(title: &str, source: Option<&str>) -> UpstreamArticle {
    UpstreamArticle {
        title: title.to_string(),
        description: None,
        url: format!("https://news/{}", title.len()),
        published_at: "2024-05-06T07:08:09Z".to_string(),
        source_name: source.map(|s| s.to_string()),
    }
}

fn hit_body(l: Lookup) -> Option<(u16, String)> {
    match l {
        Lookup::Hit(Reply { status, body }) => Some((status, body)),
        Lookup::Miss => None,
    }
}

#[test]
fn crypto_route_serves_second_call_from_cache() {
    let mut cache = ResponseCache::new(CACHE_CAPACITY);
    assert!(hit_body(check_cache(&mut cache, RouteKind::Crypto, "bitcoin")).is_none());
    let first = finish_crypto(&mut cache, "bitcoin", CryptoOutcome::Coins(vec![bitcoin()]));
    assert_eq!(first.status, 200);
    assert!(first.body.contains("\"id\":\"bitcoin\""));
    assert_eq!(
        first.body,
        "{\"id\":\"bitcoin\",\"symbol\":\"btc\",\"name\":\"Bitcoin\",\"current_price\":64000.5,\"market_cap\":1.2e12,\"image_url\":\"https://img/btc.png\"}"
    );
    let second = hit_body(check_cache(&mut cache, RouteKind::Crypto, "bitcoin"));
    assert_eq!(second, Some((200, first.body.clone())));
}

#[test]
fn empty_match_list_is_not_found() {
    let mut cache = ResponseCache::new(CACHE_CAPACITY);
    let r = finish_crypto(&mut cache, "doesnotexist123", CryptoOutcome::Coins(vec![]));
    assert_eq!(r.status, 404);
    assert_eq!(r.body, "\"Cryptocurrency not found\"");
    assert!(hit_body(check_cache(&mut cache, RouteKind::Crypto, "doesnotexist123")).is_none());
}

#[test]
fn crypto_errors_map_to_statuses() {
    let mut cache = ResponseCache::new(CACHE_CAPACITY);
    let r = finish_crypto(&mut cache, "bitcoin", CryptoOutcome::Unreachable);
    assert_eq!((r.status, r.body.as_str()), (500, "\"Failed to connect to CoinGecko API\""));
    let r = finish_crypto(&mut cache, "bitcoin", CryptoOutcome::NotFound);
    assert_eq!((r.status, r.body.as_str()), (404, "\"Cryptocurrency not found\""));
    let r = finish_crypto(&mut cache, "bitcoin", CryptoOutcome::Failed);
    assert_eq!((r.status, r.body.as_str()), (500, "\"Failed to fetch crypto data\""));
    let r = finish_crypto(&mut cache, "bitcoin", CryptoOutcome::Unparsable);
    assert_eq!((r.status, r.body.as_str()), (500, "\"Failed to parse crypto data\""));
    assert!(hit_body(check_cache(&mut cache, RouteKind::Crypto, "bitcoin")).is_none());
}

#[test]
fn news_route_defaults_missing_source() {
    let mut cache = ResponseCache::new(CACHE_CAPACITY);
    let v = vec![article("Ethereum rises", Some("Daily Coin")), article("Ethereum news", None)];
    let r = finish_news(&mut cache, "ethereum", NewsOutcome::Articles(v));
    assert_eq!(r.status, 200);
    assert_eq!(
        r.body,
        "[{\"title\":\"Ethereum rises\",\"description\":null,\"url\":\"https://news/14\",\"published_at\":\"2024-05-06 07:08:09\",\"source_name\":\"Daily Coin\",\"sentiment\":0.2},\
{\"title\":\"Ethereum news\",\"description\":null,\"url\":\"https://news/13\",\"published_at\":\"2024-05-06 07:08:09\",\"source_name\":\"Unknown\",\"sentiment\":0.0}]"
    );
    let again = hit_body(check_cache(&mut cache, RouteKind::News, "ethereum"));
    assert_eq!(again, Some((200, r.body.clone())));
    assert!(hit_body(check_cache(&mut cache, RouteKind::Crypto, "ethereum")).is_none());
}

#[test]
fn news_errors_map_to_server_error() {
    let mut cache = ResponseCache::new(CACHE_CAPACITY);
    let r = finish_news(&mut cache, "ethereum", NewsOutcome::Unreachable);
    assert_eq!((r.status, r.body.as_str()), (500, "\"Failed to fetch news\""));
    let r = finish_news(&mut cache, "ethereum", NewsOutcome::Unparsable);
    assert_eq!((r.status, r.body.as_str()), (500, "\"Failed to parse news\""));
    assert!(hit_body(check_cache(&mut cache, RouteKind::News, "ethereum")).is_none());
}

#[test]
fn empty_article_list_is_an_empty_array() {
    let mut cache = ResponseCache::new(CACHE_CAPACITY);
    let r = finish_news(&mut cache, "x", NewsOutcome::Articles(vec![]));
    assert_eq!((r.status, r.body.as_str()), (200, "[]"));
}

#[test]
fn keys_and_urls() {
    assert_eq!(cache_key(RouteKind::News, "Bitcoin"), "news_Bitcoin");
    assert_eq!(cache_key(RouteKind::Crypto, "bitcoin"), "crypto_bitcoin");
    assert_eq!(
        news_url("bitcoin", "SECRET-REDACTED"),
        "https://gnews.io/api/v4/search?q=bitcoin&lang=en&token=SECRET-REDACTED"
    );
    assert_eq!(
        market_url("bitcoin,ethereum"),
        "https://api.coingecko.com/api/v3/coins/markets?vs_currency=usd&ids=bitcoin,ethereum"
    );
}

#[test]
fn first_match_wins() {
    let mut second = bitcoin();
    second.id = "bitcoin-cash".to_string();
    let s = first_match(vec![bitcoin(), second]).unwrap();
    assert_eq!(s.id, "bitcoin");
    assert_eq!(s.image_url, Some("https://img/btc.png".to_string()));
    assert!(first_match(vec![]).is_none());
}

#[test]
fn strings_are_escaped_in_bodies() {
    let s = CryptoSnapshot {
        id: "a\"b".to_string(),
        symbol: "x\\y".to_string(),
        name: "line\nbreak".to_string(),
        current_price: "1".to_string(),
        market_cap: "2".to_string(),
        image_url: None,
    };
    assert_eq!(
        encode_snapshot(&s),
        "{\"id\":\"a\\\"b\",\"symbol\":\"x\\\\y\",\"name\":\"line\\nbreak\",\"current_price\":1,\"market_cap\":2,\"image_url\":null}"
    );
}

#[test]
fn normalized_article_fields() {
    let mut a = article("Bears drop the price", None);
    a.description = Some("desc".to_string());
    a.published_at = "garbage".to_string();
    let n = normalize_article(a);
    assert_eq!(n.source_name, "Unknown");
    assert_eq!(n.sentiment, Some(-40));
    assert_eq!(n.description, Some("desc".to_string()));
    assert_eq!(n.published_at.chars().count(), 19);
    let listed = encode_articles(&vec![NewsArticle {
        title: "t".to_string(),
        description: None,
        url: "u".to_string(),
        published_at: "p".to_string(),
        source_name: "s".to_string(),
        sentiment: Some(-100),
    }]);
    assert!(listed.ends_with("\"sentiment\":-1.0}]"));
}
