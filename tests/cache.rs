use crypto_feed::cache::{ResponseCache, CACHE_CAPACITY};

fn s(x: &str) -> String {
    x.to_string()
}

#[test]
fn puts_beyond_capacity_keep_most_recent_keys() {
    let mut c = ResponseCache::new(3);
    for k in ["a", "b", "c", "d", "e"] {
        c.put(s(k), s(&format!("body-{k}")));
    }
    assert_eq!(c.get(&s("a")), None);
    assert_eq!(c.get(&s("b")), None);
    assert_eq!(c.get(&s("c")), Some(s("body-c")));
    assert_eq!(c.get(&s("d")), Some(s("body-d")));
    assert_eq!(c.get(&s("e")), Some(s("body-e")));
}

#[test]
fn repeated_key_counts_once_and_refreshes() {
    let mut c = ResponseCache::new(2);
    c.put(s("a"), s("1"));
    c.put(s("b"), s("2"));
    c.put(s("a"), s("3"));
    c.put(s("c"), s("4"));
    assert_eq!(c.get(&s("b")), None);
    assert_eq!(c.get(&s("a")), Some(s("3")));
    assert_eq!(c.get(&s("c")), Some(s("4")));
}

#[test]
fn get_refreshes_recency() {
    let mut c = ResponseCache::new(2);
    c.put(s("a"), s("1"));
    c.put(s("b"), s("2"));
    assert_eq!(c.get(&s("a")), Some(s("1")));
    c.put(s("c"), s("3"));
    assert_eq!(c.get(&s("b")), None);
    assert_eq!(c.get(&s("a")), Some(s("1")));
    assert_eq!(c.get(&s("c")), Some(s("3")));
}

#[test]
fn get_right_after_put_returns_value() {
    let mut c = ResponseCache::new(CACHE_CAPACITY);
    for i in 0..250 {
        let k = format!("k{i}");
        c.put(k.clone(), format!("v{i}"));
        assert_eq!(c.get(&k), Some(format!("v{i}")));
    }
    assert_eq!(c.get(&s("k149")), None);
    assert_eq!(c.get(&s("k150")), Some(s("v150")));
}

#[test]
fn zero_capacity_keeps_nothing() {
    let mut c = ResponseCache::new(0);
    c.put(s("a"), s("1"));
    assert_eq!(c.get(&s("a")), None);
}

#[test]
fn absent_key_is_none() {
    let mut c = ResponseCache::new(4);
    assert_eq!(c.get(&s("missing")), None);
}

