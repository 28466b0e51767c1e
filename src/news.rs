//! News articles: the upstream shape, the normalized shape, the mapping
//! between them and the JSON body of a list of articles.

use crate::json::{append_centi, append_opt, append_quoted, centi_text, json_quoted, opt_json};
use crate::sentiment::{analyze_sentiment, lower_of, score_of};
use crate::timestamp::{append_char_text, is_timestamp_text, published_at, rfc3339_fields, timestamp_text, WallClock};
use vstd::prelude::*;

verus! {

/// An article as the news search upstream describes it.
pub struct UpstreamArticle {
    pub title: String,
    pub description: Option<String>,
    pub url: String,
    pub published_at: String,
    /// The name of the source, where the upstream gives one.
    pub source_name: Option<String>,
}

/// An article as this service serves it.
pub struct NewsArticle {
    pub title: String,
    pub description: Option<String>,
    pub url: String,
    /// `YYYY-MM-DD HH:MM:SS`.
    pub published_at: String,
    pub source_name: String,
    /// The headline's sentiment in hundredths, within `[-100, 100]`.
    pub sentiment: Option<i32>,
}

/// The source name served for an upstream source: `Unknown` where there is none.
pub open spec fn source_or_unknown(o: Option<String>) -> Seq<char> {
    match o {
        Some(s) => s@,
        None => "Unknown"@,
    }
}

/// `n` is what `a` normalizes to: the same text fields, the source name or
/// `Unknown`, the headline's score, and a well-formed publication time that
/// renders the upstream one wherever that one parses.
pub open spec fn normalizes(a: UpstreamArticle, n: NewsArticle) -> bool {
    &&& n.title == a.title
    &&& n.description == a.description
    &&& n.url == a.url
    &&& n.source_name@ == source_or_unknown(a.source_name)
    &&& n.sentiment == Some(score_of(lower_of(a.title@)) as i32)
    &&& is_timestamp_text(n.published_at@)
    &&& rfc3339_fields(a.published_at@).is_some() ==> exists|w: WallClock|
        w.wf() && rfc3339_fields(a.published_at@) == Some(w.fields()) && n.published_at@
            == timestamp_text(w)
}

/// The sentiment of a served article lies in `[-100, 100]`.
pub open spec fn sentiment_in_range(n: NewsArticle) -> bool {
    match n.sentiment {
        Some(v) => -100 <= v <= 100,
        None => true,
    }
}

/// Maps an upstream article to the served shape. A publication time that
/// does not parse is replaced by the current time.
pub fn normalize_article(a: UpstreamArticle) -> (r: NewsArticle)
    ensures
        normalizes(a, r),
        sentiment_in_range(r),
{
    let score = analyze_sentiment(a.title.as_str());
    let (published, _fallback) = published_at(a.published_at.as_str());
    let source_name = match a.source_name {
        Some(s) => s,
        None => String::from_str("Unknown"),
    };
    NewsArticle {
        title: a.title,
        description: a.description,
        url: a.url,
        published_at: published,
        source_name,
        sentiment: Some(score),
    }
}

/// Maps each upstream article, in order.
pub fn normalize_articles(v: Vec<UpstreamArticle>) -> (r: Vec<NewsArticle>)
    ensures
        r@.len() == v@.len(),
        forall|i: int| 0 <= i < v@.len() ==> normalizes(#[trigger] v@[i], r@[i]),
        forall|i: int| 0 <= i < r@.len() ==> sentiment_in_range(#[trigger] r@[i]),
{
    let ghost orig = v@;
    let mut rest = v;
    let mut out: Vec<NewsArticle> = Vec::new();
    let n = rest.len();
    let mut i: usize = 0;
    while i < n
        invariant
            n == orig.len(),
            i <= n,
            rest@ == orig.subrange(i as int, n as int),
            out@.len() == i,
            forall|j: int| 0 <= j < i ==> normalizes(#[trigger] orig[j], out@[j]),
            forall|j: int| 0 <= j < i ==> sentiment_in_range(#[trigger] out@[j]),
        decreases n - i,
    {
        let a = rest.remove(0);
        assert(a == orig[i as int]);
        out.push(normalize_article(a));
        i = i + 1;
        assert(rest@ =~= orig.subrange(i as int, n as int));
    }
    out
}

/// The JSON number of an optional score, or `null`.
pub open spec fn sentiment_json(o: Option<i32>) -> Seq<char> {
    match o {
        Some(v) => centi_text(v as int),
        None => "null"@,
    }
}

/// The JSON object of an article, its fields in declaration order.
pub open spec fn article_json(n: NewsArticle) -> Seq<char> {
    "{\"title\":"@ + json_quoted(n.title@) + ",\"description\":"@ + opt_json(n.description)
        + ",\"url\":"@ + json_quoted(n.url@) + ",\"published_at\":"@ + json_quoted(
        n.published_at@,
    ) + ",\"source_name\":"@ + json_quoted(n.source_name@) + ",\"sentiment\":"@
        + sentiment_json(n.sentiment) + "}"@
}

/// The JSON objects of `s`, separated by commas.
pub open spec fn articles_items(s: Seq<NewsArticle>) -> Seq<char>
    decreases s.len(),
{
    if s.len() == 0 {
        Seq::empty()
    } else if s.len() == 1 {
        article_json(s[0])
    } else {
        articles_items(s.drop_last()) + ","@ + article_json(s.last())
    }
}

/// The JSON array of `s`.
pub open spec fn articles_json(s: Seq<NewsArticle>) -> Seq<char> {
    "["@ + articles_items(s) + "]"@
}

/// Appends the JSON object of an article.
fn append_article(out: &mut String, n: &NewsArticle)
    requires
        sentiment_in_range(*n),
    ensures
        final(out)@ == old(out)@ + article_json(*n),
{
    append_char_text(out, "{\"title\":");
    append_quoted(out, n.title.as_str());
    append_char_text(out, ",\"description\":");
    append_opt(out, &n.description);
    append_char_text(out, ",\"url\":");
    append_quoted(out, n.url.as_str());
    append_char_text(out, ",\"published_at\":");
    append_quoted(out, n.published_at.as_str());
    append_char_text(out, ",\"source_name\":");
    append_quoted(out, n.source_name.as_str());
    append_char_text(out, ",\"sentiment\":");
    match n.sentiment {
        Some(v) => append_centi(out, v),
        None => append_char_text(out, "null"),
    }
    append_char_text(out, "}");
    assert(final(out)@ =~= old(out)@ + article_json(*n));
}

/// The JSON array of the served articles.
pub fn encode_articles(v: &Vec<NewsArticle>) -> (r: String)
    requires
        forall|i: int| 0 <= i < v@.len() ==> sentiment_in_range(#[trigger] v@[i]),
    ensures
        r@ == articles_json(v@),
{
    let mut out = String::from_str("[");
    let mut i: usize = 0;
    while i < v.len()
        invariant
            i <= v@.len(),
            forall|j: int| 0 <= j < v@.len() ==> sentiment_in_range(#[trigger] v@[j]),
            out@ == "["@ + articles_items(v@.subrange(0, i as int)),
        decreases v@.len() - i,
    {
        if i > 0 {
            append_char_text(&mut out, ",");
        }
        append_article(&mut out, &v[i]);
        proof {
            let s = v@.subrange(0, i + 1);
            assert(s.drop_last() =~= v@.subrange(0, i as int));
            if i == 0 {
                assert(articles_items(v@.subrange(0, 0)) =~= Seq::<char>::empty());
                assert(out@ =~= "["@ + articles_items(s));
            } else {
                assert(out@ =~= "["@ + articles_items(s));
            }
        }
        i = i + 1;
    }
    assert(v@.subrange(0, i as int) =~= v@);
    append_char_text(&mut out, "]");
    out
}

} // verus!
