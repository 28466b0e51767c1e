//! A keyword heuristic that scores a headline between -1 and 1.
//!
//! Scores are kept in hundredths: each positive keyword found in the
//! lowercased text adds 20, each negative one takes 20 away, and the total is
//! clamped to `[-100, 100]`.

use vstd::prelude::*;

verus! {

/// What `str::to_lowercase` makes of a text.
pub uninterp spec fn lower_of(s: Seq<char>) -> Seq<char>;

/// Relies on `str::to_lowercase`: the result depends on the characters alone,
/// and an empty text stays empty.
#[verifier::external_body]
fn lowercase(s: &str) -> (r: String)
    ensures
        r@ == lower_of(s@),
        s@.len() == 0 ==> r@.len() == 0,
{
    s.to_lowercase()
}

/// The words that push a score up.
pub open spec fn positive_words() -> Seq<Seq<char>> {
    seq!["up"@, "rise"@, "bull"@, "growth"@, "positive"@]
}

/// The words that push a score down.
pub open spec fn negative_words() -> Seq<Seq<char>> {
    seq!["down"@, "fall"@, "bear"@, "drop"@, "negative"@]
}

/// Whether `word` occurs in `text` at position `i`.
pub open spec fn occurs_at(text: Seq<char>, word: Seq<char>, i: int) -> bool {
    0 <= i && i + word.len() <= text.len() && text.subrange(i, i + word.len()) == word
}

/// Whether `word` occurs anywhere in `text`.
pub open spec fn occurs_in(text: Seq<char>, word: Seq<char>) -> bool {
    exists|i: int| occurs_at(text, word, i)
}

/// The number of `words` that occur in `text`.
pub open spec fn hits(words: Seq<Seq<char>>, text: Seq<char>) -> int
    decreases words.len(),
{
    if words.len() == 0 {
        0
    } else {
        hits(words.drop_last(), text) + if occurs_in(text, words.last()) {
            1int
        } else {
            0int
        }
    }
}

/// `x` limited to `[lo, hi]`.
pub open spec fn clamp(x: int, lo: int, hi: int) -> int {
    if x < lo {
        lo
    } else if x > hi {
        hi
    } else {
        x
    }
}

/// The score, in hundredths, of an already lowercased text.
pub open spec fn score_of(lowered: Seq<char>) -> int {
    clamp(20 * hits(positive_words(), lowered) - 20 * hits(negative_words(), lowered), -100, 100)
}

/// Whether `word` occurs in `text` at position `i`.
fn occurs_at_exec(text: &str, word: &str, i: usize) -> (r: bool)
    requires
        i + word@.len() <= text@.len(),
        text@.len() <= usize::MAX,
    ensures
        r == occurs_at(text@, word@, i as int),
{
    let m = word.unicode_len();
    let mut j: usize = 0;
    while j < m
        invariant
            m == word@.len(),
            i + m <= text@.len(),
            text@.len() <= usize::MAX,
            j <= m,
            forall|l: int| 0 <= l < j ==> text@[i + l] == word@[l],
        decreases m - j,
    {
        if text.get_char(i + j) != word.get_char(j) {
            proof {
                assert(text@.subrange(i as int, i + m)[j as int] != word@[j as int]);
            }
            return false;
        }
        j = j + 1;
    }
    assert(text@.subrange(i as int, i + m) =~= word@);
    true
}

/// Whether `word` occurs anywhere in `text`.
pub fn occurs_in_exec(text: &str, word: &str) -> (r: bool)
    ensures
        r == occurs_in(text@, word@),
{
    let n = text.unicode_len();
    let m = word.unicode_len();
    if m > n {
        return false;
    }
    let mut i: usize = 0;
    loop
        invariant
            n == text@.len(),
            m == word@.len(),
            m <= n,
            i <= n - m,
            forall|p: int| 0 <= p < i ==> !occurs_at(text@, word@, p),
        decreases n - m - i,
    {
        if occurs_at_exec(text, word, i) {
            return true;
        }
        if i == n - m {
            return false;
        }
        i = i + 1;
    }
}

/// The number of `words` that occur in `text`.
fn count_hits(words: &[&str], text: &str) -> (r: u32)
    requires
        words@.len() <= 5,
    ensures
        r == hits(words@.map_values(|w: &str| w@), text@),
        r <= words@.len(),
{
    let ghost ws = words@.map_values(|w: &str| w@);
    let mut count: u32 = 0;
    let mut i: usize = 0;
    while i < words.len()
        invariant
            ws == words@.map_values(|w: &str| w@),
            words@.len() <= 5,
            i <= words@.len(),
            count == hits(ws.subrange(0, i as int), text@),
            count <= i,
        decreases words@.len() - i,
    {
        proof {
            assert(ws.subrange(0, i + 1).drop_last() =~= ws.subrange(0, i as int));
        }
        if occurs_in_exec(text, words[i]) {
            count = count + 1;
        }
        i = i + 1;
    }
    assert(ws.subrange(0, i as int) =~= ws);
    count
}

/// The score, in hundredths, of a text that is already lowercased.
pub fn score_lowered(lowered: &str) -> (r: i32)
    ensures
        r == score_of(lowered@),
        -100 <= r <= 100,
{
    let positive: [&str; 5] = ["up", "rise", "bull", "growth", "positive"];
    let negative: [&str; 5] = ["down", "fall", "bear", "drop", "negative"];
    assert(positive@.map_values(|w: &str| w@) =~= positive_words());
    assert(negative@.map_values(|w: &str| w@) =~= negative_words());
    let up = count_hits(&positive, lowered);
    let down = count_hits(&negative, lowered);
    let raw: i32 = 20 * (up as i32) - 20 * (down as i32);
    if raw < -100 {
        -100
    } else if raw > 100 {
        100
    } else {
        raw
    }
}

/// The sentiment of a headline in hundredths: the keyword score of its
/// lowercased form, always within `[-100, 100]`; an empty text scores 0.
pub fn analyze_sentiment(text: &str) -> (r: i32)
    ensures
        r == score_of(lower_of(text@)),
        -100 <= r <= 100,
        text@.len() == 0 ==> r == 0,
{
    let lowered = lowercase(text);
    let r = score_lowered(lowered.as_str());
    proof {
        if text@.len() == 0 {
            lemma_empty_scores_zero(lowered@);
        }
    }
    r
}

/// No keyword occurs in the empty text, so it scores 0.
pub proof fn lemma_empty_scores_zero(lowered: Seq<char>)
    requires
        lowered.len() == 0,
    ensures
        score_of(lowered) == 0,
{
    reveal_strlit("up");
    reveal_strlit("rise");
    reveal_strlit("bull");
    reveal_strlit("growth");
    reveal_strlit("positive");
    reveal_strlit("down");
    reveal_strlit("fall");
    reveal_strlit("bear");
    reveal_strlit("drop");
    reveal_strlit("negative");
    lemma_no_hits_in_empty(positive_words(), lowered);
    lemma_no_hits_in_empty(negative_words(), lowered);
}

proof fn lemma_no_hits_in_empty(words: Seq<Seq<char>>, text: Seq<char>)
    requires
        text.len() == 0,
        forall|i: int| 0 <= i < words.len() ==> #[trigger] words[i].len() > 0,
    ensures
        hits(words, text) == 0,
    decreases words.len(),
{
    if words.len() > 0 {
        lemma_no_hits_in_empty(words.drop_last(), text);
        assert(words[words.len() - 1].len() > 0);
    }
}

} // verus!
