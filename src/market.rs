//! Market data: the upstream record, the served snapshot, the
//! first-match-wins selection and the JSON body of a snapshot.

use crate::json::{append_opt, append_quoted, json_quoted, opt_json};
use crate::timestamp::append_char_text;
use vstd::prelude::*;

verus! {

/// A coin as the market-data upstream describes it. The two amounts are
/// held as the JSON number texts they were decoded as.
pub struct CoinRecord {
    pub id: String,
    pub symbol: String,
    pub name: String,
    pub current_price: String,
    pub market_cap: String,
    pub image: Option<String>,
}

/// A coin as this service serves it; the amounts are JSON number texts.
pub struct CryptoSnapshot {
    pub id: String,
    pub symbol: String,
    pub name: String,
    pub current_price: String,
    pub market_cap: String,
    pub image_url: Option<String>,
}

/// `s` carries the fields of `c`.
pub open spec fn snapshot_of(c: CoinRecord, s: CryptoSnapshot) -> bool {
    &&& s.id == c.id
    &&& s.symbol == c.symbol
    &&& s.name == c.name
    &&& s.current_price == c.current_price
    &&& s.market_cap == c.market_cap
    &&& s.image_url == c.image
}

/// The snapshot of the first record; `None` when there is no record.
pub fn first_match(coins: Vec<CoinRecord>) -> (r: Option<CryptoSnapshot>)
    ensures
        r.is_none() <==> coins@.len() == 0,
        r matches Some(s) ==> snapshot_of(coins@[0], s),
{
    let mut coins = coins;
    if coins.len() == 0 {
        return None;
    }
    let c = coins.swap_remove(0);
    Some(
        CryptoSnapshot {
            id: c.id,
            symbol: c.symbol,
            name: c.name,
            current_price: c.current_price,
            market_cap: c.market_cap,
            image_url: c.image,
        },
    )
}

/// The JSON object of a snapshot, its fields in declaration order.
pub open spec fn snapshot_json(s: CryptoSnapshot) -> Seq<char> {
    "{\"id\":"@ + json_quoted(s.id@) + ",\"symbol\":"@ + json_quoted(s.symbol@) + ",\"name\":"@
        + json_quoted(s.name@) + ",\"current_price\":"@ + s.current_price@ + ",\"market_cap\":"@
        + s.market_cap@ + ",\"image_url\":"@ + opt_json(s.image_url) + "}"@
}

/// The JSON object of a snapshot.
pub fn encode_snapshot(s: &CryptoSnapshot) -> (r: String)
    ensures
        r@ == snapshot_json(*s),
{
    let mut out = String::from_str("{\"id\":");
    append_quoted(&mut out, s.id.as_str());
    append_char_text(&mut out, ",\"symbol\":");
    append_quoted(&mut out, s.symbol.as_str());
    append_char_text(&mut out, ",\"name\":");
    append_quoted(&mut out, s.name.as_str());
    append_char_text(&mut out, ",\"current_price\":");
    append_char_text(&mut out, s.current_price.as_str());
    append_char_text(&mut out, ",\"market_cap\":");
    append_char_text(&mut out, s.market_cap.as_str());
    append_char_text(&mut out, ",\"image_url\":");
    append_opt(&mut out, &s.image_url);
    append_char_text(&mut out, "}");
    assert(out@ =~= snapshot_json(*s));
    out
}

} // verus!
