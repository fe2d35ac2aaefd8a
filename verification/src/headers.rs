//! The headers of a message from outside the ledger.

use crate::keys::PublicKey;
use crate::token::{token_model, TokenModel, TokenValue};
use vstd::hash_map::StringHashMap;
use vstd::prelude::*;

verus! {

/// After how many seconds a message expires if nothing else is asked for.
pub const DEFAULT_TIMEOUT: u32 = 60;

/// After how many seconds a message expires.
pub fn message_timeout(timeout: Option<u32>) -> (seconds: u32)
    ensures
        seconds == (match timeout {
            Some(t) => t,
            None => 60,
        }),
{
    match timeout {
        Some(t) => t,
        None => DEFAULT_TIMEOUT,
    }
}

/// When a message expires. `nekoton::core::models::ExpireAt::new_from_millis` makes the
/// time out of a timeout and the time of creation.
#[derive(Debug, Clone, Copy, PartialEq, Eq)]
pub struct ExpireAt {
    pub timestamp: u32,
}

/// The values of headers.
pub open spec fn headers_model(headers: Map<Seq<char>, TokenValue>) -> Map<Seq<char>, TokenModel> {
    headers.map_values(|value: TokenValue| token_model(value))
}

/// The headers: when the message was made, when it expires, and whose it is.
pub open spec fn default_headers_model(
    time: u64,
    expire_at: u32,
    public_key: Option<Seq<u8>>,
) -> Map<Seq<char>, TokenModel> {
    map![
        "time"@ => TokenModel::Time(time),
        "expire"@ => TokenModel::Expire(expire_at),
        "pubkey"@ => TokenModel::PublicKey(public_key),
    ]
}

/// An optional key over its bytes.
pub open spec fn optional_key(key: Option<&PublicKey>) -> Option<Seq<u8>> {
    match key {
        Some(k) => Some(k@),
        None => None,
    }
}

/// The headers of a message.
pub fn default_headers(
    time: u64,
    expire_at: ExpireAt,
    public_key: Option<&PublicKey>,
) -> (headers: (ExpireAt, StringHashMap<TokenValue>))
    ensures
        headers.0 == expire_at,
        headers_model(headers.1@) == default_headers_model(
            time,
            expire_at.timestamp,
            optional_key(public_key),
        ),
{
    let mut header: StringHashMap<TokenValue> = StringHashMap::with_capacity(3);
    let key: Option<PublicKey> = match public_key {
        Some(k) => Some(k.clone()),
        None => None,
    };
    header.insert("time".to_owned(), TokenValue::Time(time));
    header.insert("expire".to_owned(), TokenValue::Expire(expire_at.timestamp));
    header.insert("pubkey".to_owned(), TokenValue::PublicKey(key));
    proof {
        assert(headers_model(header@) =~= default_headers_model(
            time,
            expire_at.timestamp,
            optional_key(public_key),
        ));
    }
    (expire_at, header)
}

/// The three headers are there under their own names, and no other is.
pub proof fn default_headers_are_three(time: u64, expire_at: u32, public_key: Option<Seq<u8>>)
    ensures
        ({
            let headers = default_headers_model(time, expire_at, public_key);
            &&& headers.dom() == set!["time"@, "expire"@, "pubkey"@]
            &&& headers["time"@] == TokenModel::Time(time)
            &&& headers["expire"@] == TokenModel::Expire(expire_at)
            &&& headers["pubkey"@] == TokenModel::PublicKey(public_key)
        }),
{
    reveal_strlit("time");
    reveal_strlit("expire");
    reveal_strlit("pubkey");
    let headers = default_headers_model(time, expire_at, public_key);
    assert("time"@.len() == 4 && "expire"@.len() == 6 && "pubkey"@.len() == 6);
    assert("expire"@[0] == 'e' && "pubkey"@[0] == 'p');
    assert(headers.dom() =~= set!["time"@, "expire"@, "pubkey"@]);
}

} // verus!
