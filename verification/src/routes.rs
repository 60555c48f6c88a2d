//! The rules of the HTTP API: bearer-token authorisation and the assembly of
//! a batch lookup.

use vstd::prelude::*;

use crate::error::{AppError, ErrorBody};
use crate::geoip::LookupResult;
use crate::text::{non_blank, non_blank_text, option_text};

verus! {

/// A byte that `HeaderValue::to_str` accepts: visible ASCII or a tab.
pub open spec fn is_visible_ascii(b: u8) -> bool {
    (32 <= b && b < 127) || b == 9
}

/// The text of ASCII bytes, one character per byte.
pub open spec fn ascii_text(bytes: Seq<u8>) -> Seq<char> {
    bytes.map_values(|b: u8| b as char)
}

/// The `Authorization` header value that a token requires.
pub open spec fn bearer_header(token: Seq<char>) -> Seq<char> {
    "Bearer "@ + token
}

/// Whether a request is let through: always when no token is configured,
/// otherwise only when its `Authorization` header is readable text (visible
/// ASCII) equal to `Bearer <token>`.
pub open spec fn authorized(expected_token: Option<Seq<char>>, header: Option<Seq<u8>>) -> bool {
    match expected_token {
        None => true,
        Some(token) => match header {
            None => false,
            Some(h) => (forall|i: int| 0 <= i < h.len() ==> is_visible_ascii(#[trigger] h[i]))
                && ascii_text(h) == bearer_header(token),
        },
    }
}

/// The token a server is configured with: trimmed, and none when blank.
pub fn normalize_bearer_token(token: String) -> (r: Option<String>)
    ensures
        option_text(r) == non_blank(token@),
{
    non_blank_text(token.as_str())
}

/// Whether the header bytes `header` read `Bearer <token>` and are all
/// visible ASCII.
fn header_matches(header: &[u8], token: &str) -> (r: bool)
    ensures
        r == ((forall|i: int| 0 <= i < header@.len() ==> is_visible_ascii(#[trigger] header@[i]))
            && ascii_text(header@) == bearer_header(token@)),
{
    proof {
        reveal_strlit("Bearer ");
    }
    let n = header.len();
    let mut i: usize = 0;
    while i < n
        invariant
            i <= n,
            n == header@.len(),
            forall|k: int| 0 <= k < i ==> is_visible_ascii(#[trigger] header@[k]),
        decreases n - i,
    {
        let b = header[i];
        if !((32 <= b && b < 127) || b == 9) {
            return false;
        }
        i = i + 1;
    }
    let ghost expected = bearer_header(token@);
    let t = token.unicode_len();
    if n < 7 || n - 7 != t {
        assert(ascii_text(header@).len() != expected.len());
        return false;
    }
    let prefix: [u8; 7] = [66, 101, 97, 114, 101, 114, 32];
    let mut j: usize = 0;
    while j < n
        invariant
            j <= n,
            n == header@.len(),
            n == t + 7,
            t == token@.len(),
            expected == bearer_header(token@),
            expected.len() == n,
            prefix@ == seq![66u8, 101u8, 97u8, 114u8, 101u8, 114u8, 32u8],
            "Bearer "@ == seq!['B', 'e', 'a', 'r', 'e', 'r', ' '],
            forall|k: int| 0 <= k < j ==> #[trigger] ascii_text(header@)[k] == expected[k],
        decreases n - j,
    {
        let c: char = if j < 7 {
            prefix[j] as char
        } else {
            token.get_char(j - 7)
        };
        assert(c == expected[j as int]);
        if c != header[j] as char {
            assert(ascii_text(header@)[j as int] != expected[j as int]);
            return false;
        }
        j = j + 1;
    }
    assert(ascii_text(header@) =~= expected);
    true
}

/// Lets a request through, or refuses it as unauthorised.  `expected_token`
/// is the configured token; `header` is the bytes of the request's
/// `Authorization` header, if it has one.
pub fn authorize(expected_token: &Option<String>, header: Option<&[u8]>) -> (r: Result<(), AppError>)
    ensures
        r matches Ok(_) <==> authorized(
            option_text(*expected_token),
            match header {
                Some(h) => Some(h@),
                None => None,
            },
        ),
        r matches Err(e) ==> e == AppError::Unauthorized,
{
    match expected_token {
        None => Ok(()),
        Some(token) => match header {
            None => Err(AppError::Unauthorized),
            Some(h) => {
                if header_matches(h, token.as_str()) {
                    Ok(())
                } else {
                    Err(AppError::Unauthorized)
                }
            },
        },
    }
}

/// One address of a batch that could not be looked up.
#[derive(Debug, Clone)]
pub struct BatchLookupError {
    pub ip: String,
    pub error: ErrorBody,
}

/// The result for one address of a batch.
#[derive(Debug, Clone)]
pub enum BatchLookupItem {
    Success(LookupResult),
    Error(BatchLookupError),
}

/// The response to a batch lookup.
#[derive(Debug, Clone)]
pub struct BatchLookupResponse {
    pub results: Vec<BatchLookupItem>,
}

/// `item` reports `error` for the address text `ip`.
pub open spec fn is_error_item(item: BatchLookupItem, ip: String, error: AppError) -> bool {
    item matches BatchLookupItem::Error(e) && e.ip == ip && e.error.code@ == error.spec_code()
        && e.error.message@ == error.spec_message()
}

/// `item` is the batch entry for the address text `ip` whose lookup ended
/// with `outcome` (an outcome other than an unavailable database).
pub open spec fn is_item_for(
    item: BatchLookupItem,
    ip: String,
    outcome: Result<LookupResult, AppError>,
) -> bool {
    match outcome {
        Ok(result) => item == BatchLookupItem::Success(result),
        Err(error) => is_error_item(item, ip, error),
    }
}

impl BatchLookupItem {
    /// The entry for an address that could not be looked up: the address as
    /// the client sent it, with the error's public code and message.
    pub fn error(ip: String, error: AppError) -> (item: Self)
        ensures
            is_error_item(item, ip, error),
    {
        BatchLookupItem::Error(BatchLookupError { ip, error: error.body() })
    }
}

/// A batch lookup in progress: the entries of the addresses looked up so
/// far, in request order.
pub struct BatchLookup {
    pub results: Vec<BatchLookupItem>,
}

impl BatchLookup {
    /// Begins a batch.  Without a loaded database the batch fails at once,
    /// before any address is read.
    pub fn start(database_loaded: bool) -> (r: Result<Self, AppError>)
        ensures
            database_loaded ==> (r matches Ok(b) && b.results@.len() == 0),
            !database_loaded ==> r == Err::<Self, AppError>(AppError::DatabaseUnavailable),
    {
        if database_loaded {
            Ok(BatchLookup { results: Vec::new() })
        } else {
            Err(AppError::DatabaseUnavailable)
        }
    }

    /// Records the outcome of looking up the address text `ip` (parsing it
    /// and then reading the database).  Each address adds exactly one entry
    /// at the end, whether it succeeded or failed; only a database that has
    /// become unavailable fails the whole batch.
    pub fn record(&mut self, ip: String, outcome: Result<LookupResult, AppError>) -> (r: Result<
        (),
        AppError,
    >)
        ensures
            outcome matches Err(AppError::DatabaseUnavailable) ==> r == Err::<(), AppError>(
                AppError::DatabaseUnavailable,
            ) && final(self).results@ == old(self).results@,
            !(outcome matches Err(AppError::DatabaseUnavailable)) ==> r is Ok
                && final(self).results@.len() == old(self).results@.len() + 1
                && final(self).results@.drop_last() == old(self).results@ && is_item_for(
                final(self).results@.last(),
                ip,
                outcome,
            ),
    {
        match outcome {
            Ok(result) => {
                self.results.push(BatchLookupItem::Success(result));
                assert(self.results@.drop_last() =~= old(self).results@);
                Ok(())
            },
            Err(AppError::DatabaseUnavailable) => Err(AppError::DatabaseUnavailable),
            Err(error) => {
                self.results.push(BatchLookupItem::error(ip, error));
                assert(self.results@.drop_last() =~= old(self).results@);
                Ok(())
            },
        }
    }

    /// The response with every recorded entry, in request order.
    pub fn finish(self) -> (response: BatchLookupResponse)
        ensures
            response.results@ == self.results@,
    {
        BatchLookupResponse { results: self.results }
    }
}

/// The bytes of `Bearer ` that start an `Authorization` header.
pub open spec fn bearer_prefix_bytes() -> Seq<u8> {
    seq![66u8, 101u8, 97u8, 114u8, 101u8, 114u8, 32u8]
}

/// A request whose `Authorization` header is `Bearer ` followed by the
/// configured token is let through, for every token of visible ASCII; and
/// with a token configured, a request without the header is refused.
pub proof fn lemma_bearer_header_accepted(token: Seq<u8>)
    requires
        forall|i: int| 0 <= i < token.len() ==> is_visible_ascii(#[trigger] token[i]),
    ensures
        authorized(Some(ascii_text(token)), Some(bearer_prefix_bytes() + token)),
        !authorized(Some(ascii_text(token)), None),
{
    reveal_strlit("Bearer ");
    let h = bearer_prefix_bytes() + token;
    let expected = bearer_header(ascii_text(token));
    assert forall|i: int| 0 <= i < h.len() implies is_visible_ascii(#[trigger] h[i]) by {
        if i >= 7 {
            assert(h[i] == token[i - 7]);
        }
    }
    assert forall|i: int| 0 <= i < h.len() implies #[trigger] ascii_text(h)[i] == expected[i] by {
        if i >= 7 {
            assert(h[i] == token[i - 7]);
            assert(expected[i] == ascii_text(token)[i - 7]);
        }
    }
    assert(ascii_text(h) =~= expected);
}

/// A configured token that is blank after trimming configures no token:
/// every request is then let through.
pub proof fn lemma_blank_token_disables_authorization(token: Seq<char>, header: Option<Seq<u8>>)
    requires
        non_blank(token) is None,
    ensures
        authorized(non_blank(token), header),
{
}

/// With a token configured, `authorize` lets a request through only when it
/// has an `Authorization` header whose bytes are exactly `Bearer ` followed
/// by the token's characters; a bare token or any other text is refused.
pub proof fn lemma_authorize_accepts_only_bearer_header(
    token: String,
    header: Option<Seq<u8>>,
    r: Result<(), AppError>,
)
    requires
        r matches Ok(_) <==> authorized(option_text(Some(token)), header),
        r is Ok,
    ensures
        header matches Some(h) && h.len() == token@.len() + 7 && (forall|i: int|
            0 <= i < 7 ==> (#[trigger] h[i] as char) == seq!['B', 'e', 'a', 'r', 'e', 'r', ' '][i])
            && (forall|i: int| 0 <= i < token@.len() ==> (#[trigger] h[i + 7] as char) == token@[i]),
{
    reveal_strlit("Bearer ");
    let h = header->Some_0;
    let expected = bearer_header(token@);
    assert(ascii_text(h) == expected);
    assert forall|i: int| 0 <= i < 7 implies (#[trigger] h[i] as char) == seq![
        'B',
        'e',
        'a',
        'r',
        'e',
        'r',
        ' ',
    ][i] by {
        assert(ascii_text(h)[i] == h[i] as char);
    }
    assert forall|i: int| 0 <= i < token@.len() implies (#[trigger] h[i + 7] as char)
        == token@[i] by {
        assert(ascii_text(h)[i + 7] == h[i + 7] as char);
    }
}

} // verus!
