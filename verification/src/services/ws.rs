//! The decisions of the websocket service and of the transfer worker.
use crate::common::text::{concat, same_text};
use vstd::prelude::*;

verus! {

/// How long before a token's expiry its refresh is scheduled, in seconds.
pub const REFRESH_LEAD: i64 = 300;

/// The score under which a linked account waits in the refresh queue: five
/// minutes before its token expires.
pub fn refresh_score(expiry_time: i64) -> (r: i64)
    requires
        expiry_time >= i64::MIN + REFRESH_LEAD,
    ensures
        r == expiry_time - REFRESH_LEAD,
{
    expiry_time - 5 * 60
}

/// The value of the last pair whose key is `key`: what a map filled from the
/// pairs in order holds under `key`.
pub open spec fn last_value(pairs: Seq<(Seq<char>, Seq<char>)>, key: Seq<char>) -> Option<Seq<char>>
    decreases pairs.len(),
{
    if pairs.len() == 0 {
        None
    } else if pairs.last().0 == key {
        Some(pairs.last().1)
    } else {
        last_value(pairs.drop_last(), key)
    }
}

/// The views of a sequence of pairs of strings.
pub open spec fn query_views(pairs: Seq<(String, String)>) -> Seq<(Seq<char>, Seq<char>)> {
    pairs.map_values(|p: (String, String)| (p.0@, p.1@))
}

/// The session token that the query of a websocket request carries: the
/// value of its last `token` pair.
pub fn query_token(pairs: &Vec<(String, String)>) -> (r: Option<String>)
    ensures
        match last_value(query_views(pairs@), "token"@) {
            None => r is None,
            Some(v) => r matches Some(s) && s@ == v,
        },
{
    let mut i = pairs.len();
    proof {
        assert(pairs@.take(i as int) =~= pairs@);
    }
    while i > 0
        invariant
            i <= pairs@.len(),
            last_value(query_views(pairs@), "token"@) == last_value(
                query_views(pairs@.take(i as int)),
                "token"@,
            ),
        decreases i,
    {
        proof {
            assert(query_views(pairs@.take(i as int)).drop_last() =~= query_views(
                pairs@.take(i - 1),
            ));
            assert(query_views(pairs@.take(i as int)).last() == (pairs@[i - 1].0@, pairs@[i - 1].1@));
        }
        if same_text(&pairs[i - 1].0, "token") {
            return Some(pairs[i - 1].1.clone());
        }
        i -= 1;
    }
    proof {
        assert(query_views(pairs@.take(0)) =~= Seq::<(Seq<char>, Seq<char>)>::empty());
    }
    None
}

/// Whether a websocket message asks for a token refresh.
pub fn is_refresh_request(text: &String) -> (r: bool)
    ensures
        r == (text@ == "Refresh Token"@),
{
    same_text(text, "Refresh Token")
}

/// What `url::Url::parse(url)` followed by `Url::query_pairs` gives: the
/// decoded (name, value) pairs of the URL's query, in order; `None` where the
/// text is no URL.
pub uninterp spec fn url_query_pairs(url: Seq<char>) -> Option<Seq<(Seq<char>, Seq<char>)>>;

/// `url::Url::parse(url)` and the decoded pairs of its query
/// (`Url::query_pairs`), each taken as two strings.
#[verifier::external_body]
fn query_pairs_of(url: &str) -> (r: Option<Vec<(String, String)>>)
    ensures
        match url_query_pairs(url@) {
            None => r is None,
            Some(p) => r matches Some(v) && query_views(v@) == p,
        },
{
    match url::Url::parse(url) {
        Ok(u) => Some(u.query_pairs().map(|(k, v)| (k.into_owned(), v.into_owned())).collect()),
        Err(_) => None,
    }
}

/// The URL that the websocket server reads a request's path and query as.
pub open spec fn request_url_of(uri: Seq<char>) -> Seq<char> {
    "ws://127.0.0.1:8080"@ + uri
}

/// The URL of a websocket request whose target (path and query) is `uri`.
pub fn request_url(uri: &str) -> (r: String)
    ensures
        r@ == request_url_of(uri@),
{
    concat("ws://127.0.0.1:8080", uri)
}

/// The session token of a request, from its parsed query: the value of the
/// last `token` pair.
pub fn token_of_pairs(pairs: Option<Vec<(String, String)>>) -> (r: Result<Option<String>, ()>)
    ensures
        match pairs {
            None => r is Err,
            Some(v) => r matches Ok(t) && match last_value(query_views(v@), "token"@) {
                None => t is None,
                Some(x) => t matches Some(s) && s@ == x,
            },
        },
{
    match pairs {
        None => Err(()),
        Some(v) => Ok(query_token(&v)),
    }
}

/// The session token that a websocket request to `url` carries: `Err` where
/// the text is no URL (the handshake is refused with 400), else the value of
/// the query's last `token` pair, if any.
pub fn request_token(url: &str) -> (r: Result<Option<String>, ()>)
    ensures
        match url_query_pairs(url@) {
            None => r is Err,
            Some(p) => r matches Ok(t) && match last_value(p, "token"@) {
                None => t is None,
                Some(v) => t matches Some(s) && s@ == v,
            },
        },
{
    token_of_pairs(query_pairs_of(url))
}

/// What happened on a websocket session, as the server reads it.
pub enum WsEvent {
    /// The message could not be read.
    ReadError,
    /// A text message that is no valid UTF-8, with the error's text.
    NotUtf8(String),
    /// A text message.
    Text(String),
    /// Any other message.
    Other,
}

/// What the server does next on a session.
pub enum WsAction {
    /// End the session.
    Stop,
    /// Send the text, then end the session.
    SendAndStop(String),
    /// Ask for the refresh of the tokens of the user with this id.
    QueueRefresh(u128),
    /// Wait for the next message.
    Continue,
}

/// The step of a session on a message, given what decoding the session's
/// token gave (the user's id, or the error's text): a token that does not
/// decode is answered and ends the session; a message that cannot be read
/// ends it; a text that is no UTF-8 is answered with the error and ends it;
/// "Refresh Token" asks for a refresh of the user's tokens.
pub fn session_step(decoded: Result<u128, String>, event: WsEvent) -> (r: WsAction)
    ensures
        match decoded {
            Err(_) => r matches WsAction::SendAndStop(m) && m@ == "Error Validating User from the websocket server"@,
            Ok(id) => match event {
                WsEvent::ReadError => r is Stop,
                WsEvent::NotUtf8(e) => r matches WsAction::SendAndStop(m) && m@ == "Server got "@ + e@,
                WsEvent::Text(t) => if t@ == "Refresh Token"@ {
                    r == WsAction::QueueRefresh(id)
                } else {
                    r is Continue
                },
                WsEvent::Other => r is Continue,
            },
        },
{
    match decoded {
        Err(_) => WsAction::SendAndStop("Error Validating User from the websocket server".to_owned()),
        Ok(id) => match event {
            WsEvent::ReadError => WsAction::Stop,
            WsEvent::NotUtf8(e) => WsAction::SendAndStop(concat("Server got ", e.as_str())),
            WsEvent::Text(t) => if is_refresh_request(&t) {
                WsAction::QueueRefresh(id)
            } else {
                WsAction::Continue
            },
            WsEvent::Other => WsAction::Continue,
        },
    }
}

/// What follows the request that marks a user as queued for a refresh
/// (`HSETNX`; `None` where Redis failed).
pub enum DedupeAction {
    /// Push the user onto the refresh queue.
    Push,
    /// The user is queued already: nothing to do.
    Skip,
    /// End the session.
    Stop,
}

/// A user is pushed onto the refresh queue only when the mark was new; a
/// Redis failure ends the session.
pub fn after_dedupe(added: Option<bool>) -> (r: DedupeAction)
    ensures
        match added {
            None => r is Stop,
            Some(true) => r is Push,
            Some(false) => r is Skip,
        },
{
    match added {
        None => DedupeAction::Stop,
        Some(true) => DedupeAction::Push,
        Some(false) => DedupeAction::Skip,
    }
}

/// How many jobs the transfer worker runs at once: the machine's parallelism
/// (4 where unknown), doubled in production.
pub fn max_workers(parallelism: Option<usize>, environment: &String) -> (r: usize)
    requires
        match parallelism {
            Some(p) => environment@ == "PRODUCTION"@ ==> p * 2 <= usize::MAX,
            None => true,
        },
    ensures
        r == match parallelism {
            Some(p) => p,
            None => 4,
        } * if environment@ == "PRODUCTION"@ {
            2usize
        } else {
            1usize
        },
{
    let multiple: usize = if same_text(environment, "PRODUCTION") {
        2
    } else {
        1
    };
    let p = match parallelism {
        Some(p) => p,
        None => 4,
    };
    p * multiple
}

} // verus!
