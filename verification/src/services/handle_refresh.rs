//! The decisions of the worker that refreshes the access tokens of linked
//! Google accounts.
use crate::common::encrypt::{decrypt, decryption, encrypt, Decrypted, NONCE_LEN, P_MAX};
use crate::common::text::same_text;
use crate::common::uuid_text::{parse_uuid, uuid_parse};
use crate::services::entities::{CloudAccount, Provider};
use vstd::prelude::*;
use vstd::utf8::encode_utf8;

verus! {

/// Google's reply to a token refresh that succeeded.
pub struct GoogleResponse {
    pub access_token: String,
    pub expires_in: i64,
    pub refresh_token: Option<String>,
    pub scope: String,
    pub token_type: String,
}

/// Google's reply to a token refresh that failed.
pub struct GoogleError {
    pub error: String,
    pub error_description: String,
}

/// Google's reply to a token refresh.
pub enum GoogleResult {
    Success(GoogleResponse),
    Failure(GoogleError),
}

/// How long before its expiry an access token is refreshed, in seconds.
pub const REFRESH_MARGIN: i64 = 300;

/// Whether the access token of `acc` is due for a refresh at `now`: a Google
/// account whose token is not known to be revoked and expires, or expired,
/// more than five minutes before `now`, or whose expiry is unknown.
pub open spec fn is_due(acc: CloudAccount, now: int) -> bool {
    &&& acc.provider == Provider::Google
    &&& match acc.expires_in {
        None => true,
        Some(e) => e < now - REFRESH_MARGIN,
    }
    &&& !acc.token_expired
}

/// Whether the access token of `acc` is due for a refresh at `now`.
pub fn needs_refresh(acc: &CloudAccount, now: i64) -> (r: bool)
    requires
        now >= i64::MIN + REFRESH_MARGIN,
    ensures
        r == is_due(*acc, now as int),
{
    let time = now - REFRESH_MARGIN;
    let expired = match acc.expires_in {
        None => true,
        Some(e) => e < time,
    };
    acc.provider == Provider::Google && expired && !acc.token_expired
}

/// The refresh token to send to Google for `acc` at `now`, in the model: that
/// of an account that is due, decrypted under `key`.
pub open spec fn token_to_send(acc: CloudAccount, now: int, key: Seq<u8>) -> Option<Seq<char>> {
    match acc.refresh_token {
        Some(enc) => if is_due(acc, now) {
            match decryption(key, enc@) {
                Decrypted::Plaintext(p) => Some(p),
                _ => None,
            }
        } else {
            None
        },
        None => None,
    }
}

/// Google is asked for a new token only for an account that is due: a Google
/// account whose token is not known to be revoked, that holds a refresh
/// token, and whose expiry is unknown or more than five minutes before `now`.
pub proof fn lemma_only_due_accounts_asked(acc: CloudAccount, now: int, key: Seq<u8>)
    ensures
        token_to_send(acc, now, key) is Some ==> {
            &&& acc.provider == Provider::Google
            &&& !acc.token_expired
            &&& acc.refresh_token is Some
            &&& match acc.expires_in {
                None => true,
                Some(e) => e < now - REFRESH_MARGIN,
            }
        },
{
}

/// The refresh token to send to Google for `acc`: that of an account that is
/// due, decrypted; `None` where the account is not due, has no refresh token,
/// or its refresh token does not decrypt.
pub fn refresh_token_to_send(acc: &CloudAccount, now: i64, key: &[u8; 32]) -> (r: Option<String>)
    requires
        now >= i64::MIN + REFRESH_MARGIN,
        is_due(*acc, now as int) ==> (acc.refresh_token matches Some(t) ==> t@.len() >= NONCE_LEN),
    ensures
        match token_to_send(*acc, now as int, key@) {
            None => r is None,
            Some(p) => r matches Some(s) && s@ == p,
        },
{
    if !needs_refresh(acc, now) {
        return None;
    }
    match &acc.refresh_token {
        None => None,
        Some(enc) => match decrypt(enc.clone(), key) {
            Ok(token) => Some(token),
            Err(_) => None,
        },
    }
}

/// The accounts of `user` to refresh at `now`, each by its position among
/// `accs`, with the refresh token to send, in order.
pub open spec fn plan_spec(accs: Seq<CloudAccount>, user: u128, now: int, key: Seq<u8>) -> Seq<
    (int, Seq<char>),
>
    decreases accs.len(),
{
    if accs.len() == 0 {
        Seq::empty()
    } else {
        let before = plan_spec(accs.drop_last(), user, now, key);
        let a = accs.last();
        if a.user_id == user {
            match token_to_send(a, now, key) {
                Some(t) => before.push(((accs.len() - 1) as int, t)),
                None => before,
            }
        } else {
            before
        }
    }
}

/// The views of a plan.
pub open spec fn plan_views(plan: Seq<(usize, String)>) -> Seq<(int, Seq<char>)> {
    plan.map_values(|p: (usize, String)| (p.0 as int, p.1@))
}

/// The accounts that the worker asks Google about for `user` at `now`, by
/// position, with the decrypted refresh token to send; no other account is
/// asked about or written.
pub fn refresh_plan(accs: &Vec<CloudAccount>, user: u128, now: i64, key: &[u8; 32]) -> (r: Vec<(usize, String)>)
    requires
        now >= i64::MIN + REFRESH_MARGIN,
        forall|i: int|
            0 <= i < accs@.len() && is_due(#[trigger] accs@[i], now as int) ==> (accs@[i].refresh_token matches Some(
                t,
            ) ==> t@.len() >= NONCE_LEN),
    ensures
        plan_views(r@) == plan_spec(accs@, user, now as int, key@),
        forall|a: int, b: int| 0 <= a < b < r@.len() ==> (#[trigger] r@[a]).0 < (#[trigger] r@[b]).0,
        forall|a: int| 0 <= a < r@.len() ==> (#[trigger] r@[a]).0 < accs@.len(),
{
    let mut out: Vec<(usize, String)> = Vec::new();
    let n = accs.len();
    for i in 0..n
        invariant
            n == accs@.len(),
            now >= i64::MIN + REFRESH_MARGIN,
            forall|i: int|
                0 <= i < accs@.len() && is_due(#[trigger] accs@[i], now as int) ==> (
                accs@[i].refresh_token matches Some(t) ==> t@.len() >= NONCE_LEN),
            plan_views(out@) == plan_spec(accs@.take(i as int), user, now as int, key@),
    {
        proof {
            assert(accs@.take(i + 1).drop_last() =~= accs@.take(i as int));
            assert(accs@.take(i + 1).last() == accs@[i as int]);
        }
        let acc = &accs[i];
        if acc.user_id == user {
            match refresh_token_to_send(acc, now, key) {
                Some(token) => {
                    let ghost before = out@;
                    out.push((i, token));
                    proof {
                        assert(plan_views(out@) =~= plan_views(before).push((i as int, token@)));
                    }
                },
                None => {},
            }
        }
    }
    proof {
        assert(accs@.take(n as int) =~= accs@);
        lemma_plan_ordered(accs@, user, now as int, key@);
        let pv = plan_views(out@);
        assert forall|a: int, b: int| 0 <= a < b < out@.len() implies (#[trigger] out@[a]).0 < (#[trigger] out@[b]).0 by {
            assert(pv[a].0 == out@[a].0 as int && pv[b].0 == out@[b].0 as int);
        }
        assert forall|a: int| 0 <= a < out@.len() implies (#[trigger] out@[a]).0 < accs@.len() by {
            assert(pv[a].0 == out@[a].0 as int);
        }
    }
    out
}

/// A round writes only accounts of the user that are due and hold a refresh
/// token: every account that a plan names is one.
pub proof fn lemma_planned_is_due(
    accs: Seq<CloudAccount>,
    plan: Seq<(usize, String)>,
    user: u128,
    now: int,
    key: Seq<u8>,
    i: usize,
)
    requires
        plan_views(plan) == plan_spec(accs, user, now, key),
        planned(plan, i),
    ensures
        i < accs.len(),
        accs[i as int].user_id == user,
        is_due(accs[i as int], now),
        accs[i as int].refresh_token is Some,
{
    let q = choose|q: int| 0 <= q < plan.len() && (#[trigger] plan[q]).0 == i;
    lemma_plan_exact(accs, user, now, key);
    let pv = plan_views(plan);
    assert(pv[q].0 == i as int);
    assert(plan_spec(accs, user, now, key)[q] == pv[q]);
    lemma_only_due_accounts_asked(accs[i as int], now, key);
}

/// Every account of a plan is one of `user`'s, is due at `now` and holds a
/// refresh token that decrypts to the one sent; every such account is in
/// the plan.
pub proof fn lemma_plan_exact(accs: Seq<CloudAccount>, user: u128, now: int, key: Seq<u8>)
    ensures
        forall|k: int|
            0 <= k < plan_spec(accs, user, now, key).len() ==> {
                let (i, t) = #[trigger] plan_spec(accs, user, now, key)[k];
                &&& 0 <= i < accs.len()
                &&& accs[i].user_id == user
                &&& is_due(accs[i], now)
                &&& token_to_send(accs[i], now, key) == Some(t)
            },
        forall|i: int|
            0 <= i < accs.len() && accs[i].user_id == user && #[trigger] token_to_send(accs[i], now, key) is Some
                ==> exists|k: int|
                0 <= k < plan_spec(accs, user, now, key).len() && (#[trigger] plan_spec(accs, user, now, key)[k]).0
                    == i,
    decreases accs.len(),
{
    if accs.len() > 0 {
        let d = accs.drop_last();
        lemma_plan_exact(d, user, now, key);
        let before = plan_spec(d, user, now, key);
        let cur = plan_spec(accs, user, now, key);
        assert forall|k: int| 0 <= k < cur.len() implies {
            let (i, t) = #[trigger] cur[k];
            &&& 0 <= i < accs.len()
            &&& accs[i].user_id == user
            &&& is_due(accs[i], now)
            &&& token_to_send(accs[i], now, key) == Some(t)
        } by {
            if k < before.len() {
                assert(cur[k] == before[k]);
                assert(accs[before[k].0] == d[before[k].0]);
            }
        }
        assert forall|i: int|
            0 <= i < accs.len() && accs[i].user_id == user && #[trigger] token_to_send(accs[i], now, key) is Some
            implies exists|k: int| 0 <= k < cur.len() && (#[trigger] cur[k]).0 == i by {
            if i < accs.len() - 1 {
                assert(d[i] == accs[i]);
                let k = choose|k: int| 0 <= k < before.len() && (#[trigger] before[k]).0 == i;
                assert(cur[k] == before[k]);
            } else {
                assert(cur[cur.len() - 1].0 == i);
            }
        }
    }
}

/// The row to write after Google's reply to a refresh of `acc`, if any: the
/// token marked as revoked, or the new tokens and expiry stored and the
/// token marked as valid (the refresh token only where Google sent a new
/// one). Every other field is kept.
pub fn row_after(acc: CloudAccount, decision: &RefreshDecision) -> (r: Option<CloudAccount>)
    ensures
        match *decision {
            RefreshDecision::Skip => r is None,
            RefreshDecision::Retry => r is None,
            RefreshDecision::MarkExpired => r == Some((CloudAccount { token_expired: true, ..acc })),
            RefreshDecision::Store(u) => r matches Some(n) && {
                &&& n == (CloudAccount {
                    access_token: n.access_token,
                    refresh_token: n.refresh_token,
                    expires_in: Some(u.expires_in),
                    token_expired: false,
                    ..acc
                })
                &&& n.access_token@ == u.access_token@
                &&& match u.refresh_token {
                    Some(t) => n.refresh_token matches Some(x) && x@ == t@,
                    None => n.refresh_token == acc.refresh_token,
                }
            },
        },
{
    match decision {
        RefreshDecision::Skip => None,
        RefreshDecision::Retry => None,
        RefreshDecision::MarkExpired => Some(CloudAccount { token_expired: true, ..acc }),
        RefreshDecision::Store(u) => {
            let refresh_token = match &u.refresh_token {
                Some(t) => Some(t.clone()),
                None => acc.refresh_token,
            };
            Some(
                CloudAccount {
                    access_token: u.access_token.clone(),
                    refresh_token,
                    expires_in: Some(u.expires_in),
                    token_expired: false,
                    ..acc
                },
            )
        },
    }
}


/// The positions in a plan grow strictly, and each names one of the accounts.
pub proof fn lemma_plan_ordered(accs: Seq<CloudAccount>, user: u128, now: int, key: Seq<u8>)
    ensures
        forall|a: int, b: int|
            0 <= a < b < plan_spec(accs, user, now, key).len() ==> (#[trigger] plan_spec(accs, user, now, key)[a]).0
                < (#[trigger] plan_spec(accs, user, now, key)[b]).0,
        forall|a: int|
            0 <= a < plan_spec(accs, user, now, key).len() ==> 0 <= (#[trigger] plan_spec(accs, user, now, key)[a]).0
                < accs.len(),
    decreases accs.len(),
{
    if accs.len() > 0 {
        let d = accs.drop_last();
        lemma_plan_ordered(d, user, now, key);
        let before = plan_spec(d, user, now, key);
        let cur = plan_spec(accs, user, now, key);
        assert forall|a: int| 0 <= a < before.len() implies #[trigger] cur[a] == before[a] by {}
        assert forall|a: int, b: int| 0 <= a < b < cur.len() implies (#[trigger] cur[a]).0 < (#[trigger] cur[b]).0 by {
            assert(cur[a] == before[a]);
            if b < before.len() {
                assert(cur[b] == before[b]);
            }
        }
        assert forall|a: int| 0 <= a < cur.len() implies 0 <= (#[trigger] cur[a]).0 < accs.len() by {
            if a < before.len() {
                assert(cur[a] == before[a]);
            }
        }
    }
}

/// Whether some entry of the plan is for the account at position `i`.
pub open spec fn planned(plan: Seq<(usize, String)>, i: usize) -> bool {
    exists|q: int| 0 <= q < plan.len() && (#[trigger] plan[q]).0 == i
}

/// Whether Google's reply to a refresh calls for the account's row to be
/// written: a revocation, or new tokens that can be encrypted.
pub open spec fn calls_for_write(reply: Option<GoogleResult>) -> bool {
    match reply {
        Some(GoogleResult::Failure(e)) => is_revoked(e),
        Some(GoogleResult::Success(resp)) => encode_utf8(resp.access_token@).len() <= P_MAX && !(
        resp.refresh_token matches Some(t) && encode_utf8(t@).len() > P_MAX),
        None => false,
    }
}

/// Whether Google's reply to a refresh calls for the user's accounts to be
/// tried again: a new refresh token too long to encrypt.
pub open spec fn asks_retry(reply: Option<GoogleResult>) -> bool {
    match reply {
        Some(GoogleResult::Success(resp)) => encode_utf8(resp.access_token@).len() <= P_MAX && (
        resp.refresh_token matches Some(t) && encode_utf8(t@).len() > P_MAX),
        _ => false,
    }
}

/// Whether `row` is what `acc` becomes after Google's `reply`, received at
/// `received`: after a revocation, the account marked as revoked; after new
/// tokens, the account with the tokens encrypted under `key` (the refresh
/// token kept where Google sent none), the expiry `expires_in` seconds after
/// `received` and the token marked as valid. Every other field is kept.
pub open spec fn row_for(acc: CloudAccount, reply: Option<GoogleResult>, received: i64, key: Seq<u8>, row: CloudAccount) -> bool {
    match reply {
        Some(GoogleResult::Failure(_)) => row == (CloudAccount { token_expired: true, ..acc }),
        Some(GoogleResult::Success(resp)) => {
            &&& row == (CloudAccount {
                access_token: row.access_token,
                refresh_token: row.refresh_token,
                expires_in: row.expires_in,
                token_expired: false,
                ..acc
            })
            &&& row.expires_in matches Some(e) && e == resp.expires_in + received
            &&& decryption(key, row.access_token@) == Decrypted::Plaintext(resp.access_token@)
            &&& match resp.refresh_token {
                Some(t) => row.refresh_token matches Some(c) && decryption(key, c@) == Decrypted::Plaintext(t@),
                None => row.refresh_token == acc.refresh_token,
            }
        },
        None => false,
    }
}

/// Whether some row of `writes` is for the account at position `i`.
pub open spec fn written(writes: Seq<(usize, CloudAccount, bool)>, i: usize) -> bool {
    exists|t: int| 0 <= t < writes.len() && (#[trigger] writes[t]).0 == i
}

/// What a round of refreshes writes, given the accounts of the user, the plan
/// of the round and Google's reply to each request of the plan (with the
/// time it came): for each account of the plan whose reply calls for it,
/// its position, its new row and whether new tokens are stored; and whether
/// the user's accounts are to be tried again. Accounts outside the plan are
/// neither asked about nor written; each written row keeps the account's
/// id, email, owner and provider.
pub fn refresh_round(
    accs: Vec<CloudAccount>,
    plan: &Vec<(usize, String)>,
    replies: Vec<(Option<GoogleResult>, i64)>,
    key: &[u8; 32],
) -> (r: (Vec<(usize, CloudAccount, bool)>, bool))
    requires
        replies@.len() == plan@.len(),
        forall|a: int, b: int| 0 <= a < b < plan@.len() ==> (#[trigger] plan@[a]).0 < (#[trigger] plan@[b]).0,
        forall|a: int| 0 <= a < plan@.len() ==> (#[trigger] plan@[a]).0 < accs@.len(),
        forall|k: int|
            0 <= k < replies@.len() ==> ((#[trigger] replies@[k]).0 matches Some(GoogleResult::Success(resp))
                ==> i64::MIN <= resp.expires_in + replies@[k].1 <= i64::MAX),
    ensures
        forall|t: int|
            0 <= t < r.0@.len() ==> planned(plan@, (#[trigger] r.0@[t]).0),
        forall|t: int|
            0 <= t < r.0@.len() ==> {
                let (i, row, _) = #[trigger] r.0@[t];
                &&& row.id == accs@[i as int].id
                &&& row.email == accs@[i as int].email
                &&& row.user_id == accs@[i as int].user_id
                &&& row.provider == accs@[i as int].provider
            },
        forall|a: int, b: int| 0 <= a < b < r.0@.len() ==> (#[trigger] r.0@[a]).0 < (#[trigger] r.0@[b]).0,
        forall|q: int|
            0 <= q < plan@.len() ==> (written(r.0@, (#[trigger] plan@[q]).0) <==> calls_for_write(replies@[q].0)),
        forall|q: int, t: int|
            0 <= q < plan@.len() && 0 <= t < r.0@.len() && (#[trigger] r.0@[t]).0 == (#[trigger] plan@[q]).0
                ==> row_for(accs@[plan@[q].0 as int], replies@[q].0, replies@[q].1, key@, r.0@[t].1) && (r.0@[t].2
                <==> replies@[q].0 matches Some(GoogleResult::Success(_))),
        r.1 == exists|q: int| 0 <= q < plan@.len() && asks_retry(#[trigger] replies@[q].0),
{
    let ghost all = accs@;
    let ghost all_replies = replies@;
    let mut rest = accs;
    let mut rest_replies = replies;
    let mut writes: Vec<(usize, CloudAccount, bool)> = Vec::new();
    let mut retry = false;
    let mut k: usize = 0;
    let n = rest.len();
    let mut i: usize = 0;
    while i < n
        invariant
            n == all.len(),
            i <= n,
            k <= plan@.len(),
            rest@ == all.skip(i as int),
            rest_replies@ == all_replies.skip(k as int),
            all_replies.len() == plan@.len(),
            forall|a: int, b: int| 0 <= a < b < plan@.len() ==> (#[trigger] plan@[a]).0 < (#[trigger] plan@[b]).0,
            forall|a: int| 0 <= a < plan@.len() ==> (#[trigger] plan@[a]).0 < all.len(),
            forall|a: int| 0 <= a < k ==> (#[trigger] plan@[a]).0 < i,
            k < plan@.len() ==> plan@[k as int].0 >= i,
            forall|q: int|
                0 <= q < all_replies.len() ==> ((#[trigger] all_replies[q]).0 matches Some(
                    GoogleResult::Success(resp),
                ) ==> i64::MIN <= resp.expires_in + all_replies[q].1 <= i64::MAX),
            forall|t: int|
                0 <= t < writes@.len() ==> planned(plan@, (#[trigger] writes@[t]).0),
            forall|t: int|
                0 <= t < writes@.len() ==> {
                    let (j, row, _) = #[trigger] writes@[t];
                    &&& j < i
                    &&& row.id == all[j as int].id
                    &&& row.email == all[j as int].email
                    &&& row.user_id == all[j as int].user_id
                    &&& row.provider == all[j as int].provider
                },
            forall|a: int, b: int| 0 <= a < b < writes@.len() ==> (#[trigger] writes@[a]).0 < (#[trigger] writes@[b]).0,
            forall|q: int|
                0 <= q < k ==> (written(writes@, (#[trigger] plan@[q]).0) <==> calls_for_write(all_replies[q].0)),
            forall|q: int, t: int|
                0 <= q < k && 0 <= t < writes@.len() && (#[trigger] writes@[t]).0 == (#[trigger] plan@[q]).0
                    ==> row_for(all[plan@[q].0 as int], all_replies[q].0, all_replies[q].1, key@, writes@[t].1) && (
                writes@[t].2 <==> all_replies[q].0 matches Some(GoogleResult::Success(_))),
            forall|t: int| 0 <= t < writes@.len() ==> planned(plan@.take(k as int), (#[trigger] writes@[t]).0),
            retry == exists|q: int| 0 <= q < k && asks_retry(#[trigger] all_replies[q].0),
        decreases n - i,
    {
        let acc = rest.remove(0);
        proof {
            assert(acc == all[i as int]);
            assert(rest@ =~= all.skip(i + 1));
        }
        if k < plan.len() && plan[k].0 == i {
            let (reply, received) = rest_replies.remove(0);
            let ghost rg = reply;
            proof {
                assert((reply, received) == all_replies[k as int]);
                assert(rest_replies@ =~= all_replies.skip(k + 1));
            }
            let ghost wb = writes@;
            let ghost retry_before = retry;
            let decision = refresh_decision(reply, received, key);
            let stores = match &decision {
                RefreshDecision::Store(_) => true,
                _ => false,
            };
            retry = retry_after(retry, &decision, false);
            proof {
                assert(decision is Retry <==> asks_retry(rg));
                assert(retry == exists|q: int| 0 <= q < k + 1 && asks_retry(#[trigger] all_replies[q].0)) by {
                    if retry_before {
                        let q = choose|q: int| 0 <= q < k && asks_retry(#[trigger] all_replies[q].0);
                        assert(0 <= q < k + 1 && asks_retry(all_replies[q].0));
                    }
                    if asks_retry(rg) {
                        assert(asks_retry(all_replies[k as int].0));
                    }
                    if exists|q: int| 0 <= q < k + 1 && asks_retry(#[trigger] all_replies[q].0) {
                        let q = choose|q: int| 0 <= q < k + 1 && asks_retry(#[trigger] all_replies[q].0);
                        if q < k {
                            assert(retry_before);
                        }
                    }
                }
            }
            match row_after(acc, &decision) {
                Some(row) => {
                    let ghost before = writes@;
                    writes.push((i, row, stores));
                    proof {
                        assert(calls_for_write(rg));
                        assert(row_for(all[i as int], rg, received, key@, row));
                        assert forall|t: int| 0 <= t < writes@.len() implies planned(plan@, (#[trigger] writes@[t]).0) by {
                            if t < before.len() {
                                assert(writes@[t] == before[t]);
                            } else {
                                assert(plan@[k as int].0 == writes@[t].0);
                            }
                        }
                        assert forall|a: int, b: int| 0 <= a < b < writes@.len() implies (
                        #[trigger] writes@[a]).0 < (#[trigger] writes@[b]).0 by {
                            assert(writes@[a] == before[a] || a == before.len());
                            if b < before.len() {
                                assert(writes@[a] == before[a] && writes@[b] == before[b]);
                            } else {
                                assert(writes@[a] == before[a]);
                            }
                        }
                        assert forall|t: int| 0 <= t < writes@.len() implies planned(plan@.take(k + 1), (#[trigger] writes@[t]).0) by {
                            if t < before.len() {
                                assert(writes@[t] == before[t]);
                                assert(planned(plan@.take(k as int), before[t].0));
                                let q = choose|q: int| 0 <= q < plan@.take(k as int).len() && (#[trigger] plan@.take(k as int)[q]).0 == before[t].0;
                                assert(plan@.take(k + 1)[q] == plan@.take(k as int)[q]);
                            } else {
                                assert(plan@.take(k + 1)[k as int].0 == writes@[t].0);
                            }
                        }
                        assert forall|q: int| 0 <= q < k + 1 implies (written(writes@, (#[trigger] plan@[q]).0) <==> calls_for_write(all_replies[q].0)) by {
                            if q < k {
                                assert(plan@[q].0 < i);
                                if written(writes@, plan@[q].0) {
                                    let t = choose|t: int| 0 <= t < writes@.len() && (#[trigger] writes@[t]).0 == plan@[q].0;
                                    assert(t < before.len());
                                    assert(writes@[t] == before[t]);
                                    assert(written(before, plan@[q].0));
                                }
                                if written(before, plan@[q].0) {
                                    let t = choose|t: int| 0 <= t < before.len() && (#[trigger] before[t]).0 == plan@[q].0;
                                    assert(writes@[t] == before[t]);
                                }
                            } else {
                                assert(writes@[before.len() as int].0 == plan@[q].0);
                            }
                        }
                        assert forall|q: int, t: int|
                            0 <= q < k + 1 && 0 <= t < writes@.len() && (#[trigger] writes@[t]).0 == (#[trigger] plan@[q]).0
                            implies row_for(all[plan@[q].0 as int], all_replies[q].0, all_replies[q].1, key@, writes@[t].1) && (
                            writes@[t].2 <==> all_replies[q].0 matches Some(GoogleResult::Success(_))) by {
                            if t < before.len() {
                                assert(writes@[t] == before[t]);
                                assert(before[t].0 < i);
                                if q == k {
                                    assert(false);
                                }
                            } else {
                                if q < k {
                                    assert(plan@[q].0 < i);
                                    assert(false);
                                }
                            }
                        }
                    }
                },
                None => {
                    proof {
                        assert(!calls_for_write(rg));
                        assert forall|q: int| 0 <= q < k + 1 implies (written(writes@, (#[trigger] plan@[q]).0) <==> calls_for_write(all_replies[q].0)) by {
                            if q == k {
                                if written(writes@, plan@[q].0) {
                                    let t = choose|t: int| 0 <= t < writes@.len() && (#[trigger] writes@[t]).0 == plan@[q].0;
                                    assert(writes@[t].0 < i);
                                }
                            }
                        }
                        assert forall|q: int, t: int|
                            0 <= q < k + 1 && 0 <= t < writes@.len() && (#[trigger] writes@[t]).0 == (#[trigger] plan@[q]).0
                            implies row_for(all[plan@[q].0 as int], all_replies[q].0, all_replies[q].1, key@, writes@[t].1) && (
                            writes@[t].2 <==> all_replies[q].0 matches Some(GoogleResult::Success(_))) by {
                            if q == k {
                                assert(writes@[t].0 < i);
                            }
                        }
                        assert forall|t: int| 0 <= t < writes@.len() implies planned(plan@.take(k + 1), (#[trigger] writes@[t]).0) by {
                            assert(planned(plan@.take(k as int), writes@[t].0));
                            let q = choose|q: int| 0 <= q < plan@.take(k as int).len() && (#[trigger] plan@.take(k as int)[q]).0 == writes@[t].0;
                            assert(plan@.take(k + 1)[q] == plan@.take(k as int)[q]);
                        }
                    }
                },
            }
            k = k + 1;
            proof {
                if k < plan@.len() {
                    assert(plan@[k - 1].0 < plan@[k as int].0);
                }
            }
        }
        i = i + 1;
    }
    proof {
        if k < plan@.len() {
            assert(plan@[k as int].0 < all.len());
        }
        assert(k == plan@.len());
    }
    (writes, retry)
}

/// Whether the user's accounts are to be tried again after one account: so
/// far, or where a refresh token could not be encrypted, or where new tokens
/// could not be written.
pub fn retry_after(retry: bool, decision: &RefreshDecision, write_failed: bool) -> (r: bool)
    ensures
        r == (retry || decision is Retry || (decision is Store && write_failed)),
{
    match decision {
        RefreshDecision::Retry => true,
        RefreshDecision::Store(_) => retry || write_failed,
        _ => retry,
    }
}

/// The id of a user taken from the refresh queue, where the text is a UUID.
pub fn queued_user_id(text: &str) -> (r: Option<u128>)
    ensures
        r == uuid_parse(text@),
{
    parse_uuid(text)
}

/// The tokens to store after a refresh, encrypted, and the new expiry.
pub struct TokenUpdate {
    pub access_token: Vec<u8>,
    pub refresh_token: Option<Vec<u8>>,
    pub expires_in: i64,
}

/// What the worker does with Google's reply to a refresh.
pub enum RefreshDecision {
    /// Leave the account as it is.
    Skip,
    /// Leave the account as it is, and try the user's accounts again later.
    Retry,
    /// Mark the account's token as revoked.
    MarkExpired,
    /// Store the new tokens and expiry, and mark the token as valid.
    Store(TokenUpdate),
}

/// Whether Google's error says that the refresh token was revoked.
pub open spec fn is_revoked(e: GoogleError) -> bool {
    e.error@ == "invalid_grant"@ && e.error_description@ == "Token has been expired or revoked."@
}

/// What to do with Google's reply to a refresh received at `now` (`None` where
/// the request or the reading of the reply failed): a revoked token is
/// marked; new tokens are encrypted under `key` and stored with the expiry
/// `expires_in` seconds after `now`. A refresh token that cannot be
/// encrypted means another try later.
pub fn refresh_decision(reply: Option<GoogleResult>, now: i64, key: &[u8; 32]) -> (r: RefreshDecision)
    requires
        reply matches Some(GoogleResult::Success(resp)) ==> i64::MIN <= resp.expires_in + now <= i64::MAX,
    ensures
        match reply {
            None => r is Skip,
            Some(GoogleResult::Failure(e)) => if is_revoked(e) {
                r is MarkExpired
            } else {
                r is Skip
            },
            Some(GoogleResult::Success(resp)) => if encode_utf8(resp.access_token@).len() > P_MAX {
                r is Skip
            } else if resp.refresh_token matches Some(t) && encode_utf8(t@).len() > P_MAX {
                r is Retry
            } else {
                r matches RefreshDecision::Store(u) && {
                    &&& decryption(key@, u.access_token@) == Decrypted::Plaintext(resp.access_token@)
                    &&& u.expires_in == resp.expires_in + now
                    &&& match resp.refresh_token {
                        None => u.refresh_token is None,
                        Some(t) => u.refresh_token matches Some(c) && decryption(key@, c@)
                            == Decrypted::Plaintext(t@),
                    }
                }
            },
        },
{
    match reply {
        None => RefreshDecision::Skip,
        Some(GoogleResult::Failure(err)) => {
            if same_text(&err.error, "invalid_grant") && same_text(
                &err.error_description,
                "Token has been expired or revoked.",
            ) {
                RefreshDecision::MarkExpired
            } else {
                RefreshDecision::Skip
            }
        },
        Some(GoogleResult::Success(resp)) => {
            let access_token = match encrypt(resp.access_token.as_str(), key) {
                Ok(c) => c,
                Err(_) => {
                    return RefreshDecision::Skip;
                },
            };
            let expires_in = resp.expires_in + now;
            match resp.refresh_token {
                Some(tok) => match encrypt(tok.as_str(), key) {
                    Ok(refreshed) => RefreshDecision::Store(
                        TokenUpdate { access_token, refresh_token: Some(refreshed), expires_in },
                    ),
                    Err(_) => RefreshDecision::Retry,
                },
                None => RefreshDecision::Store(TokenUpdate { access_token, refresh_token: None, expires_in }),
            }
        },
    }
}

} // verus!
