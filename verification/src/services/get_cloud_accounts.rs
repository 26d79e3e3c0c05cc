//! The report of a user's linked Google accounts and their storage.
use crate::services::entities::{CloudAccount, Provider};
use vstd::prelude::*;

verus! {

/// The storage quota of a Google account, as Google reports it.
pub struct StorageQuota {
    pub limit: Option<String>,
    pub usage_in_drive: String,
    pub usage_in_drive_trash: String,
    pub usage: String,
}

/// What the report tells of an account.
pub struct ReturnErrorCloud {
    pub id: u128,
    pub email: String,
    pub provider: Provider,
    pub token_expired: bool,
    pub image: Option<String>,
}

/// An account whose storage could be read, with its storage.
pub struct ReturnSuccessCloud {
    pub storage_quota: StorageQuota,
    pub info: ReturnErrorCloud,
}

/// The report of one account: with its storage where it could be read (its
/// token decrypted and Google answered), as needing a refresh otherwise.
pub fn account_report(acc: CloudAccount, quota: Option<StorageQuota>) -> (r: Result<ReturnSuccessCloud, ReturnErrorCloud>)
    ensures
        match quota {
            Some(q) => r matches Ok(s) && s.storage_quota == q && s.info == (ReturnErrorCloud {
                id: acc.id,
                email: acc.email,
                provider: Provider::Google,
                token_expired: false,
                image: acc.image,
            }),
            None => r matches Err(e) && e == (ReturnErrorCloud {
                id: acc.id,
                email: acc.email,
                provider: Provider::Google,
                token_expired: true,
                image: acc.image,
            }),
        },
{
    match quota {
        Some(storage_quota) => Ok(
            ReturnSuccessCloud {
                storage_quota,
                info: ReturnErrorCloud {
                    id: acc.id,
                    email: acc.email,
                    provider: Provider::Google,
                    token_expired: false,
                    image: acc.image,
                },
            },
        ),
        None => Err(
            ReturnErrorCloud {
                id: acc.id,
                email: acc.email,
                provider: Provider::Google,
                token_expired: true,
                image: acc.image,
            },
        ),
    }
}

/// The reports split into the accounts with their storage and those that
/// need a refresh, each in order.
pub open spec fn split_spec(reports: Seq<Result<ReturnSuccessCloud, ReturnErrorCloud>>) -> (
    Seq<ReturnSuccessCloud>,
    Seq<ReturnErrorCloud>,
)
    decreases reports.len(),
{
    if reports.len() == 0 {
        (Seq::empty(), Seq::empty())
    } else {
        let (oks, errs) = split_spec(reports.drop_last());
        match reports.last() {
            Ok(s) => (oks.push(s), errs),
            Err(e) => (oks, errs.push(e)),
        }
    }
}

/// Every report lands on exactly one side: the two lists together are as
/// long as the reports.
pub proof fn lemma_split_counts(reports: Seq<Result<ReturnSuccessCloud, ReturnErrorCloud>>)
    ensures
        split_spec(reports).0.len() + split_spec(reports).1.len() == reports.len(),
    decreases reports.len(),
{
    if reports.len() > 0 {
        lemma_split_counts(reports.drop_last());
    }
}

/// Whether a report is of an account whose storage could be read.
pub open spec fn is_success() -> spec_fn(Result<ReturnSuccessCloud, ReturnErrorCloud>) -> bool {
    |x: Result<ReturnSuccessCloud, ReturnErrorCloud>| x is Ok
}

/// Whether a report is of an account that needs a refresh.
pub open spec fn is_failure() -> spec_fn(Result<ReturnSuccessCloud, ReturnErrorCloud>) -> bool {
    |x: Result<ReturnSuccessCloud, ReturnErrorCloud>| x is Err
}

/// The account with its storage that a successful report carries.
pub open spec fn success_of() -> spec_fn(Result<ReturnSuccessCloud, ReturnErrorCloud>) -> ReturnSuccessCloud {
    |x: Result<ReturnSuccessCloud, ReturnErrorCloud>| x->Ok_0
}

/// The account that a report of a refresh need carries.
pub open spec fn failure_of() -> spec_fn(Result<ReturnSuccessCloud, ReturnErrorCloud>) -> ReturnErrorCloud {
    |x: Result<ReturnSuccessCloud, ReturnErrorCloud>| x->Err_0
}

/// Splitting the reports puts every successful report, unchanged and in
/// order, in the first list, and every report of a refresh need, unchanged
/// and in order, in the second; nothing else is in either.
pub proof fn lemma_split_sorts_reports(reports: Seq<Result<ReturnSuccessCloud, ReturnErrorCloud>>)
    ensures
        split_spec(reports).0 == reports.filter(is_success()).map_values(success_of()),
        split_spec(reports).1 == reports.filter(is_failure()).map_values(failure_of()),
    decreases reports.len(),
{
    reveal_with_fuel(Seq::filter, 1);
    if reports.len() > 0 {
        let init = reports.drop_last();
        lemma_split_sorts_reports(init);
        let fo = init.filter(is_success());
        let fe = init.filter(is_failure());
        match reports.last() {
            Ok(x) => {
                assert(reports.filter(is_success()) == fo.push(reports.last()));
                assert(fo.push(reports.last()).map_values(success_of()) =~= fo.map_values(success_of()).push(x));
            },
            Err(e) => {
                assert(reports.filter(is_failure()) == fe.push(reports.last()));
                assert(fe.push(reports.last()).map_values(failure_of()) =~= fe.map_values(failure_of()).push(e));
            },
        }
    } else {
        assert(reports.filter(is_success()).map_values(success_of()) =~= Seq::<ReturnSuccessCloud>::empty());
        assert(reports.filter(is_failure()).map_values(failure_of()) =~= Seq::<ReturnErrorCloud>::empty());
    }
}

/// Splits the reports into the accounts with their storage and those that
/// need a refresh, each in order.
pub fn split_reports(reports: Vec<Result<ReturnSuccessCloud, ReturnErrorCloud>>) -> (r: (
    Vec<ReturnSuccessCloud>,
    Vec<ReturnErrorCloud>,
))
    ensures
        (r.0@, r.1@) == split_spec(reports@),
        r.0@ == reports@.filter(is_success()).map_values(success_of()),
        r.1@ == reports@.filter(is_failure()).map_values(failure_of()),
{
    let mut oks: Vec<ReturnSuccessCloud> = Vec::new();
    let mut errs: Vec<ReturnErrorCloud> = Vec::new();
    let ghost all = reports@;
    let ghost mut done: Seq<Result<ReturnSuccessCloud, ReturnErrorCloud>> = Seq::empty();
    let mut rest = reports;
    while rest.len() > 0
        invariant
            all == done + rest@,
            (oks@, errs@) == split_spec(done),
        decreases rest@.len(),
    {
        let item = rest.remove(0);
        proof {
            assert(done.push(item).drop_last() =~= done);
            assert(all =~= done.push(item) + rest@);
            done = done.push(item);
        }
        match item {
            Ok(s) => oks.push(s),
            Err(e) => errs.push(e),
        }
    }
    proof {
        assert(done =~= all);
        lemma_split_sorts_reports(all);
    }
    (oks, errs)
}

} // verus!
