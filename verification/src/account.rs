//! Account records and the namespace-pattern filter that narrows a batch.

use vstd::prelude::*;
use crate::text::{occurs, contains_sub};

verus! {

/// One operator-defined target environment: a metric namespace, an account
/// identifier, and a region.
#[derive(Debug)]
pub struct AccountConfig {
    pub namespace: String,
    pub account_id: String,
    pub region: String,
}

/// The mathematical content of an account record: its three fields as
/// character sequences.
pub struct AccountView {
    pub namespace: Seq<char>,
    pub account_id: Seq<char>,
    pub region: Seq<char>,
}

impl View for AccountConfig {
    type V = AccountView;

    open spec fn view(&self) -> AccountView {
        AccountView {
            namespace: self.namespace@,
            account_id: self.account_id@,
            region: self.region@,
        }
    }
}

/// The contents of a sequence of account records.
pub open spec fn account_views(s: Seq<AccountConfig>) -> Seq<AccountView> {
    s.map_values(|a: AccountConfig| a@)
}

/// The ordered account list as loaded from the configuration file; iteration
/// order of the batch is the file order.
#[derive(Debug)]
pub struct AccountsConfig {
    pub account: Vec<AccountConfig>,
}

/// The subsequence of `accounts`, in order, whose namespace contains `pat`.
pub open spec fn matching_accounts(accounts: Seq<AccountConfig>, pat: Seq<char>) -> Seq<
    AccountConfig,
> {
    accounts.filter(|a: AccountConfig| occurs(a.namespace@, pat))
}

/// Narrows an optional account list to the accounts whose namespace contains
/// the pattern as a substring. Without a pattern the whole list is kept, in
/// order; an absent list yields the empty batch rather than a failure.
pub fn filter_accounts(pattern: Option<&str>, accounts: Option<AccountsConfig>) -> (r: Vec<
    AccountConfig,
>)
    ensures
        r@ == (match (pattern, accounts) {
            (_, None) => Seq::<AccountConfig>::empty(),
            (None, Some(c)) => c.account@,
            (Some(p), Some(c)) => matching_accounts(c.account@, p@),
        }),
{
    match accounts {
        None => Vec::new(),
        Some(c) => {
            match pattern {
                None => c.account,
                Some(p) => {
                    let mut rest = c.account;
                    let mut out: Vec<AccountConfig> = Vec::new();
                    let ghost orig = rest@;
                    let ghost mut done: Seq<AccountConfig> = Seq::empty();
                    proof {
                        assert(orig =~= done + rest@);
                        assert(matching_accounts(done, p@) =~= Seq::<AccountConfig>::empty());
                    }
                    while rest.len() > 0
                        invariant
                            orig == done + rest@,
                            out@ == matching_accounts(done, p@),
                        decreases rest.len(),
                    {
                        let ghost prev_rest = rest@;
                        let a = rest.remove(0);
                        let ghost ga = a;
                        let keep = contains_sub(a.namespace.as_str(), p);
                        proof {
                            reveal_with_fuel(Seq::<_>::filter, 2);
                            assert(done.push(ga).drop_last() =~= done);
                            assert(done.push(ga).last() == ga);
                            assert(matching_accounts(done.push(ga), p@) == (if occurs(
                                ga.namespace@,
                                p@,
                            ) {
                                matching_accounts(done, p@).push(ga)
                            } else {
                                matching_accounts(done, p@)
                            }));
                            assert(prev_rest =~= seq![ga] + rest@);
                            assert(done.push(ga) + rest@ =~= done + prev_rest);
                        }
                        if keep {
                            out.push(a);
                        }
                        proof {
                            done = done.push(ga);
                        }
                    }
                    proof {
                        assert(done =~= orig);
                    }
                    out
                },
            }
        },
    }
}

/// Law: every account the filter keeps has a namespace containing the
/// pattern, no account it keeps fails to match, and every matching account
/// of the input is kept.
pub proof fn lemma_filter_accounts_matches(accounts: Seq<AccountConfig>, pat: Seq<char>)
    ensures
        forall|k: int|
            0 <= k < matching_accounts(accounts, pat).len() ==> occurs(
                (#[trigger] matching_accounts(accounts, pat)[k]).namespace@,
                pat,
            ),
        forall|a: AccountConfig|
            #[trigger] matching_accounts(accounts, pat).contains(a) ==> occurs(a.namespace@, pat),
        forall|k: int|
            0 <= k < accounts.len() && occurs((#[trigger] accounts[k]).namespace@, pat)
                ==> matching_accounts(accounts, pat).contains(accounts[k]),
{
    broadcast use vstd::seq_lib::group_filter_ensures;

    let pred = |a: AccountConfig| occurs(a.namespace@, pat);
    let f = accounts.filter(pred);
    assert forall|a: AccountConfig| f.contains(a) implies occurs(a.namespace@, pat) by {
        let k = choose|k: int| 0 <= k < f.len() && f[k] == a;
        assert(pred(f[k]));
    }
}

} // verus!
