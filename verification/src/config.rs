//! The caller's stored configuration: per-service API keys and the
//! accounts to scrobble for.  Reading and writing the file that holds a
//! `Config` is the caller's business; everything here works on the value.

use vstd::prelude::*;
use crate::text::str_eq;

verus! {

/// The API key pair registered for one service.
#[derive(Debug)]
pub struct ServiceKeys {
    pub api_key: String,
    pub api_secret: String,
}

impl Clone for ServiceKeys {
    fn clone(&self) -> (r: Self)
        ensures
            r == *self,
    {
        ServiceKeys { api_key: self.api_key.clone(), api_secret: self.api_secret.clone() }
    }
}

/// One stored account: the service it belongs to, the user name, and the
/// irreversible digest of the password.  The plain password is never
/// stored and never reaches this library.
#[derive(Debug)]
pub struct Account {
    pub service: String,
    pub username: String,
    pub password_md5: String,
}

impl Clone for Account {
    fn clone(&self) -> (r: Self)
        ensures
            r == *self,
    {
        Account {
            service: self.service.clone(),
            username: self.username.clone(),
            password_md5: self.password_md5.clone(),
        }
    }
}

/// The whole configuration: service keys, keyed by service name with the
/// earliest entry winning, and the list of accounts.
#[derive(Debug)]
pub struct Config {
    pub services: Vec<(String, ServiceKeys)>,
    pub accounts: Vec<Account>,
}

impl Default for Config {
    fn default() -> (c: Config)
        ensures
            c.services@.len() == 0,
            c.accounts@.len() == 0,
    {
        Config { services: Vec::new(), accounts: Vec::new() }
    }
}

/// The key pair stored for a service name, the earliest entry winning.
pub open spec fn spec_get_keys(services: Seq<(String, ServiceKeys)>, service: Seq<char>) -> Option<
    (Seq<char>, Seq<char>),
>
    decreases services.len(),
{
    if services.len() == 0 {
        None
    } else if services[0].0@ == service {
        Some((services[0].1.api_key@, services[0].1.api_secret@))
    } else {
        spec_get_keys(services.drop_first(), service)
    }
}

/// The first index whose entry names this service, if any.
pub open spec fn spec_service_index(services: Seq<(String, ServiceKeys)>, service: Seq<char>) -> Option<
    int,
>
    decreases services.len(),
{
    if services.len() == 0 {
        None
    } else if services[0].0@ == service {
        Some(0)
    } else {
        match spec_service_index(services.drop_first(), service) {
            Some(j) => Some(j + 1),
            None => None,
        }
    }
}

proof fn lemma_service_index_at(services: Seq<(String, ServiceKeys)>, service: Seq<char>, k: int)
    requires
        0 <= k <= services.len(),
        forall|j: int| 0 <= j < k ==> (#[trigger] services[j]).0@ != service,
        k < services.len() ==> services[k].0@ == service,
    ensures
        spec_service_index(services, service) == (if k < services.len() {
            Some(k)
        } else {
            None::<int>
        }),
    decreases k,
{
    if services.len() > 0 && k > 0 {
        lemma_service_index_at(services.drop_first(), service, k - 1);
    }
}

/// Stores the key pair for a service, replacing the first entry with that
/// name, or appending one.
pub fn set_service_keys(config: &mut Config, service: &str, api_key: &str, api_secret: &str)
    ensures
        final(config).accounts == old(config).accounts,
        match spec_service_index(old(config).services@, service@) {
            Some(i) => {
                &&& final(config).services@.len() == old(config).services@.len()
                &&& forall|j: int|
                    0 <= j < old(config).services@.len() && j != i ==> final(config).services@[j]
                        == old(config).services@[j]
                &&& final(config).services@[i].0@ == service@
                &&& final(config).services@[i].1.api_key@ == api_key@
                &&& final(config).services@[i].1.api_secret@ == api_secret@
            },
            None => {
                &&& final(config).services@.len() == old(config).services@.len() + 1
                &&& forall|j: int|
                    0 <= j < old(config).services@.len() ==> final(config).services@[j] == old(
                        config,
                    ).services@[j]
                &&& final(config).services@.last().0@ == service@
                &&& final(config).services@.last().1.api_key@ == api_key@
                &&& final(config).services@.last().1.api_secret@ == api_secret@
            },
        },
{
    let new_keys = ServiceKeys {
        api_key: String::from_str(api_key),
        api_secret: String::from_str(api_secret),
    };
    let mut i: usize = 0;
    while i < config.services.len()
        invariant
            i <= config.services@.len(),
            config.services == old(config).services,
            config.accounts == old(config).accounts,
            new_keys.api_key@ == api_key@,
            new_keys.api_secret@ == api_secret@,
            forall|j: int| 0 <= j < i ==> (#[trigger] config.services@[j]).0@ != service@,
        decreases config.services@.len() - i,
    {
        if str_eq(config.services[i].0.as_str(), service) {
            proof {
                lemma_service_index_at(config.services@, service@, i as int);
            }
            config.services.remove(i);
            config.services.insert(i, (String::from_str(service), new_keys));
            return ;
        }
        i = i + 1;
    }
    proof {
        lemma_service_index_at(config.services@, service@, config.services@.len() as int);
    }
    config.services.push((String::from_str(service), new_keys));
}

/// The stored key pair for a service, if any.
pub fn get_service_keys<'a>(config: &'a Config, service: &str) -> (r: Option<&'a ServiceKeys>)
    ensures
        match r {
            Some(k) => spec_get_keys(config.services@, service@) == Some(
                (k.api_key@, k.api_secret@),
            ),
            None => spec_get_keys(config.services@, service@) is None,
        },
{
    let ghost sv = config.services@;
    let mut i: usize = 0;
    proof {
        assert(sv.skip(0) =~= sv);
    }
    while i < config.services.len()
        invariant
            i <= sv.len(),
            sv == config.services@,
            spec_get_keys(sv, service@) == spec_get_keys(sv.skip(i as int), service@),
        decreases sv.len() - i,
    {
        proof {
            assert(sv.skip(i as int)[0] == sv[i as int]);
            assert(sv.skip(i as int).drop_first() =~= sv.skip(i + 1));
        }
        if str_eq(config.services[i].0.as_str(), service) {
            return Some(&config.services[i].1);
        }
        i = i + 1;
    }
    None
}

pub open spec fn spec_account_matches(a: Account, service: Seq<char>, username: Seq<char>) -> bool {
    a.service@ == service && a.username@ == username
}

/// The accounts left when one service and user name pair is removed.
pub open spec fn spec_retain_accounts(
    accounts: Seq<Account>,
    service: Seq<char>,
    username: Seq<char>,
) -> Seq<Account>
    decreases accounts.len(),
{
    if accounts.len() == 0 {
        Seq::empty()
    } else {
        let rest = spec_retain_accounts(accounts.drop_first(), service, username);
        if spec_account_matches(accounts[0], service, username) {
            rest
        } else {
            seq![accounts[0]] + rest
        }
    }
}

/// Drops every account with this service and user name; reports whether
/// any was dropped.
pub fn remove_account(config: &mut Config, service: &str, username: &str) -> (removed: bool)
    ensures
        final(config).services == old(config).services,
        final(config).accounts@ == spec_retain_accounts(
            old(config).accounts@,
            service@,
            username@,
        ),
        removed == (final(config).accounts@.len() != old(config).accounts@.len()),
{
    let before = config.accounts.len();
    let mut i: usize = 0;
    proof {
        assert(config.accounts@.take(0) =~= Seq::<Account>::empty());
        assert(config.accounts@.skip(0) =~= config.accounts@);
        assert(Seq::<Account>::empty() + spec_retain_accounts(
            config.accounts@,
            service@,
            username@,
        ) =~= spec_retain_accounts(config.accounts@, service@, username@));
    }
    while i < config.accounts.len()
        invariant
            i <= config.accounts@.len(),
            config.services == old(config).services,
            config.accounts@.len() <= old(config).accounts@.len(),
            spec_retain_accounts(old(config).accounts@, service@, username@) == config.accounts@.take(
                i as int,
            ) + spec_retain_accounts(config.accounts@.skip(i as int), service@, username@),
        decreases config.accounts@.len() - i,
    {
        let ghost accs = config.accounts@;
        proof {
            assert(accs.skip(i as int)[0] == accs[i as int]);
            assert(accs.skip(i as int).drop_first() =~= accs.skip(i + 1));
        }
        let is_match = str_eq(config.accounts[i].service.as_str(), service) && str_eq(
            config.accounts[i].username.as_str(),
            username,
        );
        if is_match {
            config.accounts.remove(i);
            proof {
                assert(config.accounts@.take(i as int) =~= accs.take(i as int));
                assert(config.accounts@.skip(i as int) =~= accs.skip(i + 1));
            }
        } else {
            proof {
                assert(accs.take(i + 1) =~= accs.take(i as int) + seq![accs[i as int]]);
                assert(accs.take(i as int) + (seq![accs[i as int]] + spec_retain_accounts(
                    accs.skip(i + 1),
                    service@,
                    username@,
                )) =~= accs.take(i + 1) + spec_retain_accounts(accs.skip(i + 1), service@, username@));
            }
            i = i + 1;
        }
    }
    proof {
        assert(config.accounts@.skip(i as int) =~= Seq::<Account>::empty());
        assert(config.accounts@.take(i as int) =~= config.accounts@);
        assert(config.accounts@ + Seq::<Account>::empty() =~= config.accounts@);
    }
    config.accounts.len() != before
}

/// The accounts kept by a service filter: all of them, or those of one
/// service.
pub open spec fn spec_filter_accounts(accounts: Seq<Account>, service: Option<Seq<char>>) -> Seq<
    Account,
>
    decreases accounts.len(),
{
    if accounts.len() == 0 {
        Seq::empty()
    } else {
        let rest = spec_filter_accounts(accounts.drop_first(), service);
        let keep = match service {
            Some(svc) => accounts[0].service@ == svc,
            None => true,
        };
        if keep {
            seq![accounts[0]] + rest
        } else {
            rest
        }
    }
}

/// The stored accounts, optionally narrowed to one service, in stored
/// order.
pub fn iter_accounts(config: &Config, service: Option<&str>) -> (r: Vec<Account>)
    ensures
        r@ == spec_filter_accounts(
            config.accounts@,
            match service {
                Some(s) => Some(s@),
                None => None,
            },
        ),
{
    let ghost svc_v = match service {
        Some(s) => Some(s@),
        None => None,
    };
    let ghost accs = config.accounts@;
    let mut out: Vec<Account> = Vec::new();
    let mut i: usize = 0;
    proof {
        assert(accs.skip(0) =~= accs);
        assert(out@ + spec_filter_accounts(accs, svc_v) =~= spec_filter_accounts(accs, svc_v));
    }
    while i < config.accounts.len()
        invariant
            i <= accs.len(),
            accs == config.accounts@,
            svc_v == match service {
                Some(s) => Some(s@),
                None => None::<Seq<char>>,
            },
            spec_filter_accounts(accs, svc_v) == out@ + spec_filter_accounts(
                accs.skip(i as int),
                svc_v,
            ),
        decreases accs.len() - i,
    {
        proof {
            assert(accs.skip(i as int)[0] == accs[i as int]);
            assert(accs.skip(i as int).drop_first() =~= accs.skip(i + 1));
            let keep_s = match svc_v {
                Some(svc) => accs[i as int].service@ == svc,
                None => true,
            };
            if keep_s {
                assert(spec_filter_accounts(accs.skip(i as int), svc_v) == seq![accs[i as int]]
                    + spec_filter_accounts(accs.skip(i + 1), svc_v));
            } else {
                assert(spec_filter_accounts(accs.skip(i as int), svc_v) == spec_filter_accounts(
                    accs.skip(i + 1),
                    svc_v,
                ));
            }
        }
        let keep = match service {
            Some(svc) => str_eq(config.accounts[i].service.as_str(), svc),
            None => true,
        };
        if keep {
            let ghost out_old = out@;
            out.push(config.accounts[i].clone());
            proof {
                assert(out@ =~= out_old.push(accs[i as int]));
                assert(out_old.push(accs[i as int]) + spec_filter_accounts(accs.skip(i + 1), svc_v)
                    =~= out_old + (seq![accs[i as int]] + spec_filter_accounts(
                    accs.skip(i + 1),
                    svc_v,
                )));
                assert(spec_filter_accounts(accs, svc_v) == out@ + spec_filter_accounts(
                    accs.skip(i + 1),
                    svc_v,
                ));
            }
        } else {
            proof {
                assert(spec_filter_accounts(accs, svc_v) == out@ + spec_filter_accounts(
                    accs.skip(i + 1),
                    svc_v,
                ));
            }
        }
        i = i + 1;
    }
    proof {
        assert(accs.skip(accs.len() as int) =~= Seq::<Account>::empty());
        assert(out@ + Seq::<Account>::empty() =~= out@);
    }
    out
}

/// The first index of an account for this service and user name, if any.
pub open spec fn spec_account_index(
    accounts: Seq<Account>,
    service: Seq<char>,
    username: Seq<char>,
) -> Option<int>
    decreases accounts.len(),
{
    if accounts.len() == 0 {
        None
    } else if spec_account_matches(accounts[0], service, username) {
        Some(0)
    } else {
        match spec_account_index(accounts.drop_first(), service, username) {
            Some(j) => Some(j + 1),
            None => None,
        }
    }
}

proof fn lemma_account_index_at(
    accounts: Seq<Account>,
    service: Seq<char>,
    username: Seq<char>,
    k: int,
)
    requires
        0 <= k <= accounts.len(),
        forall|j: int|
            0 <= j < k ==> !spec_account_matches(#[trigger] accounts[j], service, username),
        k < accounts.len() ==> spec_account_matches(accounts[k], service, username),
    ensures
        spec_account_index(accounts, service, username) == (if k < accounts.len() {
            Some(k)
        } else {
            None::<int>
        }),
    decreases k,
{
    if accounts.len() > 0 && k > 0 {
        lemma_account_index_at(accounts.drop_first(), service, username, k - 1);
    }
}

/// Stores an account's password digest: the first account with this
/// service and user name is updated, or one is appended.  Only the
/// digest is ever handed in; the plain password stays with the caller.
pub fn add_account(config: &mut Config, service: &str, username: &str, password_md5: &str)
    ensures
        final(config).services == old(config).services,
        match spec_account_index(old(config).accounts@, service@, username@) {
            Some(i) => {
                &&& final(config).accounts@.len() == old(config).accounts@.len()
                &&& forall|j: int|
                    0 <= j < old(config).accounts@.len() && j != i ==> final(config).accounts@[j]
                        == old(config).accounts@[j]
                &&& final(config).accounts@[i].service == old(config).accounts@[i].service
                &&& final(config).accounts@[i].username == old(config).accounts@[i].username
                &&& final(config).accounts@[i].password_md5@ == password_md5@
            },
            None => {
                &&& final(config).accounts@.len() == old(config).accounts@.len() + 1
                &&& forall|j: int|
                    0 <= j < old(config).accounts@.len() ==> final(config).accounts@[j] == old(
                        config,
                    ).accounts@[j]
                &&& final(config).accounts@.last().service@ == service@
                &&& final(config).accounts@.last().username@ == username@
                &&& final(config).accounts@.last().password_md5@ == password_md5@
            },
        },
{
    let mut i: usize = 0;
    while i < config.accounts.len()
        invariant
            i <= config.accounts@.len(),
            config.services == old(config).services,
            config.accounts == old(config).accounts,
            forall|j: int|
                0 <= j < i ==> !spec_account_matches(
                    #[trigger] config.accounts@[j],
                    service@,
                    username@,
                ),
        decreases config.accounts@.len() - i,
    {
        let is_match = str_eq(config.accounts[i].service.as_str(), service) && str_eq(
            config.accounts[i].username.as_str(),
            username,
        );
        if is_match {
            proof {
                lemma_account_index_at(config.accounts@, service@, username@, i as int);
            }
            let a = config.accounts.remove(i);
            config.accounts.insert(
                i,
                Account {
                    service: a.service,
                    username: a.username,
                    password_md5: String::from_str(password_md5),
                },
            );
            return ;
        }
        i = i + 1;
    }
    proof {
        lemma_account_index_at(config.accounts@, service@, username@, config.accounts@.len() as int);
    }
    config.accounts.push(
        Account {
            service: String::from_str(service),
            username: String::from_str(username),
            password_md5: String::from_str(password_md5),
        },
    );
}

} // verus!
