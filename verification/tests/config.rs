use cobblestone::config::{
    add_account, get_service_keys, iter_accounts, remove_account, set_service_keys, Config,
};

#[test]
fn keys_are_stored_and_replaced() {
    let mut config = Config::default();
    assert!(get_service_keys(&config, "lastfm").is_none());
    set_service_keys(&mut config, "lastfm", "k1", "s1");
    let keys = get_service_keys(&config, "lastfm").unwrap();
    assert_eq!(keys.api_key, "k1");
    assert_eq!(keys.api_secret, "s1");
    set_service_keys(&mut config, "lastfm", "k2", "s2");
    let keys = get_service_keys(&config, "lastfm").unwrap();
    assert_eq!(keys.api_key, "k2");
    assert_eq!(keys.api_secret, "s2");
    assert_eq!(config.services.len(), 1);
}

#[test]
fn accounts_are_added_updated_and_removed() {
    let mut config = Config::default();
    add_account(&mut config, "lastfm", "alice", "digest-one");
    add_account(&mut config, "librefm", "alice", "digest-two");
    add_account(&mut config, "lastfm", "alice", "digest-three");
    assert_eq!(config.accounts.len(), 2);
    assert_eq!(config.accounts[0].password_md5, "digest-three");

    assert!(remove_account(&mut config, "lastfm", "alice"));
    assert_eq!(config.accounts.len(), 1);
    assert!(!remove_account(&mut config, "lastfm", "alice"));
}

#[test]
fn iter_accounts_filters_by_service() {
    let mut config = Config::default();
    add_account(&mut config, "lastfm", "alice", "d1");
    add_account(&mut config, "librefm", "bob", "d2");
    add_account(&mut config, "lastfm", "carol", "d3");

    let all = iter_accounts(&config, None);
    assert_eq!(all.len(), 3);
    let lastfm = iter_accounts(&config, Some("lastfm"));
    assert_eq!(lastfm.len(), 2);
    assert_eq!(lastfm[0].username, "alice");
    assert_eq!(lastfm[1].username, "carol");
}
