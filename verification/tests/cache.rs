use bitcli::api::{Bitlink, Shorten};
use bitcli::cache::{decode_url, BitlinkCache, CacheRow};
use bitcli::weburl::Url;

fn url(text: &str) -> Url {
    Url::parse(text).expect("valid URL")
}

fn shorten() -> Shorten {
    Shorten {
        long_url: url("https://example.com"),
        domain: Some("bit.ly".to_string()),
        group_guid: "test-group-guid".to_string(),
    }
}

fn link() -> Bitlink {
    Bitlink {
        link: url("https://bit.ly/4ePsyXN"),
        id: "some-bitlink-id".to_string(),
        long_url: url("https://example.com"),
    }
}

fn cache() -> BitlinkCache {
    match BitlinkCache::new("test", Some("/tmp/some-cache-dir")) {
        Some(cache) => cache,
        None => panic!("failed to create new 'test' cache"),
    }
}

fn row() -> CacheRow {
    CacheRow {
        id: "some-bitlink-id".to_string(),
        link: "https://bit.ly/4ePsyXN".to_string(),
        long_url: "https://example.com/".to_string(),
        domain: Some("bit.ly".to_string()),
        group_guid: "test-group-guid".to_string(),
    }
}

#[test]
fn set_is_idempotent() {
    let mut cache = cache();
    let shorten = shorten();
    let link = link();

    let set = cache.set(&shorten, &link);
    assert!(set, "cache set should succeed on unique entry");

    let set = cache.set(&shorten, &link);
    assert!(!set, "cache set should ignore an existing entry");

    assert_eq!(cache.len(), 1);
    assert_eq!(cache.get(&shorten), Some(link));
}

#[test]
fn get_non_existent_yield_nothing() {
    let cache = cache();
    let link = cache.get(&shorten());
    assert!(link.is_none(), "expected empty cache, got {link:?}");
}

#[test]
fn set_get_is_id_link() {
    let mut cache = cache();
    let shorten = shorten();
    let link = link();

    cache.set(&shorten, &link);
    let cached = cache.get(&shorten);

    assert_eq!(Some(link), cached);
}

#[test]
fn disable_cache() {
    let cache = BitlinkCache::new("test-disable-cache", Some(""));
    assert!(cache.is_none(), "empty cache dir should disable the cache");
}

#[test]
fn unspecified_cache_dir_keeps_the_cache() {
    let cache = BitlinkCache::new("v4", None).expect("cache in the platform's directory");
    assert_eq!(cache.len(), 0);
    assert_eq!(cache.file_name(), "v4.db");
    assert_eq!(cache.directory(), None);

    let cache = BitlinkCache::new("v4", Some("~/../../tmp")).expect("cache in this directory");
    assert_eq!(cache.directory(), Some("~/../../tmp"));
}

#[test]
fn lookup_matches_the_whole_key() {
    let mut cache = cache();
    assert!(cache.set(&shorten(), &link()));

    let other_group = Shorten { group_guid: "other-group".to_string(), ..shorten() };
    assert_eq!(cache.get(&other_group), None);

    let other_domain = Shorten { domain: Some("other.domain".to_string()), ..shorten() };
    assert_eq!(cache.get(&other_domain), None);

    let no_domain = Shorten { domain: None, ..shorten() };
    assert_eq!(cache.get(&no_domain), None);

    let other_url = Shorten { long_url: url("http://example.com"), ..shorten() };
    assert_eq!(cache.get(&other_url), None);
}

#[test]
fn absent_domain_is_a_key_of_its_own() {
    let mut cache = cache();
    let no_domain = Shorten { domain: None, ..shorten() };
    let other = Bitlink { id: "other-id".to_string(), ..link() };

    assert!(cache.set(&no_domain, &link()));
    assert!(cache.set(&shorten(), &other));
    assert!(!cache.set(&no_domain, &other));

    assert_eq!(cache.get(&no_domain), Some(link()));
    assert_eq!(cache.get(&shorten()), Some(other));
}

#[test]
fn identifier_is_cached_once() {
    let mut cache = cache();
    assert!(cache.set(&shorten(), &link()));

    let other_url = Shorten { long_url: url("http://example.com"), ..shorten() };
    assert!(!cache.set(&other_url, &link()));
    assert_eq!(cache.get(&other_url), None);
    assert_eq!(cache.len(), 1);
}

#[test]
fn losing_write_does_not_overwrite() {
    let mut cache = cache();
    let winner = link();
    let loser = Bitlink { id: "late".to_string(), link: url("https://bit.ly/late"), ..link() };

    assert!(cache.set(&shorten(), &winner));
    assert!(!cache.set(&shorten(), &loser));
    assert_eq!(cache.get(&shorten()), Some(winner));
}

#[test]
fn hit_returns_the_long_url_of_the_request() {
    let mut cache = cache();
    let answered = Bitlink { long_url: url("https://elsewhere.example"), ..link() };

    assert!(cache.set(&shorten(), &answered));
    assert_eq!(cache.get(&shorten()), Some(link()));
}

#[test]
fn row_for_holds_the_texts_of_request_and_link() {
    assert_eq!(BitlinkCache::row_for(&shorten(), &link()), row());
}

#[test]
fn loaded_row_is_found_by_its_key() {
    let mut cache = cache();
    assert!(cache.load(row()));
    assert_eq!(cache.get(&shorten()), Some(link()));
    assert!(!cache.load(row()));
    assert!(!cache.set(&shorten(), &link()));
    assert_eq!(cache.len(), 1);
}

#[test]
fn row_without_url_is_not_loaded() {
    let mut cache = cache();
    assert!(!cache.load(CacheRow { link: "no link".to_string(), ..row() }));
    assert!(!cache.load(CacheRow { long_url: "no url".to_string(), ..row() }));
    assert_eq!(cache.len(), 0);

    let error = Bitlink::from_row(&CacheRow { link: "no link".to_string(), ..row() })
        .expect_err("no link");
    assert_eq!(error.index, "link");
    assert_eq!(error.source.message, "relative URL without a base");

    let error = Bitlink::from_row(&CacheRow { long_url: "no url".to_string(), ..row() })
        .expect_err("no url");
    assert_eq!(error.index, "long_url");

    let both = CacheRow { link: "no link".to_string(), long_url: "no url".to_string(), ..row() };
    assert_eq!(Bitlink::from_row(&both).expect_err("no link").index, "link");
}

#[test]
fn row_decodes_to_its_link() {
    assert_eq!(Bitlink::from_row(&row()), Ok(link()));
    assert_eq!(decode_url("link", "HTTPS://BIT.LY/x"), Ok(url("https://bit.ly/x")));
}

#[test]
fn relative_cache_dir() {
    let cache = BitlinkCache::new("test-relative-cache-dir", Some("~/../../tmp/some-temp-dir"));

    assert!(
        cache.is_some(),
        "relative cache dir path should be resolved"
    );
}
