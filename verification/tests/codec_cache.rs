//! The serialize/compress boundary and the cache layer.

use license_fetcher::cache::{populate_with_cache, CacheError, LicenseCache};
use license_fetcher::error::UnpackError;
use license_fetcher::{Package, PackageList};

fn pkg(name: &str, version: &str) -> Package {
    Package::new(
        name.to_owned(),
        version.to_owned(),
        vec!["Ann".to_owned(), "Ben".to_owned()],
        Some("words".to_owned()),
        None,
        Some("https://example.invalid/repo".to_owned()),
        Some("MIT".to_owned()),
        None,
    )
}

#[test]
fn encode_then_decode_round_trips() {
    let mut a = pkg("alpha", "1.2.3");
    a.is_root_pkg = true;
    a.license_text = Some("LICENSE TEXT A".to_owned());
    let mut b = pkg("beta", "0.1.0");
    b.restored_from_cache = true;
    let list = PackageList(vec![a, b]);
    let bytes = list.encode().unwrap();
    assert!(!bytes.is_empty());
    let back = PackageList::from_encoded(&bytes).unwrap();
    assert_eq!(back.0.len(), list.0.len());
    for (p, q) in back.0.iter().zip(list.0.iter()) {
        assert_eq!(p.name, q.name);
        assert_eq!(p.version, q.version);
        assert_eq!(p.authors, q.authors);
        assert_eq!(p.description, q.description);
        assert_eq!(p.homepage, q.homepage);
        assert_eq!(p.repository, q.repository);
        assert_eq!(p.license_identifier, q.license_identifier);
        assert_eq!(p.license_text, q.license_text);
        assert_eq!(p.restored_from_cache, q.restored_from_cache);
        assert_eq!(p.is_root_pkg, q.is_root_pkg);
        assert_eq!(p.name_version, q.name_version);
    }
}

#[test]
fn decoding_an_empty_buffer_is_a_distinct_error() {
    match PackageList::from_encoded(&[]) {
        Err(UnpackError::Empty) => {}
        _ => panic!("an empty buffer must fail with the empty-input error"),
    }
}

#[test]
fn decoding_garbage_fails() {
    assert!(PackageList::from_encoded(&[1, 2, 3, 4]).is_err());
}

#[test]
fn cache_hit_populates_unresolved_package() {
    let mut cached = pkg("libA", "1.0");
    cached.license_text = Some("MIT text...".to_owned());
    let cache_bytes = PackageList(vec![cached]).encode().unwrap();

    let mut list = PackageList(vec![pkg("libA", "1.0"), pkg("libB", "2.0")]);
    populate_with_cache(&mut list, Some(&cache_bytes)).unwrap();
    assert_eq!(list.0[0].license_text.as_deref(), Some("MIT text..."));
    assert!(list.0[0].restored_from_cache);
    assert_eq!(list.0[1].license_text, None);
    assert!(!list.0[1].restored_from_cache);
}

#[test]
fn cache_does_not_overwrite_resolved_text() {
    let mut cached = pkg("libA", "1.0");
    cached.license_text = Some("from cache".to_owned());
    let cache_bytes = PackageList(vec![cached]).encode().unwrap();

    let mut already = pkg("libA", "1.0");
    already.license_text = Some("already here".to_owned());
    let mut list = PackageList(vec![already]);
    populate_with_cache(&mut list, Some(&cache_bytes)).unwrap();
    assert_eq!(list.0[0].license_text.as_deref(), Some("already here"));
    assert!(!list.0[0].restored_from_cache);
}

#[test]
fn absent_or_invalid_cache_is_not_fatal() {
    let mut list = PackageList(vec![pkg("libA", "1.0")]);
    let r = populate_with_cache(&mut list, None);
    assert_eq!(r, Err(CacheError::NotBuildScript));
    assert!(!CacheError::NotBuildScript.is_fatal());

    let garbage: Vec<u8> = vec![9, 9, 9];
    let r = populate_with_cache(&mut list, Some(&garbage));
    assert_eq!(r, Err(CacheError::Invalid));
    assert!(!CacheError::Invalid.is_fatal());
    assert!(CacheError::ReadError.is_fatal());
    assert_eq!(list.0[0].license_text, None);
}

#[test]
fn license_cache_keeps_first_entry_per_key() {
    let mut cache = LicenseCache::new();
    let mut a = pkg("libA", "1.0");
    a.license_text = Some("first".to_owned());
    cache.write_licenses_from_package_list(&PackageList(vec![a]));
    let mut again = pkg("libA", "1.0");
    again.license_text = Some("second".to_owned());
    cache.write_licenses_from_package_list(&PackageList(vec![again]));
    assert_eq!(
        cache.get_license(&"libA".to_owned(), &"1.0".to_owned()),
        Some("first".to_owned())
    );
    assert_eq!(cache.get_license(&"libA".to_owned(), &"2.0".to_owned()), None);
}

#[test]
fn license_cache_loads_licenses_into_list() {
    let mut cache = LicenseCache::new();
    let mut a = pkg("libA", "1.0");
    a.license_text = Some("cached text".to_owned());
    cache.write_licenses_from_package_list(&PackageList(vec![a]));

    let mut stale = pkg("libB", "2.0");
    stale.license_text = Some("will be dropped".to_owned());
    let mut list = PackageList(vec![pkg("libA", "1.0"), stale]);
    cache.load_licenses_for_package_list(&mut list);
    assert_eq!(list.0[0].license_text.as_deref(), Some("cached text"));
    assert_eq!(list.0[1].license_text, None);
}
