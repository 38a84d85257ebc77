//! The cache layer: reuse license text resolved by a prior run.
//!
//! Before any disk scan, every not-yet-resolved package is looked up by its
//! `name_version` key in a previously persisted package list; a hit fills in
//! the license text and marks the package as restored from cache. An absent
//! or corrupt cache skips the step without failing the run; only an I/O
//! failure while reading an otherwise valid cache location is fatal, and
//! that one is raised by the caller that reads the file.

use vstd::prelude::*;

verus! {

use crate::{Package, PackageList, package_same_except_cache, package_same_except_license,
    package_copies};
use crate::codec::{encoded_bytes, packages_view_eq};

/// Why the cache step could not run.
#[derive(Debug, Clone, Copy, PartialEq, Eq, Structural)]
pub enum CacheError {
    /// No build-script environment, so no cache location exists here.
    NotBuildScript,
    /// The cache is absent or does not decode.
    Invalid,
    /// Reading an otherwise valid cache location failed.
    ReadError,
}

impl CacheError {
    /// A short description of the failure.
    pub fn message(&self) -> &'static str {
        match self {
            CacheError::NotBuildScript => "You are running a build script (`build.rs`) only function during runtime.",
            CacheError::Invalid => "Cache was not able to be found or is invalid.",
            CacheError::ReadError => "Failed to read valid cache path.",
        }
    }

    /// Only a read failure on a valid cache location aborts the run; an
    /// absent or invalid cache merely skips the cache step.
    pub fn is_fatal(&self) -> (r: bool)
        ensures
            r == (*self is ReadError),
    {
        match self {
            CacheError::ReadError => true,
            _ => false,
        }
    }
}

/// The license text the cache holds for key `nv`: the text of the first
/// cached package with that key and a populated license text.
pub open spec fn cache_license_for(cache: Seq<Package>, nv: Seq<char>) -> Option<String>
    decreases cache.len(),
{
    if cache.len() == 0 {
        None
    } else if cache[0].name_version@ == nv && cache[0].license_text is Some {
        cache[0].license_text
    } else {
        cache_license_for(cache.drop_first(), nv)
    }
}

/// Look up the cached license text for key `nv`.
fn cache_lookup(cache: &PackageList, nv: &String) -> (r: Option<String>)
    ensures
        r == cache_license_for(cache.0@, nv@),
{
    let mut i: usize = 0;
    proof {
        assert(cache.0@.skip(0) =~= cache.0@);
    }
    while i < cache.0.len()
        invariant
            i <= cache.0@.len(),
            cache_license_for(cache.0@, nv@) == cache_license_for(
                cache.0@.skip(i as int),
                nv@,
            ),
        decreases cache.0@.len() - i,
    {
        proof {
            assert(cache.0@.skip(i as int)[0] == cache.0@[i as int]);
            assert(cache.0@.skip(i as int).drop_first() =~= cache.0@.skip(i + 1));
        }
        if cache.0[i].name_version == *nv {
            match &cache.0[i].license_text {
                Some(t) => {
                    return Some(t.clone());
                },
                None => {},
            }
        }
        i += 1;
    }
    None
}

/// The outcome of the cache step for one package: `p` after consulting the
/// cache for `q`. A package whose license text was already populated is left
/// alone; otherwise a cache hit on its key fills the text in and marks the
/// package restored, and a miss leaves it untouched.
pub open spec fn cache_applied(p: Package, q: Package, cache: Seq<Package>) -> bool {
    if q.license_text is Some {
        package_copies(p, q)
    } else {
        match cache_license_for(cache, q.name_version@) {
            Some(t) => {
                &&& package_same_except_cache(p, q)
                &&& p.license_text == Some(t)
                &&& p.restored_from_cache
            },
            None => package_copies(p, q),
        }
    }
}

/// Fill in not-yet-resolved packages from a previously persisted package
/// list: a hit populates `license_text` and sets `restored_from_cache`; a
/// miss leaves the package for the disk scan.
pub fn populate_with_cache_list(pkg_list: &mut PackageList, cache: &PackageList)
    ensures
        final (pkg_list).0@.len() == old(pkg_list).0@.len(),
        forall|i: int|
            0 <= i < old(pkg_list).0@.len() ==> cache_applied(
                #[trigger] final (pkg_list).0@[i],
                old(pkg_list).0@[i],
                cache.0@,
            ),
{
    let ghost orig = pkg_list.0@;
    let mut i: usize = 0;
    while i < pkg_list.0.len()
        invariant
            i <= orig.len(),
            pkg_list.0@.len() == orig.len(),
            forall|k: int|
                i <= k < orig.len() ==> #[trigger] pkg_list.0@[k] == orig[k],
            forall|k: int|
                0 <= k < i ==> cache_applied(#[trigger] pkg_list.0@[k], orig[k], cache.0@),
        decreases orig.len() - i,
    {
        let needs = pkg_list.0[i].license_text.is_none();
        if needs {
            match cache_lookup(cache, &pkg_list.0[i].name_version) {
                Some(t) => {
                    let mut p = pkg_list.0[i].clone();
                    p.license_text = Some(t);
                    p.restored_from_cache = true;
                    pkg_list.0.set(i, p);
                },
                None => {},
            }
        }
        proof {
            assert(cache_applied(pkg_list.0@[i as int], orig[i as int], cache.0@));
        }
        i += 1;
    }
}

/// One persisted cache entry: a `(name, version)` key and its license text.
pub type CacheEntry = ((String, String), String);

/// The text under the first entry whose key matches `(name, version)`.
pub open spec fn lc_lookup(data: Seq<CacheEntry>, name: Seq<char>, version: Seq<char>) -> Option<
    String,
>
    decreases data.len(),
{
    if data.len() == 0 {
        None
    } else if data[0].0.0@ == name && data[0].0.1@ == version {
        Some(data[0].1)
    } else {
        lc_lookup(data.drop_first(), name, version)
    }
}

/// Appending an entry changes a lookup only where it found nothing and the
/// new entry's key matches.
proof fn lemma_lc_lookup_push(data: Seq<CacheEntry>, e: CacheEntry, name: Seq<char>, version: Seq<
    char,
>)
    ensures
        lc_lookup(data.push(e), name, version) == if lc_lookup(data, name, version) is Some {
            lc_lookup(data, name, version)
        } else if e.0.0@ == name && e.0.1@ == version {
            Some(e.1)
        } else {
            None::<String>
        },
    decreases data.len(),
{
    if data.len() == 0 {
        assert(data.push(e).drop_first() =~= Seq::<CacheEntry>::empty());
        assert(data.push(e)[0] == e);
    } else {
        assert(data.push(e)[0] == data[0]);
        lemma_lc_lookup_push(data.drop_first(), e, name, version);
        assert(data.push(e).drop_first() =~= data.drop_first().push(e));
    }
}

/// The license text of the first listed package with key `(name, version)`
/// and a populated license text.
pub open spec fn list_license_for(
    pkgs: Seq<Package>,
    name: Seq<char>,
    version: Seq<char>,
) -> Option<String>
    decreases pkgs.len(),
{
    if pkgs.len() == 0 {
        None
    } else if pkgs[0].name@ == name && pkgs[0].version@ == version && pkgs[0].license_text
        is Some {
        pkgs[0].license_text
    } else {
        list_license_for(pkgs.drop_first(), name, version)
    }
}

/// Appending a package changes the first-match text only where nothing
/// matched before and the new package matches.
proof fn lemma_list_license_push(pkgs: Seq<Package>, p: Package, name: Seq<char>, version: Seq<
    char,
>)
    ensures
        list_license_for(pkgs, name, version) is Some ==> list_license_for(
            pkgs.push(p),
            name,
            version,
        ) == list_license_for(pkgs, name, version),
        list_license_for(pkgs, name, version) is None && p.name@ == name && p.version@ == version
            && p.license_text is Some ==> list_license_for(pkgs.push(p), name, version)
            == p.license_text,
        list_license_for(pkgs, name, version) is None && !(p.name@ == name && p.version@ == version
            && p.license_text is Some) ==> list_license_for(pkgs.push(p), name, version) is None,
    decreases pkgs.len(),
{
    if pkgs.len() == 0 {
        assert(pkgs.push(p).drop_first() =~= Seq::<Package>::empty());
        assert(pkgs.push(p)[0] == p);
    } else {
        assert(pkgs.push(p)[0] == pkgs[0]);
        lemma_list_license_push(pkgs.drop_first(), p, name, version);
        assert(pkgs.push(p).drop_first() =~= pkgs.drop_first().push(p));
    }
}

/// A persisted mapping from a package's `(name, version)` key to license
/// text fetched by a prior run.
pub struct LicenseCache {
    data: Vec<CacheEntry>,
}

impl LicenseCache {
    /// The entries, in insertion order.
    pub closed spec fn entries(self) -> Seq<CacheEntry> {
        self.data@
    }

    /// An empty cache.
    pub fn new() -> (r: Self)
        ensures
            r.entries().len() == 0,
    {
        LicenseCache { data: Vec::new() }
    }

    /// The cached text under key `(name, version)`.
    pub fn get_license(&self, name: &String, version: &String) -> (r: Option<String>)
        ensures
            r == lc_lookup(self.entries(), name@, version@),
    {
        let mut i: usize = 0;
        proof {
            assert(self.data@.skip(0) =~= self.data@);
        }
        while i < self.data.len()
            invariant
                i <= self.data@.len(),
                lc_lookup(self.data@, name@, version@) == lc_lookup(
                    self.data@.skip(i as int),
                    name@,
                    version@,
                ),
            decreases self.data@.len() - i,
        {
            proof {
                assert(self.data@.skip(i as int)[0] == self.data@[i as int]);
                assert(self.data@.skip(i as int).drop_first() =~= self.data@.skip(i + 1));
            }
            if self.data[i].0.0 == *name && self.data[i].0.1 == *version {
                return Some(self.data[i].1.clone());
            }
            i += 1;
        }
        None
    }

    /// Set every package's license text to what the cache holds under its
    /// `(name, version)` key; a package absent from the cache loses any text
    /// it carried.
    pub fn load_licenses_for_package_list(&self, list: &mut PackageList)
        ensures
            final (list).0@.len() == old(list).0@.len(),
            forall|i: int|
                0 <= i < old(list).0@.len() ==> package_same_except_license(
                    #[trigger] final (list).0@[i],
                    old(list).0@[i],
                ) && final (list).0@[i].license_text == lc_lookup(
                    self.entries(),
                    old(list).0@[i].name@,
                    old(list).0@[i].version@,
                ),
    {
        let ghost orig = list.0@;
        let mut i: usize = 0;
        while i < list.0.len()
            invariant
                i <= orig.len(),
                list.0@.len() == orig.len(),
                forall|k: int| i <= k < orig.len() ==> #[trigger] list.0@[k] == orig[k],
                forall|k: int|
                    0 <= k < i ==> package_same_except_license(#[trigger] list.0@[k], orig[k])
                        && list.0@[k].license_text == lc_lookup(
                        self.entries(),
                        orig[k].name@,
                        orig[k].version@,
                    ),
            decreases orig.len() - i,
        {
            let text = self.get_license(&list.0[i].name, &list.0[i].version);
            let mut p = list.0[i].clone();
            p.license_text = text;
            list.0.set(i, p);
            i += 1;
        }
    }

    /// Record the license text of every listed package that carries one,
    /// without overwriting an existing entry: after the call, a key resolves
    /// to what it resolved to before, or else to the text of the first
    /// listed package with that key and a text.
    pub fn write_licenses_from_package_list(&mut self, list: &PackageList)
        ensures
            forall|n: Seq<char>, v: Seq<char>|
                #[trigger] lc_lookup(final (self).entries(), n, v) == if lc_lookup(
                    old(self).entries(),
                    n,
                    v,
                ) is Some {
                    lc_lookup(old(self).entries(), n, v)
                } else {
                    list_license_for(list.0@, n, v)
                },
    {
        let ghost orig = self.data@;
        let mut i: usize = 0;
        proof {
            assert(list.0@.take(0) =~= Seq::<Package>::empty());
        }
        while i < list.0.len()
            invariant
                i <= list.0@.len(),
                forall|n: Seq<char>, v: Seq<char>|
                    #[trigger] lc_lookup(self.data@, n, v) == if lc_lookup(orig, n, v) is Some {
                        lc_lookup(orig, n, v)
                    } else {
                        list_license_for(list.0@.take(i as int), n, v)
                    },
            decreases list.0@.len() - i,
        {
            let ghost data0 = self.data@;
            let p = &list.0[i];
            let mut inserted: bool = false;
            match &p.license_text {
                Some(text) => {
                    if self.get_license(&p.name, &p.version).is_none() {
                        let e = ((p.name.clone(), p.version.clone()), text.clone());
                        proof {
                            assert(e.0.0@ == p.name@ && e.0.1@ == p.version@ && e.1 == *text);
                        }
                        self.data.push(e);
                        inserted = true;
                    }
                },
                None => {},
            }
            proof {
                let pk = list.0@[i as int];
                assert forall|n: Seq<char>, v: Seq<char>| #[trigger] lc_lookup(self.data@, n, v)
                    == (if lc_lookup(orig, n, v) is Some {
                    lc_lookup(orig, n, v)
                } else {
                    list_license_for(list.0@.take(i + 1), n, v)
                }) by {
                    assert(list.0@.take(i + 1).drop_last() =~= list.0@.take(i as int));
                    assert(list.0@.take(i + 1) =~= list.0@.take(i as int).push(pk));
                    lemma_list_license_push(list.0@.take(i as int), pk, n, v);
                    if inserted {
                        lemma_lc_lookup_push(data0, self.data@.last(), n, v);
                        assert(self.data@.drop_last() =~= data0);
                    }
                }
            }
            i += 1;
        }
        proof {
            assert(list.0@.take(list.0@.len() as int) =~= list.0@);
        }
    }
}

/// `cache` is what decoding `bytes` yields: where the bytes are the encoded
/// artifact of some package list, the cache carries that list's contents.
pub open spec fn cache_decoded_from(cache: Seq<Package>, bytes: Seq<u8>) -> bool {
    forall|src: Seq<Package>|
        bytes == encoded_bytes(src) && bytes.len() > 0 ==> #[trigger] packages_view_eq(cache, src)
}

/// Decode a persisted cache and fill in not-yet-resolved packages from it.
///
/// `None` for the bytes means no build-script environment offers a cache
/// location; bytes that do not decode mean an absent or corrupt cache. Both
/// skip the step without touching the list; they are reported so the caller
/// can log them, and neither is fatal (see [`CacheError::is_fatal`]); the
/// fatal read error belongs to the caller that reads the file and is never
/// produced here. On the encoded artifact of any package list the step
/// succeeds.
pub fn populate_with_cache(pkg_list: &mut PackageList, cache_bytes: Option<&Vec<u8>>) -> (r:
    Result<(), CacheError>)
    ensures
        match r {
            Ok(()) => cache_bytes is Some && exists|cache: Seq<Package>|
                {
                    &&& #[trigger] cache_decoded_from(cache, cache_bytes->Some_0@)
                    &&& final (pkg_list).0@.len() == old(pkg_list).0@.len()
                    &&& forall|i: int|
                        0 <= i < old(pkg_list).0@.len() ==> #[trigger] cache_applied(
                            final (pkg_list).0@[i],
                            old(pkg_list).0@[i],
                            cache,
                        )
                },
            Err(e) => {
                &&& !(e is ReadError)
                &&& (e is NotBuildScript <==> cache_bytes is None)
                &&& (e is Invalid ==> cache_bytes is Some && !(cache_bytes->Some_0@.len() > 0
                    && exists|src: Seq<Package>| cache_bytes->Some_0@ == encoded_bytes(src)))
                &&& *final (pkg_list) == *old(pkg_list)
            },
        },
        cache_bytes is Some && cache_bytes->Some_0@.len() > 0 && (exists|src: Seq<Package>|
            cache_bytes->Some_0@ == encoded_bytes(src)) ==> r is Ok,
{
    let bytes = match cache_bytes {
        Some(b) => b,
        None => {
            return Err(CacheError::NotBuildScript);
        },
    };
    let cache = match PackageList::from_encoded(bytes.as_slice()) {
        Ok(c) => c,
        Err(_) => {
            proof {
                assert(!(bytes@.len() > 0 && exists|src: Seq<Package>|
                    bytes@ == encoded_bytes(src))) by {
                    if bytes@.len() > 0 && exists|src: Seq<Package>| bytes@ == encoded_bytes(
                        src,
                    ) {
                        let src = choose|src: Seq<Package>| bytes@ == encoded_bytes(src);
                        assert(bytes@ == encoded_bytes(src) && bytes@.len() > 0);
                    }
                }
            }
            return Err(CacheError::Invalid);
        },
    };
    let ghost cache_view = cache.0@;
    populate_with_cache_list(pkg_list, &cache);
    proof {
        assert(cache_decoded_from(cache_view, bytes@));
    }
    Ok(())
}

} // verus!
