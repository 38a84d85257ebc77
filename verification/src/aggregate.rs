//! Final assembly of a resolved package list: pin the root package at the
//! front, sort the rest by name and version, and attach the root package's
//! own license text.

use vstd::prelude::*;

verus! {

use vstd::seq_lib::group_to_multiset_ensures;
use vstd::string::StringSliceAdditionalSpecFns;
use crate::{Package, PackageList, package_same_except_license, string_utf8};
use crate::text::{bytes_le, bytes_le_exec, lemma_bytes_le_total, lemma_bytes_le_trans,
    lemma_bytes_le_antisym};

/// Why the final package list could not be produced.
#[derive(Debug, Clone, Copy, PartialEq, Eq, Structural)]
pub enum BuildError {
    /// No package list could be derived from the metadata fetch.
    FailedMetadataFetching,
    /// Reading an otherwise valid cache location failed.
    CacheReadError,
    /// Fetching licenses from the registry source folders failed.
    FailedLicenseFetch,
    /// An internal invariant was violated (the root package is missing from
    /// the resolved list).
    Unexpected,
}

impl BuildError {
    /// A short description of the failure.
    pub fn message(&self) -> &'static str {
        match self {
            BuildError::FailedMetadataFetching => "Failed to fetch metadata and generate a package list.",
            BuildError::CacheReadError => "Failed loading cache with a read error.",
            BuildError::FailedLicenseFetch => "Failed fetching licenses from cargo src folders.",
            BuildError::Unexpected => "Unexpected error.",
        }
    }
}

/// Why the encoded package list could not be written out.
#[derive(Debug, Clone, Copy, PartialEq, Eq, Structural)]
pub enum WriteError {
    /// Serialization failed.
    Encode,
    /// Writing the encoded bytes failed.
    Write,
    /// No build-script output directory is available.
    NotBuildScript,
}

impl WriteError {
    /// A short description of the failure.
    pub fn message(&self) -> &'static str {
        match self {
            WriteError::Encode => "Failed to encode package list.",
            WriteError::Write => "Failed to write encoded package list.",
            WriteError::NotBuildScript => "Executed not inside a build script.",
        }
    }
}

/// Package order: by name, then by version, comparing the UTF-8 bytes.
pub open spec fn pkg_le(p: Package, q: Package) -> bool {
    if string_utf8(p.name) == string_utf8(q.name) {
        bytes_le(string_utf8(p.version), string_utf8(q.version))
    } else {
        bytes_le(string_utf8(p.name), string_utf8(q.name))
    }
}

/// `pkg_le` is total.
proof fn lemma_pkg_le_total(p: Package, q: Package)
    ensures
        pkg_le(p, q) || pkg_le(q, p),
{
    lemma_bytes_le_total(string_utf8(p.name), string_utf8(q.name));
    lemma_bytes_le_total(string_utf8(p.version), string_utf8(q.version));
}

/// `pkg_le` is transitive.
proof fn lemma_pkg_le_trans(p: Package, q: Package, s: Package)
    requires
        pkg_le(p, q),
        pkg_le(q, s),
    ensures
        pkg_le(p, s),
{
    let pn = string_utf8(p.name);
    let qn = string_utf8(q.name);
    let sn = string_utf8(s.name);
    if pn == qn && qn == sn {
        lemma_bytes_le_trans(string_utf8(p.version), string_utf8(q.version), string_utf8(
            s.version,
        ));
    } else if pn == qn {
        // name order decided between q and s
    } else if qn == sn {
        // name order decided between p and q
    } else {
        lemma_bytes_le_trans(pn, qn, sn);
        if pn == sn {
            lemma_bytes_le_antisym(pn, qn);
        }
    }
}

/// Compare two packages by name, then version.
pub fn pkg_le_exec(p: &Package, q: &Package) -> (r: bool)
    ensures
        r == pkg_le(*p, *q),
{
    let pn = p.name.as_str().as_bytes();
    let qn = q.name.as_str().as_bytes();
    if crate::text::bytes_eq(pn, qn) {
        bytes_le_exec(p.version.as_str().as_bytes(), q.version.as_str().as_bytes())
    } else {
        bytes_le_exec(pn, qn)
    }
}

/// The `name_version` keys are pairwise distinct.
pub open spec fn nodup_name_versions(s: Seq<Package>) -> bool {
    forall|i: int, j: int| 0 <= i < j < s.len() ==> s[i].name_version@ != s[j].name_version@
}

/// A sequence with the same multiset of packages as one whose `name_version`
/// keys are pairwise distinct has pairwise distinct keys too.
proof fn lemma_permutation_keeps_nodup(a: Seq<Package>, b: Seq<Package>)
    requires
        b.to_multiset() == a.to_multiset(),
        nodup_name_versions(a),
    ensures
        nodup_name_versions(b),
{
    broadcast use group_to_multiset_ensures;

    assert forall|i: int, j: int|
        0 <= i < j < b.len() implies b[i].name_version@ != b[j].name_version@ by {
        if b[i].name_version@ == b[j].name_version@ {
            if b[i] == b[j] {
                assert(a.no_duplicates()) by {
                    assert(forall|x: int, y: int|
                        0 <= x < y < a.len() ==> a[x].name_version@ != a[y].name_version@);
                }
                a.lemma_multiset_has_no_duplicates();
                b.lemma_multiset_has_no_duplicates_conv();
                assert(b.to_multiset().count(b[i]) <= 1);
                assert(!b.no_duplicates());
            } else {
                assert(b.to_multiset().count(b[i]) > 0) by {
                    assert(b.contains(b[i]));
                }
                assert(b.to_multiset().count(b[j]) > 0) by {
                    assert(b.contains(b[j]));
                }
                assert(a.contains(b[i]));
                assert(a.contains(b[j]));
                let x = choose|x: int| 0 <= x < a.len() && a[x] == b[i];
                let y = choose|y: int| 0 <= y < a.len() && a[y] == b[j];
                assert(x != y);
                assert(a[x].name_version@ != a[y].name_version@);
            }
        }
    }
}

/// A sequence with the same multiset as one whose packages all lack the root
/// flag has no root-flagged package either.
proof fn lemma_permutation_keeps_no_root(a: Seq<Package>, b: Seq<Package>)
    requires
        b.to_multiset() == a.to_multiset(),
        forall|i: int| 0 <= i < a.len() ==> !(#[trigger] a[i]).is_root_pkg,
    ensures
        forall|i: int| 0 <= i < b.len() ==> !(#[trigger] b[i]).is_root_pkg,
{
    broadcast use group_to_multiset_ensures;

    assert forall|i: int| 0 <= i < b.len() implies !(#[trigger] b[i]).is_root_pkg by {
        assert(b.contains(b[i]));
        assert(b.to_multiset().count(b[i]) > 0);
        assert(a.contains(b[i]));
        let x = choose|x: int| 0 <= x < a.len() && a[x] == b[i];
        assert(!a[x].is_root_pkg);
    }
}

/// Sort packages by name, then version, keeping exactly the same packages.
pub fn sort_packages(v: Vec<Package>) -> (r: Vec<Package>)
    ensures
        r@.to_multiset() == v@.to_multiset(),
        r@.len() == v@.len(),
        forall|i: int, j: int| 0 <= i < j < r@.len() ==> pkg_le(#[trigger] r@[i], #[trigger] r@[j]),
{
    broadcast use group_to_multiset_ensures;

    let mut src = v;
    let ghost orig = src@;
    let mut out: Vec<Package> = Vec::new();
    proof {
        assert(out@.to_multiset().add(src@.to_multiset()) =~= orig.to_multiset());
    }
    while src.len() > 0
        invariant
            out@.to_multiset().add(src@.to_multiset()) == orig.to_multiset(),
            out@.len() + src@.len() == orig.len(),
            forall|i: int, j: int|
                0 <= i < j < out@.len() ==> pkg_le(#[trigger] out@[i], #[trigger] out@[j]),
            forall|i: int, j: int|
                0 <= i < out@.len() && 0 <= j < src@.len() ==> pkg_le(
                    #[trigger] out@[i],
                    #[trigger] src@[j],
                ),
        decreases src@.len(),
    {
        let mut m: usize = 0;
        let mut j: usize = 1;
        proof {
            lemma_pkg_le_total(src@[0], src@[0]);
        }
        while j < src.len()
            invariant
                src@.len() > 0,
                m < j,
                j <= src@.len(),
                forall|k: int| 0 <= k < j ==> pkg_le(src@[m as int], #[trigger] src@[k]),
            decreases src@.len() - j,
        {
            if pkg_le_exec(&src[j], &src[m]) {
                proof {
                    assert forall|k: int| 0 <= k < j + 1 implies pkg_le(
                        src@[j as int],
                        #[trigger] src@[k],
                    ) by {
                        if k < j {
                            lemma_pkg_le_trans(src@[j as int], src@[m as int], src@[k]);
                        } else {
                            lemma_pkg_le_total(src@[j as int], src@[j as int]);
                        }
                    }
                }
                m = j;
            } else {
                proof {
                    lemma_pkg_le_total(src@[j as int], src@[m as int]);
                }
            }
            j += 1;
        }
        let ghost src0 = src@;
        let ghost out0 = out@;
        let p = src.remove(m);
        out.push(p);
        proof {
            src0.to_multiset_ensures();
            out0.to_multiset_ensures();
            assert(src@ == src0.remove(m as int));
            assert(src@.to_multiset() == src0.remove(m as int).to_multiset());
            assert(src0.remove(m as int).to_multiset() =~= src0.to_multiset().remove(
                src0[m as int],
            ));
            assert(out@ == out0.push(src0[m as int]));
            assert(out@.to_multiset() == out0.push(src0[m as int]).to_multiset());
            assert(out0.push(src0[m as int]).to_multiset() =~= out0.to_multiset().insert(
                src0[m as int],
            ));
            assert(out@.to_multiset().add(src@.to_multiset()) =~= orig.to_multiset()) by {
                assert(src0.to_multiset().count(src0[m as int]) > 0) by {
                    assert(src0.contains(src0[m as int]));
                }
            }
            assert forall|a: int, b: int|
                0 <= a < out@.len() && 0 <= b < src@.len() implies pkg_le(
                #[trigger] out@[a],
                #[trigger] src@[b],
            ) by {
                let borig: int = if b < m { b } else { b + 1 };
                assert(src@[b] == src0[borig]);
                if a < out0.len() {
                    assert(pkg_le(out0[a], src0[borig]));
                } else {
                    assert(out@[a] == src0[m as int]);
                    assert(pkg_le(src0[m as int], src0[borig]));
                }
            }
            assert forall|a: int, b: int|
                0 <= a < b < out@.len() implies pkg_le(#[trigger] out@[a], #[trigger] out@[b]) by {
                if b == out@.len() - 1 {
                    assert(out@[b] == src0[m as int]);
                    assert(pkg_le(out0[a], src0[m as int]));
                }
            }
        }
    }
    out
}

/// Pin the root package at index 0, give it the build's own license text,
/// and sort the remaining packages by name and version.
///
/// The first root-flagged package is moved to the front; without one the
/// list is rejected as internally inconsistent. Where the input flags at
/// most one package as root, exactly one package of the result is
/// root-flagged, and it stands at index 0. Where the input's `name_version`
/// keys are pairwise distinct, so are the result's.
pub fn finalize_package_list(list: PackageList, root_license: Option<String>) -> (r: Result<
    PackageList,
    BuildError,
>)
    ensures
        match r {
            Ok(out) => exists|ri: int|
                {
                    &&& 0 <= ri < list.0@.len()
                    &&& (#[trigger] list.0@[ri]).is_root_pkg
                    &&& forall|k: int| 0 <= k < ri ==> !(#[trigger] list.0@[k]).is_root_pkg
                    &&& out.0@.len() == list.0@.len()
                    &&& out.0@[0].is_root_pkg
                    &&& out.0@[0].license_text == root_license
                    &&& package_same_except_license(out.0@[0], list.0@[ri])
                    &&& out.0@.subrange(1, out.0@.len() as int).to_multiset() == list.0@.remove(
                        ri,
                    ).to_multiset()
                    &&& forall|i: int, j: int|
                        1 <= i < j < out.0@.len() ==> pkg_le(
                            #[trigger] out.0@[i],
                            #[trigger] out.0@[j],
                        )
                    &&& (forall|i: int, j: int|
                        0 <= i < j < list.0@.len() ==> !(list.0@[i].is_root_pkg
                            && list.0@[j].is_root_pkg)) ==> forall|i: int|
                        1 <= i < out.0@.len() ==> !(#[trigger] out.0@[i]).is_root_pkg
                    &&& nodup_name_versions(list.0@) ==> nodup_name_versions(out.0@)
                },
            Err(e) => e is Unexpected && forall|i: int|
                0 <= i < list.0@.len() ==> !(#[trigger] list.0@[i]).is_root_pkg,
        },
{
    broadcast use group_to_multiset_ensures;

    let mut v = list.0;
    let ghost input = v@;
    let mut ri: usize = 0;
    let mut found: bool = false;
    while ri < v.len() && !found
        invariant
            v@ == input,
            ri <= v@.len(),
            !found ==> forall|k: int| 0 <= k < ri ==> !(#[trigger] v@[k]).is_root_pkg,
            found ==> ri < v@.len() && v@[ri as int].is_root_pkg && forall|k: int|
                0 <= k < ri ==> !(#[trigger] v@[k]).is_root_pkg,
        decreases v@.len() - ri, (if found { 0int } else { 1int }),
    {
        if v[ri].is_root_pkg {
            found = true;
        } else {
            ri += 1;
        }
    }
    if !found {
        return Err(BuildError::Unexpected);
    }
    let mut root = v.remove(ri);
    root.license_text = root_license;
    let ghost rest = v@;
    let sorted = sort_packages(v);
    let mut out: Vec<Package> = Vec::new();
    out.push(root);
    let mut tail = sorted;
    let ghost sorted_view = tail@;
    out.append(&mut tail);
    proof {
        let tailseq = out@.subrange(1, out@.len() as int);
        assert(tailseq =~= sorted_view);
        assert(tailseq.to_multiset() == rest.to_multiset());
        assert forall|i: int, j: int| 1 <= i < j < out@.len() implies pkg_le(
            #[trigger] out@[i],
            #[trigger] out@[j],
        ) by {
            assert(out@[i] == sorted_view[i - 1] && out@[j] == sorted_view[j - 1]);
        }
        if nodup_name_versions(input) {
            assert(nodup_name_versions(rest)) by {
                assert(forall|a: int|
                    0 <= a < rest.len() ==> rest[a] == input[if a < ri as int {
                        a
                    } else {
                        a + 1
                    }]);
            }
            lemma_permutation_keeps_nodup(rest, tailseq);
            assert forall|i: int, j: int|
                0 <= i < j < out@.len() implies out@[i].name_version@ != out@[j].name_version@ by {
                if i == 0 {
                    assert(out@[0].name_version == input[ri as int].name_version);
                    if tailseq[j - 1].name_version@ == out@[0].name_version@ {
                        assert(tailseq.to_multiset().count(tailseq[j - 1]) > 0) by {
                            assert(tailseq.contains(tailseq[j - 1]));
                        }
                        assert(rest.contains(tailseq[j - 1]));
                        let x = choose|x: int| 0 <= x < rest.len() && rest[x] == tailseq[j - 1];
                        let xo: int = if x < ri as int {
                            x
                        } else {
                            x + 1
                        };
                        assert(input[xo] == rest[x]);
                        assert(input[xo].name_version@ != input[ri as int].name_version@);
                    }
                } else {
                    assert(tailseq[i - 1].name_version@ != tailseq[j - 1].name_version@);
                    assert(out@[i] == tailseq[i - 1] && out@[j] == tailseq[j - 1]);
                }
            }
        }
        if forall|i: int, j: int|
            0 <= i < j < input.len() ==> !(input[i].is_root_pkg && input[j].is_root_pkg) {
            assert forall|a: int| 0 <= a < rest.len() implies !(#[trigger] rest[a]).is_root_pkg by {
                let ao: int = if a < ri as int {
                    a
                } else {
                    a + 1
                };
                assert(rest[a] == input[ao]);
                if ao < ri as int {
                } else {
                    assert(!(input[ri as int].is_root_pkg && input[ao].is_root_pkg) || ao == ri
                        as int);
                }
            }
            lemma_permutation_keeps_no_root(rest, out@.subrange(1, out@.len() as int));
            assert forall|i: int| 1 <= i < out@.len() implies !(#[trigger] out@[i]).is_root_pkg by {
                assert(out@.subrange(1, out@.len() as int)[i - 1] == out@[i]);
            }
        }
    }
    Ok(PackageList(out))
}

} // verus!
