//! Reconciliation of the graph-walk result against the independently
//! obtained list of actually compiled package names, and the combination of
//! the two concurrent fetches into one resolved package list.
//!
//! The two sources can disagree: the graph walk may retain packages that a
//! particular configuration never compiles. Where both sources are available
//! only the packages named by both survive; where the compiled-tree fetch
//! failed or produced invalid text, the reconciler is bypassed and the
//! graph-walk result is used unreconciled. Where both fetches failed,
//! resolution fails with an error carrying both failures.

use vstd::prelude::*;

verus! {

use vstd::string::StringSliceAdditionalSpecFns;
use vstd::utf8::valid_utf8;
use crate::{Package, PackageList, package_copies, string_utf8, lemma_filter_take_step};
use crate::text::{used_names_spec, split_lines, trim_line, line_first_token, used_from_lines,
    bytes_eq};
use crate::directive::ExecCargoFailure;
use crate::metadata::{
    PkgListFromCargoMetadataError,
    package_list_from_cargo_metadata,
    package_list_derived,
    metadata_rejected,
};

/// The package name tokens of the compiled-tree command's output: the first
/// whitespace-delimited field of every nonempty trimmed line, each name
/// kept once.
pub fn used_pkg_names_from_cargo_tree(output: &[u8]) -> (r: Vec<Vec<u8>>)
    ensures
        r.deep_view() == used_names_spec(output@),
{
    let lines = split_lines(output);
    let mut out: Vec<Vec<u8>> = Vec::new();
    let mut i: usize = 0;
    proof {
        assert(lines.deep_view().take(0) =~= Seq::<Seq<u8>>::empty());
        assert(out.deep_view() =~= used_from_lines(lines.deep_view().take(0)));
    }
    while i < lines.len()
        invariant
            i <= lines@.len(),
            lines@.len() == lines.deep_view().len(),
            lines.deep_view() == crate::text::split_lines_spec(output@),
            out.deep_view() == used_from_lines(lines.deep_view().take(i as int)),
        decreases lines@.len() - i,
    {
        let ghost dv = lines.deep_view();
        proof {
            assert(dv.take(i + 1).drop_last() =~= dv.take(i as int));
            assert(dv.take(i + 1).last() == dv[i as int]);
            assert(dv[i as int] == lines@[i as int]@);
        }
        let t = trim_line(&lines[i]);
        if t.len() > 0 {
            let tok = line_first_token(&t);
            if !names_contain(&out, tok.as_slice()) {
                let ghost out0 = out.deep_view();
                let ghost tokv = tok@;
                out.push(tok);
                proof {
                    assert(out.deep_view() =~~= out0.push(tokv));
                }
            }
        }
        i += 1;
    }
    proof {
        assert(lines.deep_view().take(lines.deep_view().len() as int) =~= lines.deep_view());
    }
    out
}

/// Relies on `core::str::from_utf8`: it succeeds exactly on valid UTF-8
/// input, which is the notion `valid_utf8` states.
#[verifier::external_body]
fn bytes_are_valid_text(b: &[u8]) -> (r: bool)
    ensures
        r == valid_utf8(b@),
{
    core::str::from_utf8(b).is_ok()
}

/// Some listed name equals these bytes.
fn names_contain(names: &Vec<Vec<u8>>, x: &[u8]) -> (r: bool)
    ensures
        r == names.deep_view().contains(x@),
{
    let mut i: usize = 0;
    while i < names.len()
        invariant
            i <= names@.len(),
            names@.len() == names.deep_view().len(),
            forall|k: int| 0 <= k < i ==> names.deep_view()[k] != x@,
        decreases names@.len() - i,
    {
        proof {
            assert(names.deep_view()[i as int] == names@[i as int]@);
        }
        if bytes_eq(names[i].as_slice(), x) {
            proof {
                assert(names.deep_view().contains(x@)) by {
                    assert(names.deep_view()[i as int] == x@);
                }
            }
            return true;
        }
        i += 1;
    }
    false
}

/// The packages whose name's UTF-8 bytes appear among `names`, in order.
pub open spec fn kept_by_names(pkgs: Seq<Package>, names: Seq<Seq<u8>>) -> Seq<Package> {
    pkgs.filter(|p: Package| names.contains(string_utf8(p.name)))
}

/// Keep exactly the packages whose name the compiled-tree output lists:
/// the cross-check of the graph-walk result against the second source.
pub fn filter_package_list_with_cargo_tree(package_list: PackageList, cargo_tree_output: String) -> (r:
    PackageList)
    ensures
        ({
            let kept = kept_by_names(package_list.0@, used_names_spec(string_utf8(
                cargo_tree_output,
            )));
            r.0@.len() == kept.len() && forall|i: int|
                0 <= i < kept.len() ==> package_copies(#[trigger] r.0@[i], kept[i])
        }),
{
    let names = used_pkg_names_from_cargo_tree(cargo_tree_output.as_str().as_bytes());
    filter_packages_by_names(package_list, &names)
}

/// Keep exactly the packages whose name's bytes appear among `names`.
pub fn filter_packages_by_names(package_list: PackageList, names: &Vec<Vec<u8>>) -> (r:
    PackageList)
    ensures
        ({
            let kept = kept_by_names(package_list.0@, names.deep_view());
            r.0@.len() == kept.len() && forall|i: int|
                0 <= i < kept.len() ==> package_copies(#[trigger] r.0@[i], kept[i])
        }),
{
    let ghost pred = |p: Package| names.deep_view().contains(string_utf8(p.name));
    let src = package_list.0;
    let mut out: Vec<Package> = Vec::new();
    let mut i: usize = 0;
    proof {
        assert(src@.take(0).filter(pred) =~= Seq::<Package>::empty());
    }
    while i < src.len()
        invariant
            i <= src@.len(),
            pred == (|p: Package| names.deep_view().contains(string_utf8(p.name))),
            out@.len() == src@.take(i as int).filter(pred).len(),
            forall|k: int|
                0 <= k < out@.len() ==> package_copies(
                    #[trigger] out@[k],
                    src@.take(i as int).filter(pred)[k],
                ),
        decreases src@.len() - i,
    {
        let keep = names_contain(names, src[i].name.as_str().as_bytes());
        proof {
            assert(keep == pred(src@[i as int]));
            lemma_filter_take_step(src@, pred, i as int);
        }
        if keep {
            out.push(src[i].clone());
        }
        i += 1;
    }
    proof {
        assert(src@.take(src@.len() as int) =~= src@);
    }
    PackageList(out)
}

/// Why resolution produced no package list.
#[derive(Debug)]
pub enum PackageListError {
    /// Both concurrent fetches failed; both failures are carried.
    BothFetchesFailed(ExecCargoFailure, ExecCargoFailure),
    /// The metadata fetch failed while the compiled-tree fetch succeeded.
    MetadataFetchFailed(ExecCargoFailure),
    /// The metadata output could not be resolved into a package list.
    Resolve(PkgListFromCargoMetadataError),
}

/// Copy a fetch failure.
fn clone_failure(f: &ExecCargoFailure) -> (r: ExecCargoFailure)
    ensures
        r.errors@ == f.errors@,
{
    ExecCargoFailure { errors: crate::clone_string_vec(&f.errors) }
}

/// Some package carries the root flag.
fn any_root(pkgs: &Vec<Package>) -> (r: bool)
    ensures
        r == exists|i: int| 0 <= i < pkgs@.len() && (#[trigger] pkgs@[i]).is_root_pkg,
{
    let mut i: usize = 0;
    while i < pkgs.len()
        invariant
            i <= pkgs@.len(),
            forall|k: int| 0 <= k < i ==> !(#[trigger] pkgs@[k]).is_root_pkg,
        decreases pkgs@.len() - i,
    {
        if pkgs[i].is_root_pkg {
            return true;
        }
        i += 1;
    }
    false
}

/// One list copies another, package for package.
pub open spec fn packages_copy(out: Seq<Package>, src: Seq<Package>) -> bool {
    out.len() == src.len() && forall|i: int|
        0 <= i < src.len() ==> package_copies(#[trigger] out[i], src[i])
}

/// `list` is the package list resolved from the metadata output, reconciled
/// against the compiled-tree output where one is available and unreconciled
/// where the compiled-tree fetch failed or yielded invalid text.
pub open spec fn resolved_list(
    list: Seq<Package>,
    metadata_out: Seq<u8>,
    tree_out: Option<Seq<u8>>,
) -> bool {
    exists|base: Seq<Package>|
        {
            &&& #[trigger] package_list_derived(base, metadata_out)
            &&& (match tree_out {
                Some(tb) => packages_copy(list, kept_by_names(base, used_names_spec(tb))),
                None => packages_copy(list, base),
            })
        }
}

/// After reconciliation against `tree_out`, no package of `base` keeps the
/// root flag.
pub open spec fn reconciled_rootless(base: Seq<Package>, tree_out: Option<Seq<u8>>) -> bool {
    match tree_out {
        Some(tb) => {
            let kept = kept_by_names(base, used_names_spec(tb));
            forall|i: int| 0 <= i < kept.len() ==> !(#[trigger] kept[i]).is_root_pkg
        },
        None => forall|i: int| 0 <= i < base.len() ==> !(#[trigger] base[i]).is_root_pkg,
    }
}

/// The compiled-tree output actually used for reconciliation: present only
/// where the fetch succeeded and its output is valid text; a failed fetch or
/// invalid output bypasses the reconciler.
pub open spec fn usable_tree_out(tree_fetch: Result<Vec<u8>, ExecCargoFailure>) -> Option<Seq<u8>> {
    match tree_fetch {
        Ok(tb) => if valid_utf8(tb@) {
            Some(tb@)
        } else {
            None
        },
        Err(_) => None,
    }
}

/// A resolved package list flags at most one package as the root package:
/// the derived list does, and reconciliation only removes packages.
pub proof fn lemma_resolved_at_most_one_root(
    list: Seq<Package>,
    metadata_out: Seq<u8>,
    tree_out: Option<Seq<u8>>,
)
    requires
        resolved_list(list, metadata_out, tree_out),
    ensures
        forall|i: int, j: int|
            0 <= i < j < list.len() ==> !(list[i].is_root_pkg && list[j].is_root_pkg),
{
    let base = choose|base: Seq<Package>|
        {
            &&& #[trigger] package_list_derived(base, metadata_out)
            &&& (match tree_out {
                Some(tb) => packages_copy(list, kept_by_names(base, used_names_spec(tb))),
                None => packages_copy(list, base),
            })
        };
    crate::metadata::lemma_derived_at_most_one_root(base, metadata_out);
    let no_two_roots = |a: Package, b: Package| !(a.is_root_pkg && b.is_root_pkg);
    match tree_out {
        Some(tb) => {
            let pred = |p: Package| used_names_spec(tb).contains(string_utf8(p.name));
            let kept = kept_by_names(base, used_names_spec(tb));
            assert(kept == base.filter(pred));
            crate::lemma_filter_pairwise(base, pred, no_two_roots);
            assert forall|i: int, j: int|
                0 <= i < j < list.len() implies !(list[i].is_root_pkg && list[j].is_root_pkg) by {
                assert(package_copies(list[i], kept[i]));
                assert(package_copies(list[j], kept[j]));
                assert(no_two_roots(kept[i], kept[j]));
            }
        },
        None => {
            assert forall|i: int, j: int|
                0 <= i < j < list.len() implies !(list[i].is_root_pkg && list[j].is_root_pkg) by {
                assert(package_copies(list[i], base[i]));
                assert(package_copies(list[j], base[j]));
            }
        },
    }
}

/// Whether reconciliation leaves a root-flagged package is determined by
/// the metadata and tree outputs alone: any two derived bases agree on it.
pub proof fn lemma_rootless_agree(
    b1: Seq<Package>,
    b2: Seq<Package>,
    metadata_out: Seq<u8>,
    tree_out: Option<Seq<u8>>,
)
    requires
        package_list_derived(b1, metadata_out),
        package_list_derived(b2, metadata_out),
    ensures
        reconciled_rootless(b1, tree_out) == reconciled_rootless(b2, tree_out),
{
    crate::metadata::lemma_derived_bases_agree(b1, b2, metadata_out);
    match tree_out {
        Some(tb) => {
            let names = used_names_spec(tb);
            let pred = |p: Package| names.contains(string_utf8(p.name));
            let rel = |a: Package, b: Package| a.is_root_pkg == b.is_root_pkg && a.name == b.name;
            assert forall|i: int| 0 <= i < b1.len() implies pred(b1[i]) == pred(
                #[trigger] b2[i],
            ) by {
                assert(b1[i].name == b2[i].name);
            }
            assert forall|i: int| 0 <= i < b1.len() implies #[trigger] rel(b1[i], b2[i]) by {}
            crate::lemma_filter_corresponding(b1, b2, pred, pred, rel);
            let k1 = kept_by_names(b1, names);
            let k2 = kept_by_names(b2, names);
            assert(k1 == b1.filter(pred) && k2 == b2.filter(pred));
            assert forall|i: int| 0 <= i < k1.len() implies (#[trigger] k1[i]).is_root_pkg
                == k2[i].is_root_pkg by {
                assert(rel(b1.filter(pred)[i], b2.filter(pred)[i]));
            }
            assert(reconciled_rootless(b1, tree_out) ==> reconciled_rootless(b2, tree_out)) by {
                if reconciled_rootless(b1, tree_out) {
                    assert forall|i: int|
                        0 <= i < k2.len() implies !(#[trigger] k2[i]).is_root_pkg by {
                        assert(!k1[i].is_root_pkg);
                    }
                }
            }
            assert(reconciled_rootless(b2, tree_out) ==> reconciled_rootless(b1, tree_out)) by {
                if reconciled_rootless(b2, tree_out) {
                    assert forall|i: int|
                        0 <= i < k1.len() implies !(#[trigger] k1[i]).is_root_pkg by {
                        assert(!k2[i].is_root_pkg);
                    }
                }
            }
        },
        None => {
            assert(reconciled_rootless(b1, tree_out) ==> reconciled_rootless(b2, tree_out)) by {
                if reconciled_rootless(b1, tree_out) {
                    assert forall|i: int|
                        0 <= i < b2.len() implies !(#[trigger] b2[i]).is_root_pkg by {
                        assert(!b1[i].is_root_pkg);
                        assert(b1[i].is_root_pkg == b2[i].is_root_pkg);
                    }
                }
            }
            assert(reconciled_rootless(b2, tree_out) ==> reconciled_rootless(b1, tree_out)) by {
                if reconciled_rootless(b2, tree_out) {
                    assert forall|i: int|
                        0 <= i < b1.len() implies !(#[trigger] b1[i]).is_root_pkg by {
                        assert(!b2[i].is_root_pkg);
                        assert(b1[i].is_root_pkg == b2[i].is_root_pkg);
                    }
                }
            }
        },
    }
}

/// Combine the outcomes of the two concurrent fetches into the resolved
/// package list.
///
/// Both fetches failed: resolution fails with an error carrying both
/// failures. Only the metadata fetch failed: resolution fails with that
/// failure. The metadata fetch succeeded: its output is resolved into the
/// graph-walk package list; where the compiled-tree fetch also succeeded and
/// yielded valid text the list is reconciled against its names, and
/// otherwise the reconciler is bypassed and the unreconciled list is used.
/// The root-package failure comes exactly where the reconciled list lacks a
/// root-flagged package; on every other derivable input the resolution
/// succeeds.
pub fn package_list(
    metadata_fetch: &Result<Vec<u8>, ExecCargoFailure>,
    tree_fetch: &Result<Vec<u8>, ExecCargoFailure>,
) -> (r: Result<PackageList, PackageListError>)
    ensures
        match r {
            Ok(list) => {
                &&& metadata_fetch is Ok
                &&& resolved_list(list.0@, metadata_fetch->Ok_0@, usable_tree_out(*tree_fetch))
                &&& exists|i: int| 0 <= i < list.0@.len() && (#[trigger] list.0@[i]).is_root_pkg
                &&& crate::aggregate::nodup_name_versions(list.0@)
            },
            Err(PackageListError::BothFetchesFailed(me, te)) => {
                &&& metadata_fetch is Err
                &&& tree_fetch is Err
                &&& me.errors@ == metadata_fetch->Err_0.errors@
                &&& te.errors@ == tree_fetch->Err_0.errors@
            },
            Err(PackageListError::MetadataFetchFailed(me)) => {
                &&& metadata_fetch is Err
                &&& tree_fetch is Ok
                &&& me.errors@ == metadata_fetch->Err_0.errors@
            },
            Err(PackageListError::Resolve(pe)) => {
                &&& metadata_fetch is Ok
                &&& (pe == PkgListFromCargoMetadataError::ParseJson ==> metadata_rejected(
                    metadata_fetch->Ok_0@,
                ))
                &&& (pe == PkgListFromCargoMetadataError::RootPackageMissing ==> exists|
                    base: Seq<Package>,
                |
                    #[trigger] package_list_derived(base, metadata_fetch->Ok_0@)
                        && reconciled_rootless(base, usable_tree_out(*tree_fetch)))
                &&& (pe == PkgListFromCargoMetadataError::RootPackageMissing || pe
                    == PkgListFromCargoMetadataError::ParseJson)
            },
        },
        metadata_fetch is Ok && (exists|base: Seq<Package>|
            #[trigger] package_list_derived(base, metadata_fetch->Ok_0@)
                && !reconciled_rootless(base, usable_tree_out(*tree_fetch))) ==> r is Ok,
{
    let metadata_out = match metadata_fetch {
        Ok(b) => b,
        Err(me) => match tree_fetch {
            Err(te) => {
                return Err(
                    PackageListError::BothFetchesFailed(clone_failure(me), clone_failure(te)),
                );
            },
            Ok(_) => {
                return Err(PackageListError::MetadataFetchFailed(clone_failure(me)));
            },
        },
    };
    let base = match package_list_from_cargo_metadata(metadata_out.as_slice()) {
        Ok(pkgs) => pkgs,
        Err(e) => {
            proof {
                assert forall|b2: Seq<Package>| !(#[trigger] package_list_derived(
                    b2,
                    metadata_fetch->Ok_0@,
                ) && !reconciled_rootless(b2, usable_tree_out(*tree_fetch))) by {
                    if package_list_derived(b2, metadata_fetch->Ok_0@) {
                        crate::metadata::lemma_derived_not_rejected(b2, metadata_fetch->Ok_0@);
                    }
                }
            }
            return Err(PackageListError::Resolve(e));
        },
    };
    let ghost base_view = base@;
    let usable_tree: Option<&Vec<u8>> = match tree_fetch {
        Ok(tb) => {
            if bytes_are_valid_text(tb.as_slice()) {
                Some(tb)
            } else {
                None
            }
        },
        Err(_) => None,
    };
    proof {
        match usable_tree {
            Some(tb) => {
                assert(usable_tree_out(*tree_fetch) == Some(tb@));
            },
            None => {
                assert(usable_tree_out(*tree_fetch) is None);
            },
        }
    }
    let filtered = match usable_tree {
        Some(tb) => {
            let names = used_pkg_names_from_cargo_tree(tb.as_slice());
            filter_packages_by_names(PackageList(base), &names)
        },
        None => PackageList(base),
    };
    proof {
        if usable_tree is None {
            assert forall|i: int| 0 <= i < base_view.len() implies package_copies(
                #[trigger] filtered.0@[i],
                base_view[i],
            ) by {
                assert(filtered.0@[i] == base_view[i]);
            }
            assert(packages_copy(filtered.0@, base_view));
        }
    }
    if !any_root(&filtered.0) {
        proof {
            assert(reconciled_rootless(base_view, usable_tree_out(*tree_fetch))) by {
                match usable_tree {
                    Some(tb) => {
                        let kept = kept_by_names(base_view, used_names_spec(tb@));
                        assert forall|i: int| 0 <= i < kept.len() implies !(
                        #[trigger] kept[i]).is_root_pkg by {
                            assert(package_copies(filtered.0@[i], kept[i]));
                            assert(!filtered.0@[i].is_root_pkg);
                        }
                    },
                    None => {
                        assert forall|i: int| 0 <= i < base_view.len() implies !(
                        #[trigger] base_view[i]).is_root_pkg by {
                            assert(package_copies(filtered.0@[i], base_view[i]));
                            assert(!filtered.0@[i].is_root_pkg);
                        }
                    },
                }
            }
            assert(package_list_derived(base_view, metadata_fetch->Ok_0@));
            assert forall|b2: Seq<Package>| !(#[trigger] package_list_derived(
                b2,
                metadata_fetch->Ok_0@,
            ) && !reconciled_rootless(b2, usable_tree_out(*tree_fetch))) by {
                if package_list_derived(b2, metadata_fetch->Ok_0@) {
                    lemma_rootless_agree(
                        base_view,
                        b2,
                        metadata_fetch->Ok_0@,
                        usable_tree_out(*tree_fetch),
                    );
                }
            }
        }
        return Err(PackageListError::Resolve(PkgListFromCargoMetadataError::RootPackageMissing));
    }
    proof {
        assert(metadata_fetch is Ok);
        assert(package_list_derived(base_view, metadata_fetch->Ok_0@));
        match usable_tree {
            Some(tb) => {
                assert(packages_copy(
                    filtered.0@,
                    kept_by_names(base_view, used_names_spec(tb@)),
                ));
                assert(resolved_list(filtered.0@, metadata_fetch->Ok_0@, Some(tb@)));
            },
            None => {
                assert(resolved_list(filtered.0@, metadata_fetch->Ok_0@, None));
            },
        }
        assert(crate::aggregate::nodup_name_versions(filtered.0@)) by {
            let nodup_pair = |a: Package, b: Package| a.name_version@ != b.name_version@;
            match usable_tree {
                Some(tb) => {
                    let names = used_names_spec(tb@);
                    let pred = |p: Package| names.contains(string_utf8(p.name));
                    let kept = kept_by_names(base_view, names);
                    assert(kept == base_view.filter(pred));
                    crate::lemma_filter_pairwise(base_view, pred, nodup_pair);
                    assert forall|i: int, j: int|
                        0 <= i < j < filtered.0@.len() implies filtered.0@[i].name_version@
                        != filtered.0@[j].name_version@ by {
                        assert(package_copies(filtered.0@[i], kept[i]));
                        assert(package_copies(filtered.0@[j], kept[j]));
                        assert(nodup_pair(kept[i], kept[j]));
                    }
                },
                None => {
                    assert forall|i: int, j: int|
                        0 <= i < j < filtered.0@.len() implies filtered.0@[i].name_version@
                        != filtered.0@[j].name_version@ by {
                        assert(filtered.0@[i] == base_view[i]);
                        assert(filtered.0@[j] == base_view[j]);
                    }
                },
            }
        }
    }
    Ok(filtered)
}

} // verus!
