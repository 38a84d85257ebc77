//! The license locator: pick candidate license files by name and join their
//! contents.
//!
//! Reading directories and files is a caller's concern; this module decides
//! which file names are candidates (a case-insensitive match on the words
//! "license", "copying", "authors", "notice" or "eula"), locates a package's
//! extracted-source folder by its `name_version` key, and concatenates the
//! texts that were read, separated by a blank line. Finding no candidate is
//! an expected per-package outcome, answered with `None` rather than an
//! error.

use vstd::prelude::*;

verus! {

use vstd::string::StringExecFns;
use vstd::string::StringSliceAdditionalSpecFns;
use vstd::utf8::encode_utf8;
use crate::text::{contains_bytes, lower_bytes, contains_ci};
use crate::PackageList;

/// Why no licenses could be fetched from the registry source folders.
#[derive(Debug, Clone, Copy, PartialEq, Eq, Structural)]
pub enum LicenseFetchError {
    /// The registry source folder location could not be inferred.
    RegistrySrc,
    /// Fetching the licenses of one package failed.
    LicenseFetchForPackage,
    /// A registry's source folder could not be read.
    SrcFolderRecursion,
}

impl LicenseFetchError {
    /// A short description of the failure.
    pub fn message(&self) -> &'static str {
        match self {
            LicenseFetchError::RegistrySrc => "Failed to infer the registry src folder location.",
            LicenseFetchError::LicenseFetchForPackage => "Failure during the fetching of licenses for a package.",
            LicenseFetchError::SrcFolderRecursion => "Failed reading a src folder of a registry.",
        }
    }
}

/// Why the registry source roots could not be enumerated.
#[derive(Debug, Clone, Copy, PartialEq, Eq, Structural)]
pub enum SrcRegistryInferenceError {
    /// The inferred path does not exist.
    DoesNotExist,
    /// The inferred path is not a folder.
    IsNotAFolder,
    /// The inferred path could not be read.
    FailedReadDir,
}

impl SrcRegistryInferenceError {
    /// A short description of the failure.
    pub fn message(&self) -> &'static str {
        match self {
            SrcRegistryInferenceError::DoesNotExist => "Source registry folder does not exist at the inferred path.",
            SrcRegistryInferenceError::IsNotAFolder => "The inferred path of the source registry is not a folder.",
            SrcRegistryInferenceError::FailedReadDir => "Failed to read the inferred source registry path.",
        }
    }
}

/// The bytes contain the word, comparing ASCII case-insensitively.
pub open spec fn ci_contains_word(bytes: Seq<u8>, word: Seq<char>) -> bool {
    contains_bytes(lower_bytes(bytes), lower_bytes(encode_utf8(word)))
}

/// The file name marks a license candidate: it contains "license",
/// "copying", "authors", "notice" or "eula", in any letter case.
pub open spec fn license_name_matches(bytes: Seq<u8>) -> bool {
    ||| ci_contains_word(bytes, "license"@)
    ||| ci_contains_word(bytes, "copying"@)
    ||| ci_contains_word(bytes, "authors"@)
    ||| ci_contains_word(bytes, "notice"@)
    ||| ci_contains_word(bytes, "eula"@)
}

/// Decide whether a file name marks a license candidate.
pub fn license_file_name_matches(name: &str) -> (r: bool)
    ensures
        r == license_name_matches(name.spec_bytes()),
{
    let b = name.as_bytes();
    contains_ci(b, "license".as_bytes()) || contains_ci(b, "copying".as_bytes()) || contains_ci(
        b,
        "authors".as_bytes(),
    ) || contains_ci(b, "notice".as_bytes()) || contains_ci(b, "eula".as_bytes())
}

/// Select the candidate license file names of a folder listing: the caller
/// reads exactly the selected files.
pub fn select_license_file_names(names: &Vec<String>) -> (r: Vec<usize>)
    ensures
        forall|k: int|
            0 <= k < r@.len() ==> r@[k] < names@.len() && license_name_matches(
                encode_utf8(names@[#[trigger] r@[k] as int]@),
            ),
        forall|i: int, j: int| 0 <= i < j < r@.len() ==> r@[i] < r@[j],
        forall|i: int|
            0 <= i < names@.len() && license_name_matches(encode_utf8(#[trigger] names@[i]@))
                ==> exists|k: int| 0 <= k < r@.len() && r@[k] == i,
{
    let mut out: Vec<usize> = Vec::new();
    let mut i: usize = 0;
    while i < names.len()
        invariant
            i <= names@.len(),
            forall|k: int|
                0 <= k < out@.len() ==> out@[k] < i && license_name_matches(
                    encode_utf8(names@[#[trigger] out@[k] as int]@),
                ),
            forall|a: int, b: int| 0 <= a < b < out@.len() ==> out@[a] < out@[b],
            forall|m: int|
                0 <= m < i && license_name_matches(encode_utf8(#[trigger] names@[m]@)) ==> exists|
                    k: int,
                |
                    0 <= k < out@.len() && out@[k] == m,
        decreases names@.len() - i,
    {
        if license_file_name_matches(names[i].as_str()) {
            let ghost out0 = out@;
            out.push(i);
            proof {
                assert(out@[out0.len() as int] == i);
                assert forall|m: int|
                    0 <= m < i + 1 && license_name_matches(encode_utf8(#[trigger] names@[m]@))
                        implies exists|k: int| 0 <= k < out@.len() && out@[k] == m by {
                    if m < i {
                        let k = choose|k: int| 0 <= k < out0.len() && out0[k] == m;
                        assert(out@[k] == m);
                    } else {
                        assert(out@[out0.len() as int] == m);
                    }
                }
            }
        }
        i += 1;
    }
    out
}

/// The file texts joined in order, separated by one blank line.
pub open spec fn joined_texts(ts: Seq<String>) -> Seq<char>
    decreases ts.len(),
{
    if ts.len() == 0 {
        Seq::empty()
    } else if ts.len() == 1 {
        ts[0]@
    } else {
        joined_texts(ts.drop_last()) + "\n\n"@ + ts.last()@
    }
}

/// The texts that actually carry content: empty reads contribute nothing.
pub open spec fn nonblank_texts(ts: Seq<String>) -> Seq<String> {
    ts.filter(|t: String| t@.len() > 0)
}

/// Concatenate the license texts read from a folder, separated by one blank
/// line, skipping empty reads; no content at all yields `None`, never an
/// empty license.
pub fn license_text_from_folder(texts: &Vec<String>) -> (r: Option<String>)
    ensures
        match r {
            Some(t) => nonblank_texts(texts@).len() > 0 && t@ == joined_texts(
                nonblank_texts(texts@),
            ) && t@.len() > 0,
            None => nonblank_texts(texts@).len() == 0,
        },
{
    let ghost pred = |t: String| t@.len() > 0;
    let mut kept: Vec<String> = Vec::new();
    let mut i: usize = 0;
    proof {
        assert(texts@.take(0).filter(pred) =~= Seq::<String>::empty());
    }
    while i < texts.len()
        invariant
            i <= texts@.len(),
            pred == (|t: String| t@.len() > 0),
            kept@ == texts@.take(i as int).filter(pred),
        decreases texts@.len() - i,
    {
        proof {
            crate::lemma_filter_take_step(texts@, pred, i as int);
        }
        if !texts[i].as_str().is_empty() {
            let ghost kept0 = kept@;
            kept.push(texts[i].clone());
            proof {
                assert(kept@ =~= kept0.push(texts@[i as int]));
            }
        }
        i += 1;
    }
    proof {
        assert(texts@.take(texts@.len() as int) =~= texts@);
    }
    if kept.len() == 0 {
        return None;
    }
    let mut acc: String = kept[0].clone();
    let mut i: usize = 1;
    proof {
        assert(kept@.take(1).len() == 1);
        assert(kept@.take(1)[0] == kept@[0]);
        assert(acc@ == joined_texts(kept@.take(1)));
    }
    while i < kept.len()
        invariant
            1 <= i <= kept@.len(),
            acc@ == joined_texts(kept@.take(i as int)),
        decreases kept@.len() - i,
    {
        acc.append("\n\n");
        acc.append(kept[i].as_str());
        proof {
            assert(kept@.take(i + 1).drop_last() =~= kept@.take(i as int));
            assert(kept@.take(i + 1).last() == kept@[i as int]);
            assert(kept@.take(i + 1).len() >= 2);
        }
        i += 1;
    }
    proof {
        assert(kept@.take(kept@.len() as int) =~= kept@);
        assert(nonblank_texts(texts@)[0]@.len() > 0) by {
            texts@.lemma_filter_pred(pred, 0);
        }
        lemma_joined_nonempty(nonblank_texts(texts@));
    }
    Some(acc)
}

/// Joined nonempty texts are nonempty.
proof fn lemma_joined_nonempty(ts: Seq<String>)
    requires
        ts.len() > 0,
        ts[0]@.len() > 0,
    ensures
        joined_texts(ts).len() > 0,
    decreases ts.len(),
{
    if ts.len() > 1 {
        lemma_joined_nonempty(ts.drop_last());
    }
}

/// Apply one package's disk-scan result to the list: only a package whose
/// license text is still unresolved and which was not restored from the
/// cache takes the scanned text; every other package, and every other index,
/// is left untouched.
pub fn apply_scan_text(list: &mut PackageList, i: usize, text: Option<String>)
    requires
        i < old(list).0@.len(),
    ensures
        final (list).0@.len() == old(list).0@.len(),
        forall|k: int|
            0 <= k < old(list).0@.len() && k != i ==> final (list).0@[k] == old(list).0@[k],
        (old(list).0@[i as int].license_text is None && !old(
            list,
        ).0@[i as int].restored_from_cache) ==> crate::package_same_except_license(
            final (list).0@[i as int],
            old(list).0@[i as int],
        ) && final (list).0@[i as int].license_text == text,
        !(old(list).0@[i as int].license_text is None && !old(
            list,
        ).0@[i as int].restored_from_cache) ==> final (list).0@[i as int] == old(
            list,
        ).0@[i as int],
{
    let unresolved = list.0[i].license_text.is_none() && !list.0[i].restored_from_cache;
    if unresolved {
        let mut p = list.0[i].clone();
        p.license_text = text;
        list.0.set(i, p);
    }
}

/// The index of the first folder name equal to the package's `name_version`
/// key: the package's extracted-source folder in a registry root.
pub fn find_package_folder(folder_names: &Vec<String>, name_version: &String) -> (r: Option<usize>)
    ensures
        match r {
            Some(i) => i < folder_names@.len() && folder_names@[i as int]@ == name_version@
                && forall|k: int| 0 <= k < i ==> folder_names@[k]@ != name_version@,
            None => forall|k: int|
                0 <= k < folder_names@.len() ==> folder_names@[k]@ != name_version@,
        },
{
    let mut i: usize = 0;
    while i < folder_names.len()
        invariant
            i <= folder_names@.len(),
            forall|k: int| 0 <= k < i ==> folder_names@[k]@ != name_version@,
        decreases folder_names@.len() - i,
    {
        if folder_names[i] == *name_version {
            return Some(i);
        }
        i += 1;
    }
    None
}

} // verus!
