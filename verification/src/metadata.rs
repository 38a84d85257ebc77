//! Decoding of the package manager's metadata document into typed records,
//! and assembly of the resolved package list from it.
//!
//! The document holds a flat list of package records and a resolve graph
//! (a root identity plus nodes with dependency edges). Decoding is a pure
//! step over the parsed JSON tree; it fails on a structurally invalid
//! document. Assembly walks the graph from the root along normal edges and
//! keeps exactly the reachable package records.

use vstd::prelude::*;

verus! {

use vstd::string::StringExecFns;
use vstd::string::StrSliceExecFns;
use crate::json::{JsonValue, json_parse, parse_json_bytes, spec_get};
use crate::graph::{
    has_node,
    dep_similar,
    node_similar,
    nodes_similar,
    lemma_similar_preserves_reachable,
    MetadataResolveNode,
    MetadataResolveNodeDeps,
    MetadataResolveNodeDepsKind,
    walk_dependencies,
    reachable,
    unique_node_ids,
    ids_contain,
    ids_contain_exec,
};
use crate::{Package, name_version_spec, clone_opt_string, clone_string_vec, lemma_filter_take_step};
use crate::aggregate::nodup_name_versions;

/// Why no package list could be derived from the metadata fetch.
#[derive(Debug, Clone, Copy, PartialEq, Eq, Structural)]
pub enum PkgListFromCargoMetadataError {
    /// The metadata command itself failed in every invocation mode.
    ExecCargo,
    /// The metadata command's output is not a structurally valid document.
    ParseJson,
    /// The compiled-tree command's output is not valid text.
    ParseString,
    /// A worker running one of the commands failed.
    Thread,
    /// No package name could be read out of the root identity string.
    PackageNameParseError,
    /// The root package is absent from the resolved set.
    RootPackageMissing,
}

impl PkgListFromCargoMetadataError {
    /// A short description of the failure.
    pub fn message(&self) -> &'static str {
        match self {
            PkgListFromCargoMetadataError::ExecCargo => "Failed to execute `cargo metadata`.",
            PkgListFromCargoMetadataError::ParseJson => "Failed to parse output of `cargo metadata`.",
            PkgListFromCargoMetadataError::ParseString => "Failed to parse `cargo` output to utf-8 string.",
            PkgListFromCargoMetadataError::Thread => "Error occurred with thread.",
            PkgListFromCargoMetadataError::PackageNameParseError => "Failed to parse package id to package name.",
            PkgListFromCargoMetadataError::RootPackageMissing => "The root/main package is missing.",
        }
    }
}

/// One record of the document's flat package list.
pub struct MetadataPackage {
    pub name: String,
    pub version: String,
    pub id: String,
    pub license: Option<String>,
    pub description: Option<String>,
    pub authors: Vec<String>,
    pub repository: Option<String>,
    pub homepage: Option<String>,
}

/// The resolve section: dependency graph nodes and the root identity.
pub struct MetadataResolve {
    pub nodes: Vec<MetadataResolveNode>,
    pub root: Option<String>,
}

/// The whole decoded metadata document.
pub struct Metadata {
    pub packages: Vec<MetadataPackage>,
    pub resolve: MetadataResolve,
}

/// The string under `key`, where the member exists and is a string.
pub open spec fn spec_str_field(v: JsonValue, key: Seq<char>) -> Option<String> {
    match spec_get(v, key) {
        Some(JsonValue::Str(s)) => Some(s),
        _ => None,
    }
}

/// The optional string under `key`: an absent member or a null both read as
/// `None`; any other non-string value is a structural error.
pub open spec fn spec_opt_str_field(v: JsonValue, key: Seq<char>) -> Option<Option<String>> {
    match spec_get(v, key) {
        None => Some(None),
        Some(JsonValue::Null) => Some(None),
        Some(JsonValue::Str(s)) => Some(Some(s)),
        Some(_) => None,
    }
}

/// Every element is a string.
pub open spec fn strings_ok(elems: Seq<JsonValue>) -> bool {
    forall|i: int| 0 <= i < elems.len() ==> elems[i] is Str
}

/// `ss` lists exactly the strings of `elems`.
pub open spec fn strings_decode(elems: Seq<JsonValue>, ss: Seq<String>) -> bool {
    ss.len() == elems.len() && forall|i: int|
        0 <= i < elems.len() ==> elems[i] == JsonValue::Str(#[trigger] ss[i])
}

/// The structural conditions for one package record.
pub open spec fn package_ok(v: JsonValue) -> bool {
    &&& spec_str_field(v, "name"@) is Some
    &&& spec_str_field(v, "version"@) is Some
    &&& spec_str_field(v, "id"@) is Some
    &&& spec_opt_str_field(v, "license"@) is Some
    &&& spec_opt_str_field(v, "description"@) is Some
    &&& spec_opt_str_field(v, "repository"@) is Some
    &&& spec_opt_str_field(v, "homepage"@) is Some
    &&& match spec_get(v, "authors"@) {
        Some(JsonValue::Arr(a)) => strings_ok(a@),
        _ => false,
    }
}

/// `p` carries exactly the fields of the package record `v`.
pub open spec fn package_decodes_to(v: JsonValue, p: MetadataPackage) -> bool {
    &&& spec_str_field(v, "name"@) == Some(p.name)
    &&& spec_str_field(v, "version"@) == Some(p.version)
    &&& spec_str_field(v, "id"@) == Some(p.id)
    &&& spec_opt_str_field(v, "license"@) == Some(p.license)
    &&& spec_opt_str_field(v, "description"@) == Some(p.description)
    &&& spec_opt_str_field(v, "repository"@) == Some(p.repository)
    &&& spec_opt_str_field(v, "homepage"@) == Some(p.homepage)
    &&& match spec_get(v, "authors"@) {
        Some(JsonValue::Arr(a)) => strings_decode(a@, p.authors@),
        _ => false,
    }
}

/// The structural conditions for one dependency-kind record.
pub open spec fn dep_kind_ok(v: JsonValue) -> bool {
    v is Obj && spec_opt_str_field(v, "kind"@) is Some
}

/// `k` carries exactly the kind of the record `v`.
pub open spec fn dep_kind_decodes_to(v: JsonValue, k: MetadataResolveNodeDepsKind) -> bool {
    v is Obj && spec_opt_str_field(v, "kind"@) == Some(k.kind)
}

/// Every element is a well-formed dependency-kind record.
pub open spec fn dep_kinds_all_ok(a: Seq<JsonValue>) -> bool {
    forall|i: int| 0 <= i < a.len() ==> dep_kind_ok(#[trigger] a[i])
}

/// The structural conditions for one dependency edge record.
pub open spec fn dep_ok(v: JsonValue) -> bool {
    &&& spec_str_field(v, "pkg"@) is Some
    &&& match spec_get(v, "dep_kinds"@) {
        Some(JsonValue::Arr(a)) => dep_kinds_all_ok(a@),
        _ => false,
    }
}

/// `d` carries exactly the target and kinds of the edge record `v`.
pub open spec fn dep_decodes_to(v: JsonValue, d: MetadataResolveNodeDeps) -> bool {
    &&& spec_str_field(v, "pkg"@) == Some(d.pkg)
    &&& match spec_get(v, "dep_kinds"@) {
        Some(JsonValue::Arr(a)) => d.dep_kinds@.len() == a@.len() && forall|i: int|
            0 <= i < a@.len() ==> dep_kind_decodes_to(#[trigger] a@[i], d.dep_kinds@[i]),
        _ => false,
    }
}

/// Every element is a well-formed dependency edge record.
pub open spec fn deps_all_ok(a: Seq<JsonValue>) -> bool {
    forall|i: int| 0 <= i < a.len() ==> dep_ok(#[trigger] a[i])
}

/// The structural conditions for one resolve node record.
pub open spec fn node_ok(v: JsonValue) -> bool {
    &&& spec_str_field(v, "id"@) is Some
    &&& match spec_get(v, "deps"@) {
        Some(JsonValue::Arr(a)) => deps_all_ok(a@),
        _ => false,
    }
}

/// `n` carries exactly the identity and edges of the node record `v`.
pub open spec fn node_decodes_to(v: JsonValue, n: MetadataResolveNode) -> bool {
    &&& spec_str_field(v, "id"@) == Some(n.id)
    &&& match spec_get(v, "deps"@) {
        Some(JsonValue::Arr(a)) => n.deps@.len() == a@.len() && forall|i: int|
            0 <= i < a@.len() ==> dep_decodes_to(#[trigger] a@[i], n.deps@[i]),
        _ => false,
    }
}

/// Every element is a well-formed resolve node record.
pub open spec fn nodes_all_ok(a: Seq<JsonValue>) -> bool {
    forall|i: int| 0 <= i < a.len() ==> node_ok(#[trigger] a[i])
}

/// The structural conditions for the resolve section.
pub open spec fn resolve_ok(v: JsonValue) -> bool {
    &&& spec_opt_str_field(v, "root"@) is Some
    &&& match spec_get(v, "nodes"@) {
        Some(JsonValue::Arr(a)) => nodes_all_ok(a@),
        _ => false,
    }
}

/// `res` carries exactly the nodes and root of the resolve record `v`.
pub open spec fn resolve_decodes_to(v: JsonValue, res: MetadataResolve) -> bool {
    &&& spec_opt_str_field(v, "root"@) == Some(res.root)
    &&& match spec_get(v, "nodes"@) {
        Some(JsonValue::Arr(a)) => res.nodes@.len() == a@.len() && forall|i: int|
            0 <= i < a@.len() ==> node_decodes_to(#[trigger] a@[i], res.nodes@[i]),
        _ => false,
    }
}

/// Every element is a well-formed package record.
pub open spec fn packages_all_ok(a: Seq<JsonValue>) -> bool {
    forall|i: int| 0 <= i < a.len() ==> package_ok(#[trigger] a[i])
}

/// The structural conditions for the whole document.
pub open spec fn metadata_ok(v: JsonValue) -> bool {
    &&& match spec_get(v, "packages"@) {
        Some(JsonValue::Arr(a)) => packages_all_ok(a@),
        _ => false,
    }
    &&& match spec_get(v, "resolve"@) {
        Some(res) => resolve_ok(res),
        None => false,
    }
}

/// `m` carries exactly the packages and resolve section of the document `v`.
pub open spec fn metadata_decodes_to(v: JsonValue, m: Metadata) -> bool {
    &&& match spec_get(v, "packages"@) {
        Some(JsonValue::Arr(a)) => m.packages@.len() == a@.len() && forall|i: int|
            0 <= i < a@.len() ==> package_decodes_to(#[trigger] a@[i], m.packages@[i]),
        _ => false,
    }
    &&& match spec_get(v, "resolve"@) {
        Some(res) => resolve_decodes_to(res, m.resolve),
        None => false,
    }
}

/// Read a required string member.
fn get_str(v: &JsonValue, key: &String) -> (r: Option<String>)
    ensures
        r == spec_str_field(*v, key@),
{
    match v.get(key) {
        Some(x) => match x.as_str() {
            Some(s) => Some(s.clone()),
            None => None,
        },
        None => None,
    }
}

/// Read an optional string member (absent and null both read as `None`).
fn get_opt_str(v: &JsonValue, key: &String) -> (r: Option<Option<String>>)
    ensures
        r == spec_opt_str_field(*v, key@),
{
    match v.get(key) {
        Some(x) => match x {
            JsonValue::Null => Some(None),
            JsonValue::Str(s) => Some(Some(s.clone())),
            _ => None,
        },
        None => Some(None),
    }
}

/// Decode an array of strings.
fn decode_strings(elems: &Vec<JsonValue>) -> (r: Option<Vec<String>>)
    ensures
        match r {
            Some(ss) => strings_decode(elems@, ss@),
            None => !strings_ok(elems@),
        },
{
    let mut out: Vec<String> = Vec::new();
    let mut i: usize = 0;
    while i < elems.len()
        invariant
            i <= elems@.len(),
            out@.len() == i,
            forall|k: int| 0 <= k < i ==> elems@[k] == JsonValue::Str(#[trigger] out@[k]),
        decreases elems@.len() - i,
    {
        match elems[i].as_str() {
            Some(s) => {
                out.push(s.clone());
            },
            None => {
                return None;
            },
        }
        i += 1;
    }
    Some(out)
}

/// Decode one package record.
fn decode_package(v: &JsonValue) -> (r: Option<MetadataPackage>)
    ensures
        match r {
            Some(p) => package_decodes_to(*v, p),
            None => !package_ok(*v),
        },
{
    let name = match get_str(v, &String::from_str("name")) {
        Some(s) => s,
        None => {
            return None;
        },
    };
    let version = match get_str(v, &String::from_str("version")) {
        Some(s) => s,
        None => {
            return None;
        },
    };
    let id = match get_str(v, &String::from_str("id")) {
        Some(s) => s,
        None => {
            return None;
        },
    };
    let license = match get_opt_str(v, &String::from_str("license")) {
        Some(o) => o,
        None => {
            return None;
        },
    };
    let description = match get_opt_str(v, &String::from_str("description")) {
        Some(o) => o,
        None => {
            return None;
        },
    };
    let repository = match get_opt_str(v, &String::from_str("repository")) {
        Some(o) => o,
        None => {
            return None;
        },
    };
    let homepage = match get_opt_str(v, &String::from_str("homepage")) {
        Some(o) => o,
        None => {
            return None;
        },
    };
    let authors = match v.get(&String::from_str("authors")) {
        Some(x) => match x.as_arr() {
            Some(a) => match decode_strings(a) {
                Some(ss) => ss,
                None => {
                    return None;
                },
            },
            None => {
                return None;
            },
        },
        None => {
            return None;
        },
    };
    Some(MetadataPackage { name, version, id, license, description, authors, repository, homepage })
}

/// Decode one dependency-kind record.
fn decode_dep_kind(v: &JsonValue) -> (r: Option<MetadataResolveNodeDepsKind>)
    ensures
        match r {
            Some(k) => dep_kind_decodes_to(*v, k),
            None => !dep_kind_ok(*v),
        },
{
    match v {
        JsonValue::Obj(_) => match get_opt_str(v, &String::from_str("kind")) {
            Some(kind) => Some(MetadataResolveNodeDepsKind { kind }),
            None => None,
        },
        _ => None,
    }
}

/// Decode one dependency edge record.
fn decode_dep(v: &JsonValue) -> (r: Option<MetadataResolveNodeDeps>)
    ensures
        match r {
            Some(d) => dep_decodes_to(*v, d),
            None => !dep_ok(*v),
        },
{
    let pkg = match get_str(v, &String::from_str("pkg")) {
        Some(s) => s,
        None => {
            return None;
        },
    };
    let kinds_arr = match v.get(&String::from_str("dep_kinds")) {
        Some(x) => match x.as_arr() {
            Some(a) => a,
            None => {
                return None;
            },
        },
        None => {
            return None;
        },
    };
    let mut dep_kinds: Vec<MetadataResolveNodeDepsKind> = Vec::new();
    let mut i: usize = 0;
    while i < kinds_arr.len()
        invariant
            spec_get(*v, "dep_kinds"@) == Some(JsonValue::Arr(*kinds_arr)),
            i <= kinds_arr@.len(),
            dep_kinds@.len() == i,
            forall|k: int|
                0 <= k < i ==> dep_kind_decodes_to(#[trigger] kinds_arr@[k], dep_kinds@[k]),
        decreases kinds_arr@.len() - i,
    {
        match decode_dep_kind(&kinds_arr[i]) {
            Some(k) => {
                dep_kinds.push(k);
            },
            None => {
                proof {
                    assert(!dep_kinds_all_ok(kinds_arr@)) by {
                        assert(!dep_kind_ok(kinds_arr@[i as int]));
                    }
                    assert(!dep_ok(*v));
                }
                return None;
            },
        }
        i += 1;
    }
    Some(MetadataResolveNodeDeps { pkg, dep_kinds })
}

/// Decode one resolve node record.
fn decode_node(v: &JsonValue) -> (r: Option<MetadataResolveNode>)
    ensures
        match r {
            Some(n) => node_decodes_to(*v, n),
            None => !node_ok(*v),
        },
{
    let id = match get_str(v, &String::from_str("id")) {
        Some(s) => s,
        None => {
            return None;
        },
    };
    let deps_arr = match v.get(&String::from_str("deps")) {
        Some(x) => match x.as_arr() {
            Some(a) => a,
            None => {
                return None;
            },
        },
        None => {
            return None;
        },
    };
    let mut deps: Vec<MetadataResolveNodeDeps> = Vec::new();
    let mut i: usize = 0;
    while i < deps_arr.len()
        invariant
            spec_get(*v, "deps"@) == Some(JsonValue::Arr(*deps_arr)),
            i <= deps_arr@.len(),
            deps@.len() == i,
            forall|k: int| 0 <= k < i ==> dep_decodes_to(#[trigger] deps_arr@[k], deps@[k]),
        decreases deps_arr@.len() - i,
    {
        match decode_dep(&deps_arr[i]) {
            Some(d) => {
                deps.push(d);
            },
            None => {
                proof {
                    assert(!deps_all_ok(deps_arr@)) by {
                        assert(!dep_ok(deps_arr@[i as int]));
                    }
                    assert(!node_ok(*v));
                }
                return None;
            },
        }
        i += 1;
    }
    Some(MetadataResolveNode { id, deps })
}

/// Decode the resolve section.
fn decode_resolve(v: &JsonValue) -> (r: Option<MetadataResolve>)
    ensures
        match r {
            Some(res) => resolve_decodes_to(*v, res),
            None => !resolve_ok(*v),
        },
{
    let root = match get_opt_str(v, &String::from_str("root")) {
        Some(o) => o,
        None => {
            return None;
        },
    };
    let nodes_arr = match v.get(&String::from_str("nodes")) {
        Some(x) => match x.as_arr() {
            Some(a) => a,
            None => {
                return None;
            },
        },
        None => {
            return None;
        },
    };
    let mut nodes: Vec<MetadataResolveNode> = Vec::new();
    let mut i: usize = 0;
    while i < nodes_arr.len()
        invariant
            spec_get(*v, "nodes"@) == Some(JsonValue::Arr(*nodes_arr)),
            i <= nodes_arr@.len(),
            nodes@.len() == i,
            forall|k: int| 0 <= k < i ==> node_decodes_to(#[trigger] nodes_arr@[k], nodes@[k]),
        decreases nodes_arr@.len() - i,
    {
        match decode_node(&nodes_arr[i]) {
            Some(n) => {
                nodes.push(n);
            },
            None => {
                proof {
                    assert(!nodes_all_ok(nodes_arr@)) by {
                        assert(!node_ok(nodes_arr@[i as int]));
                    }
                    assert(!resolve_ok(*v));
                }
                return None;
            },
        }
        i += 1;
    }
    Some(MetadataResolve { nodes, root })
}

/// Decode the whole metadata document. Purely a decode step: `None` exactly
/// where the document is structurally invalid.
pub fn decode_metadata(v: &JsonValue) -> (r: Option<Metadata>)
    ensures
        match r {
            Some(m) => metadata_decodes_to(*v, m),
            None => !metadata_ok(*v),
        },
{
    let pkgs_arr = match v.get(&String::from_str("packages")) {
        Some(x) => match x.as_arr() {
            Some(a) => a,
            None => {
                return None;
            },
        },
        None => {
            return None;
        },
    };
    let mut packages: Vec<MetadataPackage> = Vec::new();
    let mut i: usize = 0;
    while i < pkgs_arr.len()
        invariant
            spec_get(*v, "packages"@) == Some(JsonValue::Arr(*pkgs_arr)),
            i <= pkgs_arr@.len(),
            packages@.len() == i,
            forall|k: int| 0 <= k < i ==> package_decodes_to(#[trigger] pkgs_arr@[k], packages@[k]),
        decreases pkgs_arr@.len() - i,
    {
        match decode_package(&pkgs_arr[i]) {
            Some(p) => {
                packages.push(p);
            },
            None => {
                proof {
                    assert(!packages_all_ok(pkgs_arr@)) by {
                        assert(!package_ok(pkgs_arr@[i as int]));
                    }
                    assert(!metadata_ok(*v));
                }
                return None;
            },
        }
        i += 1;
    }
    let resolve = match v.get(&String::from_str("resolve")) {
        Some(x) => match decode_resolve(x) {
            Some(res) => res,
            None => {
                return None;
            },
        },
        None => {
            return None;
        },
    };
    Some(Metadata { packages, resolve })
}

/// A character that may introduce a name inside a package identity string.
pub open spec fn is_id_delim(c: char) -> bool {
    c == '#' || c == '|' || c == '/'
}

/// A character of a package name inside an identity string.
pub open spec fn is_id_name_char(c: char) -> bool {
    (97 <= c as u32 && c as u32 <= 122) || c == '-' || c == '_'
}

/// A character that separates the name from the version that follows it.
pub open spec fn is_id_sep(c: char) -> bool {
    c == '@' || c == '|' || c == '#'
}

/// A character of a version inside an identity string.
pub open spec fn is_id_ver_char(c: char) -> bool {
    (48 <= c as u32 && c as u32 <= 57) || c == '.'
}

/// At position `i` of `s` stands a delimiter, then `l` name characters, then
/// a separator followed by a version character: the name extraction rule.
pub open spec fn name_match_at(s: Seq<char>, i: int, l: int) -> bool {
    &&& 0 <= i
    &&& 1 <= l
    &&& i + l + 2 < s.len()
    &&& is_id_delim(s[i])
    &&& forall|k: int| i + 1 <= k < i + 1 + l ==> is_id_name_char(#[trigger] s[k])
    &&& is_id_sep(s[i + 1 + l])
    &&& is_id_ver_char(s[i + 2 + l])
}

/// Some name match starts at position `i`.
pub open spec fn id_match_at(s: Seq<char>, i: int) -> bool {
    exists|l: int| name_match_at(s, i, l)
}

/// A delimiter character, as in [`is_id_delim`].
fn id_delim_exec(c: char) -> (r: bool)
    ensures
        r == is_id_delim(c),
{
    c == '#' || c == '|' || c == '/'
}

/// A name character, as in [`is_id_name_char`].
fn id_name_char_exec(c: char) -> (r: bool)
    ensures
        r == is_id_name_char(c),
{
    let u = c as u32;
    (97 <= u && u <= 122) || c == '-' || c == '_'
}

/// Read the package name out of an identity string: the name characters
/// standing at the first position where a delimiter is followed by a
/// non-empty name, a separator, and a version character.
pub fn extract_package_name_from_id(package_id: &String) -> (r: Result<
    String,
    PkgListFromCargoMetadataError,
>)
    ensures
        match r {
            Ok(name) => exists|i: int, l: int|
                {
                    &&& #[trigger] name_match_at(package_id@, i, l)
                    &&& forall|i2: int| 0 <= i2 < i ==> !id_match_at(package_id@, i2)
                    &&& name@ == package_id@.subrange(i + 1, i + 1 + l)
                },
            Err(e) => e == PkgListFromCargoMetadataError::PackageNameParseError && forall|i: int|
                !id_match_at(package_id@, i),
        },
{
    let s = package_id.as_str();
    let n = s.unicode_len();
    let mut i: usize = 0;
    while i < n
        invariant
            s@ == package_id@,
            n == s@.len(),
            i <= n,
            forall|i2: int| 0 <= i2 < i ==> !id_match_at(s@, i2),
        decreases n - i,
    {
        if id_delim_exec(s.get_char(i)) {
            let mut j: usize = i + 1;
            while j < n && id_name_char_exec(s.get_char(j))
                invariant
                    s@ == package_id@,
                    n == s@.len(),
                    i + 1 <= j <= n,
                    i < n,
                    forall|k: int| i + 1 <= k < j ==> is_id_name_char(#[trigger] s@[k]),
                decreases n - j,
            {
                j += 1;
            }
            let l = j - (i + 1);
            let mut found: bool = false;
            if l >= 1 && j < n - 1 {
                if id_sep_exec(s.get_char(j)) && id_ver_char_exec(s.get_char(j + 1)) {
                    found = true;
                }
            }
            if found {
                let piece = s.substring_char(i + 1, j);
                let name = piece.to_owned();
                proof {
                    assert(name_match_at(s@, i as int, l as int));
                    assert(name@ == s@.subrange(i + 1, i + 1 + l));
                }
                return Ok(name);
            }
            proof {
                assert forall|l2: int| !name_match_at(s@, i as int, l2) by {
                    if name_match_at(s@, i as int, l2) {
                        if l2 < l as int {
                            assert(is_id_name_char(s@[i + 1 + l2]));
                            assert(is_id_sep(s@[i + 1 + l2]));
                        } else if l2 > l as int {
                            assert(i + 1 <= i + 1 + l < i + 1 + l2);
                            assert(is_id_name_char(s@[i + 1 + l]));
                            assert(j < n ==> !is_id_name_char(s@[j as int]));
                        } else {
                            assert(is_id_sep(s@[i + 1 + l]) && is_id_ver_char(s@[i + 2 + l])
                                ==> found);
                        }
                    }
                }
                assert(!id_match_at(s@, i as int));
            }
        } else {
            proof {
                assert forall|l2: int| !name_match_at(s@, i as int, l2) by {}
                assert(!id_match_at(s@, i as int));
            }
        }
        i += 1;
    }
    proof {
        assert forall|i2: int| !id_match_at(s@, i2) by {
            if 0 <= i2 < n {
            } else {
                assert forall|l2: int| !name_match_at(s@, i2, l2) by {}
            }
        }
    }
    Err(PkgListFromCargoMetadataError::PackageNameParseError)
}

/// A separator character, as in [`is_id_sep`].
fn id_sep_exec(c: char) -> (r: bool)
    ensures
        r == is_id_sep(c),
{
    c == '@' || c == '|' || c == '#'
}

/// A version character, as in [`is_id_ver_char`].
fn id_ver_char_exec(c: char) -> (r: bool)
    ensures
        r == is_id_ver_char(c),
{
    let u = c as u32;
    (48 <= u && u <= 57) || c == '.'
}


/// `p` is the resolved package built from the metadata record `mp`, with the
/// root flag set exactly where the record's identity is the root identity.
pub open spec fn package_assembled(p: Package, mp: MetadataPackage, root: Seq<char>) -> bool {
    &&& p.name == mp.name
    &&& p.version == mp.version
    &&& p.authors@ == mp.authors@
    &&& p.description == mp.description
    &&& p.homepage == mp.homepage
    &&& p.repository == mp.repository
    &&& p.license_identifier == mp.license
    &&& p.license_text is None
    &&& !p.restored_from_cache
    &&& p.is_root_pkg == (mp.id@ == root)
    &&& p.name_version@ == name_version_spec(mp.name@, mp.version@)
}

/// The package records whose identity is reachable from the root along
/// normal edges, in their original order.
pub open spec fn kept_packages(
    packages: Seq<MetadataPackage>,
    nodes: Seq<MetadataResolveNode>,
    root: Seq<char>,
) -> Seq<MetadataPackage> {
    packages.filter(|mp: MetadataPackage| reachable(nodes, root, mp.id@))
}

/// All node identities are pairwise distinct.
fn check_unique_node_ids(nodes: &Vec<MetadataResolveNode>) -> (r: bool)
    ensures
        r == unique_node_ids(nodes@),
{
    let mut i: usize = 0;
    while i < nodes.len()
        invariant
            i <= nodes@.len(),
            forall|a: int, b: int| 0 <= a < b < i ==> nodes@[a].id@ != nodes@[b].id@,
        decreases nodes@.len() - i,
    {
        let mut j: usize = 0;
        while j < i
            invariant
                i < nodes@.len(),
                j <= i,
                forall|a: int, b: int| 0 <= a < b < i ==> nodes@[a].id@ != nodes@[b].id@,
                forall|a: int| 0 <= a < j ==> nodes@[a].id@ != nodes@[i as int].id@,
            decreases i - j,
        {
            if nodes[j].id == nodes[i].id {
                return false;
            }
            j += 1;
        }
        i += 1;
    }
    true
}

/// All `name_version` keys are pairwise distinct.
fn check_unique_name_versions(pkgs: &Vec<Package>) -> (r: bool)
    ensures
        r == nodup_name_versions(pkgs@),
{
    let mut i: usize = 0;
    while i < pkgs.len()
        invariant
            i <= pkgs@.len(),
            forall|a: int, b: int|
                0 <= a < b < i ==> pkgs@[a].name_version@ != pkgs@[b].name_version@,
        decreases pkgs@.len() - i,
    {
        let mut j: usize = 0;
        while j < i
            invariant
                i < pkgs@.len(),
                j <= i,
                forall|a: int, b: int|
                    0 <= a < b < i ==> pkgs@[a].name_version@ != pkgs@[b].name_version@,
                forall|a: int| 0 <= a < j ==> pkgs@[a].name_version@ != pkgs@[i as int].name_version@,
            decreases i - j,
        {
            if pkgs[j].name_version == pkgs[i].name_version {
                return false;
            }
            j += 1;
        }
        i += 1;
    }
    true
}

/// Some node carries the declared root identity.
fn root_among_nodes(nodes: &Vec<MetadataResolveNode>, root_id: &String) -> (r: bool)
    ensures
        r == has_node(nodes@, root_id@),
{
    let mut i: usize = 0;
    while i < nodes.len()
        invariant
            i <= nodes@.len(),
            forall|k: int| 0 <= k < i ==> nodes@[k].id@ != root_id@,
        decreases nodes@.len() - i,
    {
        if nodes[i].id == *root_id {
            proof {
                assert(nodes@[i as int].id@ == root_id@);
            }
            return true;
        }
        i += 1;
    }
    false
}

/// All package record identities are pairwise distinct.
fn check_unique_package_ids(packages: &Vec<MetadataPackage>) -> (r: bool)
    ensures
        r == unique_package_ids(packages@),
{
    let mut i: usize = 0;
    while i < packages.len()
        invariant
            i <= packages@.len(),
            forall|a: int, b: int| 0 <= a < b < i ==> packages@[a].id@ != packages@[b].id@,
        decreases packages@.len() - i,
    {
        let mut j: usize = 0;
        while j < i
            invariant
                i < packages@.len(),
                j <= i,
                forall|a: int, b: int| 0 <= a < b < i ==> packages@[a].id@ != packages@[b].id@,
                forall|a: int| 0 <= a < j ==> packages@[a].id@ != packages@[i as int].id@,
            decreases i - j,
        {
            if packages[j].id == packages[i].id {
                return false;
            }
            j += 1;
        }
        i += 1;
    }
    true
}

/// Walk the graph from the root and keep exactly the reachable package
/// records, turned into resolved packages; the record whose identity is the
/// root identity is flagged as the root package.
pub fn assemble_packages(
    packages: &Vec<MetadataPackage>,
    nodes: &Vec<MetadataResolveNode>,
    root_id: &String,
) -> (r: Vec<Package>)
    requires
        unique_node_ids(nodes@),
    ensures
        r@.len() == kept_packages(packages@, nodes@, root_id@).len(),
        forall|i: int|
            0 <= i < r@.len() ==> package_assembled(
                #[trigger] r@[i],
                kept_packages(packages@, nodes@, root_id@)[i],
                root_id@,
            ),
{
    let walked = walk_dependencies(nodes, root_id);
    let ghost pred = |mp: MetadataPackage| reachable(nodes@, root_id@, mp.id@);
    let mut out: Vec<Package> = Vec::new();
    let mut i: usize = 0;
    proof {
        assert(packages@.take(0).filter(pred) =~= Seq::<MetadataPackage>::empty());
        reveal(Seq::filter);
    }
    while i < packages.len()
        invariant
            unique_node_ids(nodes@),
            i <= packages@.len(),
            pred == (|mp: MetadataPackage| reachable(nodes@, root_id@, mp.id@)),
            forall|w: int|
                0 <= w < walked@.len() ==> reachable(nodes@, root_id@, #[trigger] walked@[w]@),
            forall|id: Seq<char>|
                reachable(nodes@, root_id@, id) ==> #[trigger] ids_contain(walked@, id),
            out@.len() == packages@.take(i as int).filter(pred).len(),
            forall|k: int|
                0 <= k < out@.len() ==> package_assembled(
                    #[trigger] out@[k],
                    packages@.take(i as int).filter(pred)[k],
                    root_id@,
                ),
        decreases packages@.len() - i,
    {
        let keep = ids_contain_exec(&walked, &packages[i].id);
        proof {
            if keep {
                let w = choose|w: int|
                    0 <= w < walked@.len() && walked@[w]@ == packages@[i as int].id@;
                assert(reachable(nodes@, root_id@, walked@[w]@));
                assert(pred(packages@[i as int]));
            } else {
                assert(!pred(packages@[i as int]));
            }
            lemma_filter_take_step(packages@, pred, i as int);
        }
        if keep {
            let mp = &packages[i];
            let is_root = mp.id == *root_id;
            let mut p = Package::new(
                mp.name.clone(),
                mp.version.clone(),
                clone_string_vec(&mp.authors),
                clone_opt_string(&mp.description),
                clone_opt_string(&mp.homepage),
                clone_opt_string(&mp.repository),
                clone_opt_string(&mp.license),
                None,
            );
            p.is_root_pkg = is_root;
            out.push(p);
        }
        i += 1;
    }
    proof {
        assert(packages@.take(packages@.len() as int) =~= packages@);
    }
    out
}

/// Package record identities are pairwise distinct.
pub open spec fn unique_package_ids(packages: Seq<MetadataPackage>) -> bool {
    forall|i: int, j: int| 0 <= i < j < packages.len() ==> packages[i].id@ != packages[j].id@
}

/// The reachable package records of the document carry pairwise distinct
/// `name_version` keys, so the resolved list's key invariant holds.
pub open spec fn kept_keys_distinct(m: Metadata) -> bool {
    m.resolve.root is Some ==> {
        let kept = kept_packages(m.packages@, m.resolve.nodes@, m.resolve.root->Some_0@);
        forall|i: int, j: int|
            0 <= i < j < kept.len() ==> name_version_spec(kept[i].name@, kept[i].version@)
                != name_version_spec(kept[j].name@, kept[j].version@)
    }
}

/// `pkgs` is the package list derived from the decoded document `m`: the
/// document declares a root identity, its node and package identities are
/// distinct, and `pkgs` holds exactly the reachable package records,
/// assembled in order.
pub open spec fn derived_from_metadata(pkgs: Seq<Package>, m: Metadata) -> bool {
    &&& m.resolve.root is Some
    &&& has_node(m.resolve.nodes@, m.resolve.root->Some_0@)
    &&& unique_node_ids(m.resolve.nodes@)
    &&& unique_package_ids(m.packages@)
    &&& kept_keys_distinct(m)
    &&& nodup_name_versions(pkgs)
    &&& pkgs.len() == kept_packages(
        m.packages@,
        m.resolve.nodes@,
        m.resolve.root->Some_0@,
    ).len()
    &&& forall|i: int|
        0 <= i < pkgs.len() ==> package_assembled(
            #[trigger] pkgs[i],
            kept_packages(m.packages@, m.resolve.nodes@, m.resolve.root->Some_0@)[i],
            m.resolve.root->Some_0@,
        )
}

/// `pkgs` is the package list derived from metadata-command output
/// `metadata_out`: the output parses and decodes into a document that `pkgs`
/// derives from, as [`derived_from_metadata`].
pub open spec fn package_list_derived(pkgs: Seq<Package>, metadata_out: Seq<u8>) -> bool {
    exists|m: Metadata|
        {
            &&& json_parse(metadata_out) is Some
            &&& #[trigger] metadata_decodes_to(json_parse(metadata_out)->Some_0, m)
            &&& derived_from_metadata(pkgs, m)
        }
}

/// A decodable package record is well-formed.
proof fn lemma_package_decode_ok(v: JsonValue, p: MetadataPackage)
    requires
        package_decodes_to(v, p),
    ensures
        package_ok(v),
{
    match spec_get(v, "authors"@) {
        Some(JsonValue::Arr(a)) => {
            assert(strings_decode(a@, p.authors@));
            assert forall|i: int| 0 <= i < a@.len() implies (#[trigger] a@[i]) is Str by {
                assert(a@[i] == JsonValue::Str(p.authors@[i]));
            }
            assert(strings_ok(a@));
        },
        _ => {},
    }
}

/// A decodable dependency edge record is well-formed.
proof fn lemma_dep_decode_ok(v: JsonValue, d: MetadataResolveNodeDeps)
    requires
        dep_decodes_to(v, d),
    ensures
        dep_ok(v),
{
    match spec_get(v, "dep_kinds"@) {
        Some(JsonValue::Arr(a)) => {
            assert forall|i: int| 0 <= i < a@.len() implies dep_kind_ok(#[trigger] a@[i]) by {
                assert(dep_kind_decodes_to(a@[i], d.dep_kinds@[i]));
            }
            assert(dep_kinds_all_ok(a@));
        },
        _ => {},
    }
}

/// A decodable node record is well-formed.
proof fn lemma_node_decode_ok(v: JsonValue, n: MetadataResolveNode)
    requires
        node_decodes_to(v, n),
    ensures
        node_ok(v),
{
    match spec_get(v, "deps"@) {
        Some(JsonValue::Arr(a)) => {
            assert forall|i: int| 0 <= i < a@.len() implies dep_ok(#[trigger] a@[i]) by {
                assert(dep_decodes_to(a@[i], n.deps@[i]));
                lemma_dep_decode_ok(a@[i], n.deps@[i]);
            }
            assert(deps_all_ok(a@));
        },
        _ => {},
    }
}

/// A decodable document is well-formed.
proof fn lemma_metadata_decode_ok(v: JsonValue, m: Metadata)
    requires
        metadata_decodes_to(v, m),
    ensures
        metadata_ok(v),
{
    match spec_get(v, "packages"@) {
        Some(JsonValue::Arr(a)) => {
            assert forall|i: int| 0 <= i < a@.len() implies package_ok(#[trigger] a@[i]) by {
                assert(package_decodes_to(a@[i], m.packages@[i]));
                lemma_package_decode_ok(a@[i], m.packages@[i]);
            }
            assert(packages_all_ok(a@));
        },
        _ => {},
    }
    match spec_get(v, "resolve"@) {
        Some(res) => {
            match spec_get(res, "nodes"@) {
                Some(JsonValue::Arr(a)) => {
                    assert forall|i: int| 0 <= i < a@.len() implies node_ok(#[trigger] a@[i]) by {
                        assert(node_decodes_to(a@[i], m.resolve.nodes@[i]));
                        lemma_node_decode_ok(a@[i], m.resolve.nodes@[i]);
                    }
                    assert(nodes_all_ok(a@));
                },
                _ => {},
            }
            assert(resolve_ok(res));
        },
        None => {},
    }
}

/// Decoding is deterministic in everything the pipeline checks: two decoded
/// documents of the same parse carry the same root, graphs describing the
/// same edges, and package records with the same identities, names and
/// versions.
proof fn lemma_decode_agree(doc: JsonValue, m1: Metadata, m2: Metadata)
    requires
        metadata_decodes_to(doc, m1),
        metadata_decodes_to(doc, m2),
    ensures
        m1.resolve.root == m2.resolve.root,
        nodes_similar(m1.resolve.nodes@, m2.resolve.nodes@),
        m1.packages@.len() == m2.packages@.len(),
        forall|i: int|
            0 <= i < m1.packages@.len() ==> (#[trigger] m1.packages@[i]).id == m2.packages@[i].id
                && m1.packages@[i].name == m2.packages@[i].name && m1.packages@[i].version
                == m2.packages@[i].version,
{
    match spec_get(doc, "resolve"@) {
        Some(res) => {
            assert(resolve_decodes_to(res, m1.resolve) && resolve_decodes_to(res, m2.resolve));
            match spec_get(res, "nodes"@) {
                Some(JsonValue::Arr(a)) => {
                    assert forall|i: int|
                        0 <= i < m1.resolve.nodes@.len() implies #[trigger] node_similar(
                        m1.resolve.nodes@[i],
                        m2.resolve.nodes@[i],
                    ) by {
                        let x = m1.resolve.nodes@[i];
                        let y = m2.resolve.nodes@[i];
                        assert(node_decodes_to(a@[i], x) && node_decodes_to(a@[i], y));
                        match spec_get(a@[i], "deps"@) {
                            Some(JsonValue::Arr(da)) => {
                                assert forall|j: int|
                                    0 <= j < x.deps@.len() implies #[trigger] dep_similar(
                                    x.deps@[j],
                                    y.deps@[j],
                                ) by {
                                    assert(dep_decodes_to(da@[j], x.deps@[j]) && dep_decodes_to(
                                        da@[j],
                                        y.deps@[j],
                                    ));
                                    match spec_get(da@[j], "dep_kinds"@) {
                                        Some(JsonValue::Arr(ka)) => {
                                            assert forall|k: int|
                                                0 <= k < x.deps@[j].dep_kinds@.len() implies (
                                            #[trigger] x.deps@[j].dep_kinds@[k]).kind
                                                == y.deps@[j].dep_kinds@[k].kind by {
                                                assert(dep_kind_decodes_to(
                                                    ka@[k],
                                                    x.deps@[j].dep_kinds@[k],
                                                ) && dep_kind_decodes_to(
                                                    ka@[k],
                                                    y.deps@[j].dep_kinds@[k],
                                                ));
                                            }
                                        },
                                        _ => {},
                                    }
                                }
                            },
                            _ => {},
                        }
                    }
                },
                _ => {},
            }
        },
        None => {},
    }
    match spec_get(doc, "packages"@) {
        Some(JsonValue::Arr(a)) => {
            assert forall|i: int|
                0 <= i < m1.packages@.len() implies (#[trigger] m1.packages@[i]).id
                == m2.packages@[i].id && m1.packages@[i].name == m2.packages@[i].name
                && m1.packages@[i].version == m2.packages@[i].version by {
                assert(package_decodes_to(a@[i], m1.packages@[i]) && package_decodes_to(
                    a@[i],
                    m2.packages@[i],
                ));
            }
        },
        _ => {},
    }
}

/// A derivable metadata output is never rejected: the rejection conditions
/// and the derivation conditions exclude each other.
pub proof fn lemma_derived_not_rejected(base: Seq<Package>, metadata_out: Seq<u8>)
    requires
        package_list_derived(base, metadata_out),
    ensures
        !metadata_rejected(metadata_out),
{
    let m = choose|m: Metadata|
        {
            &&& json_parse(metadata_out) is Some
            &&& #[trigger] metadata_decodes_to(json_parse(metadata_out)->Some_0, m)
            &&& derived_from_metadata(base, m)
        };
    let doc = json_parse(metadata_out)->Some_0;
    lemma_metadata_decode_ok(doc, m);
    assert forall|m2: Metadata| #[trigger] metadata_decodes_to(doc, m2) implies !(m2.resolve.root
        is None || !has_node(m2.resolve.nodes@, m2.resolve.root->Some_0@) || !unique_node_ids(
        m2.resolve.nodes@,
    ) || !unique_package_ids(m2.packages@) || !kept_keys_distinct(m2)) by {
        lemma_decode_agree(doc, m, m2);
        let root = m.resolve.root->Some_0@;
        assert(m2.resolve.root is Some && m2.resolve.root->Some_0@ == root);
        assert(has_node(m2.resolve.nodes@, root)) by {
            let i = choose|i: int|
                0 <= i < m.resolve.nodes@.len() && m.resolve.nodes@[i].id@ == root;
            assert(node_similar(m.resolve.nodes@[i], m2.resolve.nodes@[i]));
            assert(m2.resolve.nodes@[i].id@ == root);
        }
        assert(unique_node_ids(m2.resolve.nodes@)) by {
            assert forall|i: int, j: int|
                0 <= i < j < m2.resolve.nodes@.len() implies m2.resolve.nodes@[i].id@
                != m2.resolve.nodes@[j].id@ by {
                assert(node_similar(m.resolve.nodes@[i], m2.resolve.nodes@[i]));
                assert(node_similar(m.resolve.nodes@[j], m2.resolve.nodes@[j]));
            }
        }
        assert(unique_package_ids(m2.packages@)) by {
            assert forall|i: int, j: int|
                0 <= i < j < m2.packages@.len() implies m2.packages@[i].id@
                != m2.packages@[j].id@ by {
                assert(m.packages@[i].id == m2.packages@[i].id);
                assert(m.packages@[j].id == m2.packages@[j].id);
            }
        }
        assert(kept_keys_distinct(m2)) by {
            lemma_kept_correspond(m, m2);
        }
    }
}

/// The reachable package records of two decoded documents of the same parse
/// correspond: same length, identities, names and versions, position by
/// position.
proof fn lemma_kept_correspond(m1: Metadata, m2: Metadata)
    requires
        m1.resolve.root == m2.resolve.root,
        m1.resolve.root is Some,
        nodes_similar(m1.resolve.nodes@, m2.resolve.nodes@),
        m1.packages@.len() == m2.packages@.len(),
        forall|i: int|
            0 <= i < m1.packages@.len() ==> (#[trigger] m1.packages@[i]).id == m2.packages@[i].id
                && m1.packages@[i].name == m2.packages@[i].name && m1.packages@[i].version
                == m2.packages@[i].version,
        kept_keys_distinct(m1),
    ensures
        kept_keys_distinct(m2),
        ({
            let root = m1.resolve.root->Some_0@;
            let k1 = kept_packages(m1.packages@, m1.resolve.nodes@, root);
            let k2 = kept_packages(m2.packages@, m2.resolve.nodes@, root);
            k1.len() == k2.len() && forall|i: int|
                0 <= i < k1.len() ==> (#[trigger] k1[i]).id == k2[i].id && k1[i].name == k2[i].name
                    && k1[i].version == k2[i].version
        }),
{
    let root = m1.resolve.root->Some_0@;
    let p1 = |mp: MetadataPackage| reachable(m1.resolve.nodes@, root, mp.id@);
    let p2 = |mp: MetadataPackage| reachable(m2.resolve.nodes@, root, mp.id@);
    let rel = |mp: MetadataPackage, mq: MetadataPackage|
        mp.id == mq.id && mp.name == mq.name && mp.version == mq.version;
    assert(nodes_similar(m2.resolve.nodes@, m1.resolve.nodes@)) by {
        assert forall|i: int|
            0 <= i < m2.resolve.nodes@.len() implies #[trigger] node_similar(
            m2.resolve.nodes@[i],
            m1.resolve.nodes@[i],
        ) by {
            assert(node_similar(m1.resolve.nodes@[i], m2.resolve.nodes@[i]));
            assert forall|j: int|
                0 <= j < m2.resolve.nodes@[i].deps@.len() implies #[trigger] dep_similar(
                m2.resolve.nodes@[i].deps@[j],
                m1.resolve.nodes@[i].deps@[j],
            ) by {
                assert(dep_similar(
                    m1.resolve.nodes@[i].deps@[j],
                    m2.resolve.nodes@[i].deps@[j],
                ));
            }
        }
    }
    assert forall|i: int| 0 <= i < m1.packages@.len() implies p1(#[trigger] m1.packages@[i]) == p2(
        m2.packages@[i],
    ) by {
        if reachable(m1.resolve.nodes@, root, m1.packages@[i].id@) {
            lemma_similar_preserves_reachable(
                m1.resolve.nodes@,
                m2.resolve.nodes@,
                root,
                m1.packages@[i].id@,
            );
        }
        if reachable(m2.resolve.nodes@, root, m2.packages@[i].id@) {
            lemma_similar_preserves_reachable(
                m2.resolve.nodes@,
                m1.resolve.nodes@,
                root,
                m2.packages@[i].id@,
            );
        }
    }
    crate::lemma_filter_corresponding(m1.packages@, m2.packages@, p1, p2, rel);
    let k1 = kept_packages(m1.packages@, m1.resolve.nodes@, root);
    let k2 = kept_packages(m2.packages@, m2.resolve.nodes@, root);
    assert(k1 == m1.packages@.filter(p1));
    assert(k2 == m2.packages@.filter(p2));
    assert forall|i: int|
        0 <= i < k1.len() implies (#[trigger] k1[i]).id == k2[i].id && k1[i].name == k2[i].name
        && k1[i].version == k2[i].version by {
        assert(rel(m1.packages@.filter(p1)[i], m2.packages@.filter(p2)[i]));
    }
    assert forall|i: int, j: int|
        0 <= i < j < k2.len() implies name_version_spec(k2[i].name@, k2[i].version@)
        != name_version_spec(k2[j].name@, k2[j].version@) by {
        assert(rel(k1[i], k2[i]) && rel(k1[j], k2[j]));
        assert(name_version_spec(k1[i].name@, k1[i].version@) != name_version_spec(
            k1[j].name@,
            k1[j].version@,
        ));
    }
}

/// Any two package lists derived from the same metadata output agree on
/// length, and position by position on name and root flag.
pub proof fn lemma_derived_bases_agree(b1: Seq<Package>, b2: Seq<Package>, metadata_out: Seq<u8>)
    requires
        package_list_derived(b1, metadata_out),
        package_list_derived(b2, metadata_out),
    ensures
        b1.len() == b2.len(),
        forall|i: int|
            0 <= i < b1.len() ==> (#[trigger] b1[i]).is_root_pkg == b2[i].is_root_pkg
                && b1[i].name == b2[i].name,
{
    let doc = json_parse(metadata_out)->Some_0;
    let m1 = choose|m: Metadata|
        #[trigger] metadata_decodes_to(doc, m) && derived_from_metadata(b1, m);
    let m2 = choose|m: Metadata|
        #[trigger] metadata_decodes_to(doc, m) && derived_from_metadata(b2, m);
    lemma_decode_agree(doc, m1, m2);
    lemma_kept_correspond(m1, m2);
    let root = m1.resolve.root->Some_0@;
    let k1 = kept_packages(m1.packages@, m1.resolve.nodes@, root);
    let k2 = kept_packages(m2.packages@, m2.resolve.nodes@, root);
    assert(m2.resolve.root->Some_0@ == root);
    assert forall|i: int|
        0 <= i < b1.len() implies (#[trigger] b1[i]).is_root_pkg == b2[i].is_root_pkg && b1[i].name
        == b2[i].name by {
        assert(package_assembled(b1[i], k1[i], root));
        assert(package_assembled(b2[i], k2[i], root));
        assert(k1[i].id == k2[i].id && k1[i].name == k2[i].name);
    }
}

/// A derived package list flags at most one package as the root: the root
/// flag marks exactly the record whose identity is the declared root
/// identity, and record identities are distinct.
pub proof fn lemma_derived_at_most_one_root(pkgs: Seq<Package>, metadata_out: Seq<u8>)
    requires
        package_list_derived(pkgs, metadata_out),
    ensures
        forall|i: int, j: int|
            0 <= i < j < pkgs.len() ==> !(pkgs[i].is_root_pkg && pkgs[j].is_root_pkg),
{
    let m = choose|m: Metadata|
        {
            &&& json_parse(metadata_out) is Some
            &&& #[trigger] metadata_decodes_to(json_parse(metadata_out)->Some_0, m)
            &&& derived_from_metadata(pkgs, m)
        };
    let root = m.resolve.root->Some_0@;
    let kept = kept_packages(m.packages@, m.resolve.nodes@, root);
    crate::lemma_filter_pairwise(
        m.packages@,
        |mp: MetadataPackage| reachable(m.resolve.nodes@, root, mp.id@),
        |a: MetadataPackage, b: MetadataPackage| a.id@ != b.id@,
    );
    assert forall|i: int, j: int|
        0 <= i < j < pkgs.len() implies !(pkgs[i].is_root_pkg && pkgs[j].is_root_pkg) by {
        assert(pkgs[i].is_root_pkg == (kept[i].id@ == root));
        assert(pkgs[j].is_root_pkg == (kept[j].id@ == root));
        assert(kept[i].id@ != kept[j].id@);
    }
}

/// The metadata-command output yields no package list: it does not parse,
/// does not decode, declares no root identity, or its node identities
/// collide.
pub open spec fn metadata_rejected(metadata_out: Seq<u8>) -> bool {
    ||| json_parse(metadata_out) is None
    ||| !metadata_ok(json_parse(metadata_out)->Some_0)
    ||| exists|m: Metadata|
        {
            &&& #[trigger] metadata_decodes_to(json_parse(metadata_out)->Some_0, m)
            &&& (m.resolve.root is None || !has_node(m.resolve.nodes@, m.resolve.root->Some_0@)
                || !unique_node_ids(m.resolve.nodes@) || !unique_package_ids(m.packages@)
                || !kept_keys_distinct(m))
        }
}

/// Derive the resolved package list from the raw output of the metadata
/// command: parse the document, decode it, walk the dependency graph from
/// its root, and keep exactly the reachable package records. Fails with
/// [`ParseJson`](PkgListFromCargoMetadataError::ParseJson) exactly where the
/// output is not a structurally valid document, where it declares no root
/// identity, where the declared root is absent from the node list, or where
/// its node identities, package identities or resolved `name_version` keys
/// collide.
pub fn package_list_from_cargo_metadata(metadata_out: &[u8]) -> (r: Result<
    Vec<Package>,
    PkgListFromCargoMetadataError,
>)
    ensures
        match r {
            Ok(pkgs) => package_list_derived(pkgs@, metadata_out@),
            Err(e) => e == PkgListFromCargoMetadataError::ParseJson && metadata_rejected(
                metadata_out@,
            ),
        },
{
    let doc = match parse_json_bytes(metadata_out) {
        Some(doc) => doc,
        None => {
            return Err(PkgListFromCargoMetadataError::ParseJson);
        },
    };
    let metadata = match decode_metadata(&doc) {
        Some(m) => m,
        None => {
            return Err(PkgListFromCargoMetadataError::ParseJson);
        },
    };
    let root_id = match &metadata.resolve.root {
        Some(root) => root.clone(),
        None => {
            proof {
                assert(metadata_decodes_to(json_parse(metadata_out@)->Some_0, metadata));
            }
            return Err(PkgListFromCargoMetadataError::ParseJson);
        },
    };
    if !check_unique_node_ids(&metadata.resolve.nodes) {
        proof {
            assert(metadata_decodes_to(json_parse(metadata_out@)->Some_0, metadata));
        }
        return Err(PkgListFromCargoMetadataError::ParseJson);
    }
    if !root_among_nodes(&metadata.resolve.nodes, &root_id) {
        proof {
            assert(metadata_decodes_to(json_parse(metadata_out@)->Some_0, metadata));
        }
        return Err(PkgListFromCargoMetadataError::ParseJson);
    }
    if !check_unique_package_ids(&metadata.packages) {
        proof {
            assert(metadata_decodes_to(json_parse(metadata_out@)->Some_0, metadata));
        }
        return Err(PkgListFromCargoMetadataError::ParseJson);
    }
    let pkgs = assemble_packages(&metadata.packages, &metadata.resolve.nodes, &root_id);
    if !check_unique_name_versions(&pkgs) {
        proof {
            assert(metadata_decodes_to(json_parse(metadata_out@)->Some_0, metadata));
            assert(!kept_keys_distinct(metadata)) by {
                let kept = kept_packages(
                    metadata.packages@,
                    metadata.resolve.nodes@,
                    metadata.resolve.root->Some_0@,
                );
                let (i, j): (int, int) = choose|i: int, j: int|
                    0 <= i < j < pkgs@.len() && pkgs@[i].name_version@
                        == pkgs@[j].name_version@;
                assert(pkgs@[i].name_version@ == name_version_spec(
                    kept[i].name@,
                    kept[i].version@,
                ));
                assert(pkgs@[j].name_version@ == name_version_spec(
                    kept[j].name@,
                    kept[j].version@,
                ));
            }
        }
        return Err(PkgListFromCargoMetadataError::ParseJson);
    }
    proof {
        assert(metadata_decodes_to(json_parse(metadata_out@)->Some_0, metadata));
        assert(kept_keys_distinct(metadata)) by {
            let kept = kept_packages(
                metadata.packages@,
                metadata.resolve.nodes@,
                metadata.resolve.root->Some_0@,
            );
            assert forall|i: int, j: int|
                0 <= i < j < kept.len() implies name_version_spec(kept[i].name@, kept[i].version@)
                != name_version_spec(kept[j].name@, kept[j].version@) by {
                assert(pkgs@[i].name_version@ == name_version_spec(
                    kept[i].name@,
                    kept[i].version@,
                ));
                assert(pkgs@[j].name_version@ == name_version_spec(
                    kept[j].name@,
                    kept[j].version@,
                ));
            }
        }
    }
    Ok(pkgs)
}

} // verus!
