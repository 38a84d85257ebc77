//! Serialization of a package list into a compressed byte artifact, and the
//! decoding back.
//!
//! Each package is flattened into a row of plain values; the row list is
//! serialized and the result compressed. Decoding an empty buffer fails with
//! a distinct error rather than yielding an empty list, so "no data present"
//! is never mistaken for "no dependencies". Encoding then decoding a list
//! yields a list whose every field equals the original's.

use vstd::prelude::*;

verus! {

use crate::{Package, PackageList, clone_opt_string, clone_string_vec};
use crate::error::UnpackError;

/// One package flattened to plain values for serialization.
pub type PackageRow = (
    String,
    String,
    Vec<String>,
    Option<String>,
    Option<String>,
    Option<String>,
    Option<String>,
    Option<String>,
    bool,
    bool,
    String,
);

/// The contents of one row, field by field.
pub type PackageRowView = (
    Seq<char>,
    Seq<char>,
    Seq<Seq<char>>,
    Option<Seq<char>>,
    Option<Seq<char>>,
    Option<Seq<char>>,
    Option<Seq<char>>,
    Option<Seq<char>>,
    bool,
    bool,
    Seq<char>,
);

/// The contents of a row.
pub open spec fn row_view(r: PackageRow) -> PackageRowView {
    (
        r.0@,
        r.1@,
        r.2.deep_view(),
        r.3.deep_view(),
        r.4.deep_view(),
        r.5.deep_view(),
        r.6.deep_view(),
        r.7.deep_view(),
        r.8,
        r.9,
        r.10@,
    )
}

/// The contents of each row.
pub open spec fn rows_view(rows: Seq<PackageRow>) -> Seq<PackageRowView> {
    rows.map_values(|r: PackageRow| row_view(r))
}

/// The contents of a package, arranged as its row.
pub open spec fn package_row_view(p: Package) -> PackageRowView {
    (
        p.name@,
        p.version@,
        p.authors.deep_view(),
        p.description.deep_view(),
        p.homepage.deep_view(),
        p.repository.deep_view(),
        p.license_identifier.deep_view(),
        p.license_text.deep_view(),
        p.restored_from_cache,
        p.is_root_pkg,
        p.name_version@,
    )
}

/// The contents of each package, arranged as rows.
pub open spec fn packages_rows_view(pkgs: Seq<Package>) -> Seq<PackageRowView> {
    pkgs.map_values(|p: Package| package_row_view(p))
}

/// The two packages carry the same contents in every field.
pub open spec fn package_view_eq(p: Package, q: Package) -> bool {
    package_row_view(p) == package_row_view(q)
}

/// The two lists carry the same packages, by contents.
pub open spec fn packages_view_eq(a: Seq<Package>, b: Seq<Package>) -> bool {
    a.len() == b.len() && forall|i: int| 0 <= i < a.len() ==> package_view_eq(#[trigger] a[i], b[i])
}

/// What `bincode::encode_to_vec` (standard configuration) yields on a row
/// list with these contents.
pub uninterp spec fn bincode_of(rows: Seq<PackageRowView>) -> Seq<u8>;

/// What `miniz_oxide::deflate::compress_to_vec` at level 10 yields on these
/// bytes.
pub uninterp spec fn deflate_of(data: Seq<u8>) -> Seq<u8>;

/// What `miniz_oxide::inflate::decompress_to_vec` yields on these bytes: the
/// decompressed content, or `None` where the bytes are not a valid
/// compressed stream.
pub uninterp spec fn inflate_of(data: Seq<u8>) -> Option<Seq<u8>>;

/// What `bincode::decode_from_slice` (standard configuration) yields on
/// these bytes: the contents of the decoded row list, or `None` where the
/// bytes do not decode.
pub uninterp spec fn decoded_rows_of(bytes: Seq<u8>) -> Option<Seq<PackageRowView>>;

/// The encoded, compressed artifact of a list of packages with these
/// contents.
pub open spec fn encoded_bytes(pkgs: Seq<Package>) -> Seq<u8> {
    deflate_of(bincode_of(packages_rows_view(pkgs)))
}

/// Relies on `bincode::encode_to_vec` with the standard configuration: the
/// serialized form of a row list depends on its contents alone, and writing
/// into a fresh byte vector cannot fail for these element types.
#[verifier::external_body]
fn encode_rows(rows: &Vec<PackageRow>) -> (r: Result<Vec<u8>, bincode::error::EncodeError>)
    ensures
        r is Ok,
        r matches Ok(b) ==> b@ == bincode_of(rows_view(rows@)),
{
    bincode::encode_to_vec(rows, bincode::config::standard())
}

/// Relies on `bincode::decode_from_slice` with the standard configuration:
/// whether decoding succeeds, and with which contents, depends on the bytes
/// alone, and decoding the serialized form of a row list yields back a row
/// list with the same contents.
#[verifier::external_body]
fn decode_rows(bytes: &[u8]) -> (r: Result<Vec<PackageRow>, bincode::error::DecodeError>)
    ensures
        r is Ok <==> decoded_rows_of(bytes@) is Some,
        r matches Ok(v) ==> Some(rows_view(v@)) == decoded_rows_of(bytes@),
        forall|rows: Seq<PackageRowView>|
            bytes@ == bincode_of(rows) ==> r is Ok && rows_view(r->Ok_0@) == rows,
{
    bincode::decode_from_slice(bytes, bincode::config::standard()).map(|(v, _)| v)
}

/// Relies on `miniz_oxide::deflate::compress_to_vec` at level 10: the
/// compressed form depends on the input bytes alone, and a compressed stream
/// is never empty (it holds at least one block).
#[verifier::external_body]
fn deflate_bytes(data: &[u8]) -> (r: Vec<u8>)
    ensures
        r@ == deflate_of(data@),
        r@.len() > 0,
{
    miniz_oxide::deflate::compress_to_vec(data, 10)
}

/// Relies on `miniz_oxide::inflate::decompress_to_vec`: whether
/// decompression succeeds, and with which content, depends on the bytes
/// alone, and compression is lossless, so decompressing the compressed form
/// of any bytes yields exactly those bytes.
#[verifier::external_body]
fn inflate_bytes(bytes: &[u8]) -> (r: Result<Vec<u8>, miniz_oxide::inflate::DecompressError>)
    ensures
        r is Ok <==> inflate_of(bytes@) is Some,
        r matches Ok(d) ==> Some(d@) == inflate_of(bytes@),
        forall|x: Seq<u8>| bytes@ == deflate_of(x) ==> r is Ok && r->Ok_0@ == x,
{
    miniz_oxide::inflate::decompress_to_vec(bytes)
}

/// Flatten one package into its row.
fn package_to_row(p: &Package) -> (r: PackageRow)
    ensures
        row_view(r) == package_row_view(*p),
{
    let r = (
        p.name.clone(),
        p.version.clone(),
        clone_string_vec(&p.authors),
        clone_opt_string(&p.description),
        clone_opt_string(&p.homepage),
        clone_opt_string(&p.repository),
        clone_opt_string(&p.license_identifier),
        clone_opt_string(&p.license_text),
        p.restored_from_cache,
        p.is_root_pkg,
        p.name_version.clone(),
    );
    proof {
        assert(r.2.deep_view() =~~= p.authors.deep_view());
    }
    r
}

/// Rebuild one package from its row.
fn row_to_package(r: &PackageRow) -> (p: Package)
    ensures
        package_row_view(p) == row_view(*r),
{
    let p = Package {
        name: r.0.clone(),
        version: r.1.clone(),
        authors: clone_string_vec(&r.2),
        description: clone_opt_string(&r.3),
        homepage: clone_opt_string(&r.4),
        repository: clone_opt_string(&r.5),
        license_identifier: clone_opt_string(&r.6),
        license_text: clone_opt_string(&r.7),
        restored_from_cache: r.8,
        is_root_pkg: r.9,
        name_version: r.10.clone(),
    };
    proof {
        assert(p.authors.deep_view() =~~= r.2.deep_view());
    }
    p
}

impl PackageList {
    /// Serialize and compress this list into the byte artifact. On success
    /// the artifact is exactly the encoding of this list's contents, and it
    /// is never empty.
    pub fn encode(&self) -> (r: Result<Vec<u8>, bincode::error::EncodeError>)
        ensures
            r is Ok,
            r matches Ok(b) ==> b@ == encoded_bytes(self.0@) && b@.len() > 0,
    {
        let mut rows: Vec<PackageRow> = Vec::new();
        let mut i: usize = 0;
        while i < self.0.len()
            invariant
                i <= self.0@.len(),
                rows@.len() == i,
                forall|k: int|
                    0 <= k < i ==> row_view(#[trigger] rows@[k]) == package_row_view(self.0@[k]),
            decreases self.0@.len() - i,
        {
            rows.push(package_to_row(&self.0[i]));
            i += 1;
        }
        proof {
            assert(rows_view(rows@) =~= packages_rows_view(self.0@));
        }
        let data = match encode_rows(&rows) {
            Ok(d) => d,
            Err(e) => {
                return Err(e);
            },
        };
        Ok(deflate_bytes(data.as_slice()))
    }

    /// Decompress and decode a byte artifact back into a package list.
    ///
    /// An empty buffer is rejected with [`UnpackError::Empty`]: absence of
    /// data is never read as an empty list. Decoding the artifact that
    /// [`PackageList::encode`] produced for any list yields a list whose
    /// every field equals the original's.
    pub fn from_encoded(bytes: &[u8]) -> (r: Result<PackageList, UnpackError>)
        ensures
            bytes@.len() == 0 ==> (r matches Err(e) && e is Empty),
            r matches Err(e) ==> match e {
                UnpackError::Empty => bytes@.len() == 0,
                UnpackError::DecompressError(_) => bytes@.len() > 0 && inflate_of(bytes@)
                    is None,
                UnpackError::DecodeError(_) => bytes@.len() > 0 && inflate_of(bytes@) is Some
                    && decoded_rows_of(inflate_of(bytes@)->Some_0) is None,
            },
            (bytes@.len() > 0 && inflate_of(bytes@) is Some && decoded_rows_of(
                inflate_of(bytes@)->Some_0,
            ) is Some) ==> r is Ok && packages_rows_view(r->Ok_0.0@) == decoded_rows_of(
                inflate_of(bytes@)->Some_0,
            )->Some_0,
            forall|pkgs: Seq<Package>|
                bytes@ == encoded_bytes(pkgs) && bytes@.len() > 0 ==> r is Ok && packages_view_eq(
                    r->Ok_0.0@,
                    pkgs,
                ),
    {
        if bytes.len() == 0 {
            return Err(UnpackError::Empty);
        }
        let data = match inflate_bytes(bytes) {
            Ok(d) => d,
            Err(e) => {
                return Err(UnpackError::DecompressError(e));
            },
        };
        let rows = match decode_rows(data.as_slice()) {
            Ok(v) => v,
            Err(e) => {
                return Err(UnpackError::DecodeError(e));
            },
        };
        let mut out: Vec<Package> = Vec::new();
        let mut i: usize = 0;
        while i < rows.len()
            invariant
                i <= rows@.len(),
                out@.len() == i,
                forall|k: int|
                    0 <= k < i ==> package_row_view(#[trigger] out@[k]) == row_view(rows@[k]),
            decreases rows@.len() - i,
        {
            out.push(row_to_package(&rows[i]));
            i += 1;
        }
        proof {
            assert(packages_rows_view(out@) =~= rows_view(rows@));
            assert forall|pkgs: Seq<Package>| bytes@ == encoded_bytes(pkgs) implies packages_view_eq(
                out@,
                pkgs,
            ) by {
                assert(data@ == bincode_of(packages_rows_view(pkgs)));
                assert(rows_view(rows@) == packages_rows_view(pkgs));
                assert(rows_view(rows@).len() == rows@.len());
                assert(packages_rows_view(pkgs).len() == pkgs.len());
                assert(rows@.len() == pkgs.len());
                assert forall|k: int| 0 <= k < out@.len() implies package_view_eq(
                    #[trigger] out@[k],
                    pkgs[k],
                ) by {
                    assert(0 <= k < pkgs.len());
                    assert(rows_view(rows@)[k] == row_view(rows@[k]));
                    assert(packages_rows_view(pkgs)[k] == package_row_view(pkgs[k]));
                    assert(row_view(rows@[k]) == package_row_view(pkgs[k]));
                    assert(package_row_view(out@[k]) == row_view(rows@[k]));
                }
            }
        }
        Ok(PackageList(out))
    }
}

} // verus!
