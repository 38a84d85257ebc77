//! Resolve the set of third-party packages compiled into a build and attach
//! each package's license text, so the result can be embedded into a program.
//!
//! The crate models the build-time pipeline: metadata from the package manager
//! is decoded into typed records, the dependency graph is walked along normal
//! (production) edges, the result is reconciled against an independently
//! obtained list of compiled packages, license texts are filled in from a
//! persisted cache or from the local source registry, and the final list is
//! pinned (root package first) and sorted. The list can be serialized and
//! compressed into a byte artifact, and decoded back.

use vstd::prelude::*;

pub mod aggregate;
pub mod cache;
pub mod codec;
pub mod config;
pub mod error;
pub mod fetch;
pub mod directive;
pub mod graph;
pub mod json;
pub mod metadata;
pub mod reconcile;
pub mod text;

verus! {

use vstd::string::StringExecFns;

/// Joined identity key of a package: `"{name}-{version}"`.
pub open spec fn name_version_spec(name: Seq<char>, version: Seq<char>) -> Seq<char> {
    name + seq!['-'] + version
}

/// Information regarding one resolved package: identity, descriptive
/// metadata, and (once populated) its license text.
pub struct Package {
    pub name: String,
    pub version: String,
    pub authors: Vec<String>,
    pub description: Option<String>,
    pub homepage: Option<String>,
    pub repository: Option<String>,
    pub license_identifier: Option<String>,
    pub license_text: Option<String>,
    pub restored_from_cache: bool,
    pub is_root_pkg: bool,
    pub name_version: String,
}

impl Package {
    /// The `name_version` field is the canonical join of `name` and `version`.
    pub open spec fn wf(self) -> bool {
        self.name_version@ == name_version_spec(self.name@, self.version@)
    }

    /// Construct a package whose `name_version` is derived from its name and
    /// version; the cache and root flags start out cleared.
    pub fn new(
        name: String,
        version: String,
        authors: Vec<String>,
        description: Option<String>,
        homepage: Option<String>,
        repository: Option<String>,
        license_identifier: Option<String>,
        license_text: Option<String>,
    ) -> (r: Package)
        ensures
            r.name == name,
            r.version == version,
            r.authors == authors,
            r.description == description,
            r.homepage == homepage,
            r.repository == repository,
            r.license_identifier == license_identifier,
            r.license_text == license_text,
            !r.restored_from_cache,
            !r.is_root_pkg,
            r.wf(),
    {
        let name_version = name.clone().concat("-").concat(version.as_str());
        proof {
            reveal_strlit("-");
            assert(name_version@ =~= name_version_spec(name@, version@));
        }
        Package {
            name,
            version,
            authors,
            description,
            homepage,
            repository,
            license_identifier,
            license_text,
            restored_from_cache: false,
            is_root_pkg: false,
            name_version,
        }
    }
}

/// `n` copies of the character `c`.
pub open spec fn repeat_char(c: char, n: nat) -> Seq<char>
    decreases n,
{
    if n == 0 {
        Seq::empty()
    } else {
        repeat_char(c, (n - 1) as nat).push(c)
    }
}

/// The report lines of the authors after the first, each indented under the
/// authors heading.
pub open spec fn authors_rest_spec(authors: Seq<String>) -> Seq<char>
    decreases authors.len(),
{
    if authors.len() == 0 {
        Seq::empty()
    } else {
        authors_rest_spec(authors.drop_last()) + "             - "@ + authors.last()@ + "\n"@
    }
}

/// The identity line of the report.
pub open spec fn fmt_head_spec(p: Package) -> Seq<char> {
    "Package:     "@ + p.name@ + " "@ + p.version@ + "\n"@
}

/// One labelled report line for an optional field; absent fields print
/// nothing.
pub open spec fn opt_line_spec(label: Seq<char>, v: Option<String>) -> Seq<char> {
    match v {
        Some(x) => label + x@ + "\n"@,
        None => Seq::empty(),
    }
}

/// The authors section of the report: the first author on the heading line,
/// each further author indented under it.
pub open spec fn fmt_authors_spec(authors: Seq<String>) -> Seq<char> {
    if authors.len() > 0 {
        "Authors:     - "@ + authors[0]@ + "\n"@ + authors_rest_spec(authors.drop_first())
    } else {
        Seq::empty()
    }
}

/// The license text section of the report: the text under a light separator.
pub open spec fn fmt_text_spec(t: Option<String>) -> Seq<char> {
    match t {
        Some(x) => "\n"@ + repeat_char('-', 80) + "\n"@ + x@ + "\n"@,
        None => Seq::empty(),
    }
}

/// The human-readable report of one package: its identity line, the
/// descriptive fields that are present, and the license text under a light
/// separator, closed by a heavy separator line.
pub open spec fn fmt_package_spec(p: Package) -> Seq<char> {
    fmt_head_spec(p) + opt_line_spec("Description: "@, p.description) + fmt_authors_spec(
        p.authors@,
    ) + opt_line_spec("Homepage:    "@, p.homepage) + opt_line_spec("Repository:  "@, p.repository)
        + opt_line_spec("SPDX Ident:  "@, p.license_identifier) + fmt_text_spec(p.license_text)
        + "\n"@ + repeat_char('=', 80) + "\n\n"@
}

/// Render one labelled report line for an optional field.
fn opt_line(label: &str, v: &Option<String>) -> (r: String)
    ensures
        r@ == opt_line_spec(label@, *v),
{
    match v {
        Some(x) => {
            let mut s = String::from_str(label);
            s.append(x.as_str());
            s.append("\n");
            s
        },
        None => {
            let s = String::new();
            proof {
                assert(s@ =~= opt_line_spec(label@, *v));
            }
            s
        },
    }
}

/// Render the authors section of the report.
fn fmt_authors(authors: &Vec<String>) -> (r: String)
    ensures
        r@ == fmt_authors_spec(authors@),
{
    if authors.len() == 0 {
        let s = String::new();
        proof {
            assert(s@ =~= fmt_authors_spec(authors@));
        }
        return s;
    }
    let mut s = String::from_str("Authors:     - ");
    s.append(authors[0].as_str());
    s.append("\n");
    let ghost rest = authors@.drop_first();
    let mut i: usize = 1;
    proof {
        assert(rest.take(0) =~= Seq::<String>::empty());
        assert(s@ =~= "Authors:     - "@ + authors@[0]@ + "\n"@ + authors_rest_spec(
            rest.take(0),
        ));
    }
    while i < authors.len()
        invariant
            1 <= i <= authors@.len(),
            rest == authors@.drop_first(),
            s@ == "Authors:     - "@ + authors@[0]@ + "\n"@ + authors_rest_spec(
                rest.take(i - 1),
            ),
        decreases authors@.len() - i,
    {
        s.append("             - ");
        s.append(authors[i].as_str());
        s.append("\n");
        proof {
            assert(rest.take(i as int).drop_last() =~= rest.take(i - 1));
            assert(rest.take(i as int).last() == authors@[i as int]);
            assert(s@ =~= "Authors:     - "@ + authors@[0]@ + "\n"@ + authors_rest_spec(
                rest.take(i as int),
            ));
        }
        i += 1;
    }
    proof {
        assert(rest.take(rest.len() as int) =~= rest);
    }
    s
}

/// Render the license text section of the report.
fn fmt_text(t: &Option<String>) -> (r: String)
    ensures
        r@ == fmt_text_spec(*t),
{
    match t {
        Some(x) => {
            let mut s = String::from_str("\n");
            proof {
                reveal_strlit("-");
            }
            let light = repeat_str("-", 80);
            s.append(light.as_str());
            s.append("\n");
            s.append(x.as_str());
            s.append("\n");
            s
        },
        None => {
            let s = String::new();
            proof {
                assert(s@ =~= fmt_text_spec(*t));
            }
            s
        },
    }
}

/// A line of `n` copies of the one character of `c`.
fn repeat_str(c: &str, n: usize) -> (r: String)
    requires
        c@.len() == 1,
    ensures
        r@ == repeat_char(c@[0], n as nat),
{
    let mut s = String::new();
    let mut i: usize = 0;
    while i < n
        invariant
            c@.len() == 1,
            i <= n,
            s@ == repeat_char(c@[0], i as nat),
        decreases n - i,
    {
        s.append(c);
        proof {
            assert(s@ =~= repeat_char(c@[0], (i + 1) as nat));
        }
        i += 1;
    }
    s
}

impl Package {
    /// Render this package's report: identity, present descriptive fields,
    /// and the license text under a light separator, closed by a heavy
    /// separator line.
    pub fn fmt_package(&self) -> (r: String)
        ensures
            r@ == fmt_package_spec(*self),
    {
        let mut s = String::from_str("Package:     ");
        s.append(self.name.as_str());
        s.append(" ");
        s.append(self.version.as_str());
        s.append("\n");
        proof {
            assert(s@ =~= fmt_head_spec(*self));
        }
        let desc = opt_line("Description: ", &self.description);
        s.append(desc.as_str());
        let authors = fmt_authors(&self.authors);
        s.append(authors.as_str());
        let home = opt_line("Homepage:    ", &self.homepage);
        s.append(home.as_str());
        let repo = opt_line("Repository:  ", &self.repository);
        s.append(repo.as_str());
        let spdx = opt_line("SPDX Ident:  ", &self.license_identifier);
        s.append(spdx.as_str());
        let text = fmt_text(&self.license_text);
        s.append(text.as_str());
        s.append("\n");
        proof {
            reveal_strlit("=");
        }
        let heavy = repeat_str("=", 80);
        s.append(heavy.as_str());
        s.append("\n\n");
        proof {
            assert(s@ =~= fmt_package_spec(*self));
        }
        s
    }
}

/// The reports of all packages, in order.
pub open spec fn fmt_packages_spec(pkgs: Seq<Package>) -> Seq<char>
    decreases pkgs.len(),
{
    if pkgs.len() == 0 {
        Seq::empty()
    } else {
        fmt_packages_spec(pkgs.drop_last()) + fmt_package_spec(pkgs.last())
    }
}

/// The human-readable report of a whole package list: a heavy separator
/// line, then every package's report in order.
pub open spec fn fmt_package_list_spec(pkgs: Seq<Package>) -> Seq<char> {
    repeat_char('=', 80) + "\n\n"@ + fmt_packages_spec(pkgs)
}

impl PackageList {
    /// Render the report of every package in this list, under one heavy
    /// separator line.
    pub fn fmt_package_list(&self) -> (r: String)
        ensures
            r@ == fmt_package_list_spec(self.0@),
    {
        proof {
            reveal_strlit("=");
        }
        let mut s = repeat_str("=", 80);
        s.append("\n\n");
        let mut i: usize = 0;
        proof {
            assert(self.0@.take(0) =~= Seq::<Package>::empty());
            assert(s@ =~= repeat_char('=', 80) + "\n\n"@ + fmt_packages_spec(self.0@.take(0)));
        }
        while i < self.0.len()
            invariant
                i <= self.0@.len(),
                s@ == repeat_char('=', 80) + "\n\n"@ + fmt_packages_spec(self.0@.take(i as int)),
            decreases self.0@.len() - i,
        {
            let part = self.0[i].fmt_package();
            s.append(part.as_str());
            proof {
                assert(self.0@.take(i + 1).drop_last() =~= self.0@.take(i as int));
                assert(self.0@.take(i + 1).last() == self.0@[i as int]);
            }
            i += 1;
        }
        proof {
            assert(self.0@.take(self.0@.len() as int) =~= self.0@);
        }
        s
    }
}

/// The UTF-8 bytes of a string's contents.
pub open spec fn string_utf8(s: String) -> Seq<u8> {
    vstd::utf8::encode_utf8(s@)
}

/// `p` carries the same contents as `q` in every field but `license_text`.
pub open spec fn package_same_except_license(p: Package, q: Package) -> bool {
    &&& p.name == q.name
    &&& p.version == q.version
    &&& p.authors@ == q.authors@
    &&& p.description == q.description
    &&& p.homepage == q.homepage
    &&& p.repository == q.repository
    &&& p.license_identifier == q.license_identifier
    &&& p.restored_from_cache == q.restored_from_cache
    &&& p.is_root_pkg == q.is_root_pkg
    &&& p.name_version == q.name_version
}

/// `p` carries the same contents as `q` in every field but `license_text`
/// and `restored_from_cache`.
pub open spec fn package_same_except_cache(p: Package, q: Package) -> bool {
    &&& p.name == q.name
    &&& p.version == q.version
    &&& p.authors@ == q.authors@
    &&& p.description == q.description
    &&& p.homepage == q.homepage
    &&& p.repository == q.repository
    &&& p.license_identifier == q.license_identifier
    &&& p.is_root_pkg == q.is_root_pkg
    &&& p.name_version == q.name_version
}

/// `p` carries the same contents as `q` in every field.
pub open spec fn package_copies(p: Package, q: Package) -> bool {
    &&& p.name == q.name
    &&& p.version == q.version
    &&& p.authors@ == q.authors@
    &&& p.description == q.description
    &&& p.homepage == q.homepage
    &&& p.repository == q.repository
    &&& p.license_identifier == q.license_identifier
    &&& p.license_text == q.license_text
    &&& p.restored_from_cache == q.restored_from_cache
    &&& p.is_root_pkg == q.is_root_pkg
    &&& p.name_version == q.name_version
}

impl Clone for Package {
    /// A copy that carries the same contents in every field.
    fn clone(&self) -> (r: Self)
        ensures
            package_copies(r, *self),
    {
        Package {
            name: self.name.clone(),
            version: self.version.clone(),
            authors: clone_string_vec(&self.authors),
            description: clone_opt_string(&self.description),
            homepage: clone_opt_string(&self.homepage),
            repository: clone_opt_string(&self.repository),
            license_identifier: clone_opt_string(&self.license_identifier),
            license_text: clone_opt_string(&self.license_text),
            restored_from_cache: self.restored_from_cache,
            is_root_pkg: self.is_root_pkg,
            name_version: self.name_version.clone(),
        }
    }
}

/// Holds the resolved packages of one build: the root package first, the
/// rest sorted by name and version.
pub struct PackageList(pub Vec<Package>);

impl From<Vec<Package>> for PackageList {
    fn from(value: Vec<Package>) -> (r: Self)
        ensures
            r.0 == value,
    {
        PackageList(value)
    }
}

impl vstd::std_specs::convert::FromSpecImpl<Vec<Package>> for PackageList {
    open spec fn obeys_from_spec() -> bool {
        true
    }

    open spec fn from_spec(value: Vec<Package>) -> Self {
        PackageList(value)
    }
}

impl Default for PackageList {
    /// An empty list.
    fn default() -> (r: Self)
        ensures
            r.0@.len() == 0,
    {
        PackageList(Vec::new())
    }
}

/// Copy an optional string.
pub fn clone_opt_string(o: &Option<String>) -> (r: Option<String>)
    ensures
        r == *o,
{
    match o {
        Some(s) => Some(s.clone()),
        None => None,
    }
}

/// Copy a list of strings.
pub fn clone_string_vec(v: &Vec<String>) -> (r: Vec<String>)
    ensures
        r@ == v@,
{
    let mut out: Vec<String> = Vec::new();
    let mut i: usize = 0;
    while i < v.len()
        invariant
            i <= v@.len(),
            out@.len() == i,
            forall|k: int| 0 <= k < i ==> out@[k] == v@[k],
        decreases v@.len() - i,
    {
        out.push(v[i].clone());
        i += 1;
    }
    proof {
        assert(out@ =~= v@);
    }
    out
}

/// Every element of a filtered sequence stands somewhere in the original.
pub proof fn lemma_filter_elem_index<A>(s: Seq<A>, pred: spec_fn(A) -> bool, i: int)
    requires
        0 <= i < s.filter(pred).len(),
    ensures
        exists|p: int| 0 <= p < s.len() && s[p] == s.filter(pred)[i],
    decreases s.len(),
{
    reveal(Seq::filter);
    if s.len() > 0 {
        let d = s.drop_last();
        if pred(s.last()) && i == s.filter(pred).len() - 1 {
            assert(s.filter(pred)[i] == s.last());
            assert(s[s.len() - 1] == s.filter(pred)[i]);
        } else {
            assert(s.filter(pred)[i] == d.filter(pred)[i]);
            lemma_filter_elem_index(d, pred, i);
            let p = choose|p: int| 0 <= p < d.len() && d[p] == d.filter(pred)[i];
            assert(s[p] == s.filter(pred)[i]);
        }
    }
}

/// A pairwise property of a sequence's elements, taken in order, survives
/// filtering.
pub proof fn lemma_filter_pairwise<A>(s: Seq<A>, pred: spec_fn(A) -> bool, q: spec_fn(A, A) -> bool)
    requires
        forall|i: int, j: int| 0 <= i < j < s.len() ==> q(s[i], s[j]),
    ensures
        forall|i: int, j: int|
            0 <= i < j < s.filter(pred).len() ==> q(s.filter(pred)[i], s.filter(pred)[j]),
    decreases s.len(),
{
    reveal(Seq::filter);
    if s.len() > 0 {
        let d = s.drop_last();
        assert forall|i: int, j: int| 0 <= i < j < d.len() implies q(d[i], d[j]) by {
            assert(d[i] == s[i] && d[j] == s[j]);
        }
        lemma_filter_pairwise(d, pred, q);
        let f = s.filter(pred);
        let fd = d.filter(pred);
        assert forall|i: int, j: int| 0 <= i < j < f.len() implies q(f[i], f[j]) by {
            if pred(s.last()) && j == f.len() - 1 {
                assert(f[j] == s.last());
                assert(f[i] == fd[i]);
                lemma_filter_elem_index(d, pred, i);
                let p = choose|p: int| 0 <= p < d.len() && d[p] == fd[i];
                assert(d[p] == s[p]);
                assert(q(s[p], s[s.len() - 1]));
            } else {
                assert(f[i] == fd[i] && f[j] == fd[j]);
            }
        }
    }
}

/// Two equally long sequences whose elements correspond pairwise, filtered
/// by predicates that agree on corresponding elements, yield filtered
/// sequences that correspond pairwise.
pub proof fn lemma_filter_corresponding<A>(
    s1: Seq<A>,
    s2: Seq<A>,
    p1: spec_fn(A) -> bool,
    p2: spec_fn(A) -> bool,
    rel: spec_fn(A, A) -> bool,
)
    requires
        s1.len() == s2.len(),
        forall|i: int| 0 <= i < s1.len() ==> #[trigger] rel(s1[i], s2[i]),
        forall|i: int| 0 <= i < s1.len() ==> p1(s1[i]) == p2(#[trigger] s2[i]),
    ensures
        s1.filter(p1).len() == s2.filter(p2).len(),
        forall|k: int|
            0 <= k < s1.filter(p1).len() ==> #[trigger] rel(s1.filter(p1)[k], s2.filter(p2)[k]),
    decreases s1.len(),
{
    reveal(Seq::filter);
    if s1.len() > 0 {
        let d1 = s1.drop_last();
        let d2 = s2.drop_last();
        assert forall|i: int| 0 <= i < d1.len() implies #[trigger] rel(d1[i], d2[i]) by {
            assert(d1[i] == s1[i] && d2[i] == s2[i]);
            assert(rel(s1[i], s2[i]));
        }
        assert forall|i: int| 0 <= i < d1.len() implies p1(d1[i]) == p2(#[trigger] d2[i]) by {
            assert(d1[i] == s1[i] && d2[i] == s2[i]);
            assert(p1(s1[i]) == p2(s2[i]));
        }
        lemma_filter_corresponding(d1, d2, p1, p2, rel);
        assert(rel(s1.last(), s2.last()));
        assert(p1(s1.last()) == p2(s2.last()));
        if p1(s1.last()) {
            assert(s1.filter(p1) == d1.filter(p1).push(s1.last()));
            assert(s2.filter(p2) == d2.filter(p2).push(s2.last()));
        } else {
            assert(s1.filter(p1) == d1.filter(p1));
            assert(s2.filter(p2) == d2.filter(p2));
        }
    }
}

/// Filtering one more element appends it exactly when the predicate holds.
pub proof fn lemma_filter_take_step<A>(s: Seq<A>, pred: spec_fn(A) -> bool, i: int)
    requires
        0 <= i < s.len(),
    ensures
        s.take(i + 1).filter(pred) == if pred(s[i]) {
            s.take(i).filter(pred).push(s[i])
        } else {
            s.take(i).filter(pred)
        },
{
    reveal(Seq::filter);
    assert(s.take(i + 1).drop_last() =~= s.take(i));
    assert(s.take(i + 1).last() == s[i]);
}

} // verus!
