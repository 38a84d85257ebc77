//! Byte-level text utilities: equality, lexicographic order, case-insensitive
//! substring search, and line/token splitting for tool output.
//!
//! Package names, versions and tool output are compared as their UTF-8 bytes;
//! `str::as_bytes` connects these functions to `String` values.

use vstd::prelude::*;

verus! {

/// Equality of two byte slices.
pub fn bytes_eq(a: &[u8], b: &[u8]) -> (r: bool)
    ensures
        r == (a@ == b@),
{
    if a.len() != b.len() {
        assert(a@ != b@) by {
            assert(a@.len() != b@.len());
        }
        return false;
    }
    let mut i: usize = 0;
    while i < a.len()
        invariant
            i <= a.len(),
            a@.len() == b@.len(),
            forall|k: int| 0 <= k < i ==> a@[k] == b@[k],
        decreases a.len() - i,
    {
        if a[i] != b[i] {
            return false;
        }
        i += 1;
    }
    assert(a@ =~= b@);
    true
}

/// Lexicographic order on byte sequences; a prefix sorts before its extensions.
pub open spec fn bytes_le(a: Seq<u8>, b: Seq<u8>) -> bool
    decreases a.len(),
{
    if a.len() == 0 {
        true
    } else if b.len() == 0 {
        false
    } else if a[0] != b[0] {
        a[0] < b[0]
    } else {
        bytes_le(a.drop_first(), b.drop_first())
    }
}

/// `bytes_le` is total.
pub proof fn lemma_bytes_le_total(a: Seq<u8>, b: Seq<u8>)
    ensures
        bytes_le(a, b) || bytes_le(b, a),
    decreases a.len(),
{
    if a.len() == 0 || b.len() == 0 {
    } else if a[0] != b[0] {
    } else {
        lemma_bytes_le_total(a.drop_first(), b.drop_first());
    }
}

/// `bytes_le` is transitive.
pub proof fn lemma_bytes_le_trans(a: Seq<u8>, b: Seq<u8>, c: Seq<u8>)
    requires
        bytes_le(a, b),
        bytes_le(b, c),
    ensures
        bytes_le(a, c),
    decreases a.len(),
{
    if a.len() == 0 || b.len() == 0 || c.len() == 0 {
    } else if a[0] == b[0] && b[0] == c[0] {
        lemma_bytes_le_trans(a.drop_first(), b.drop_first(), c.drop_first());
    }
}

/// `bytes_le` is antisymmetric.
pub proof fn lemma_bytes_le_antisym(a: Seq<u8>, b: Seq<u8>)
    requires
        bytes_le(a, b),
        bytes_le(b, a),
    ensures
        a == b,
    decreases a.len(),
{
    if a.len() == 0 || b.len() == 0 {
        assert(a =~= b);
    } else if a[0] == b[0] {
        lemma_bytes_le_antisym(a.drop_first(), b.drop_first());
        assert(a.drop_first().len() == b.drop_first().len());
        assert(a.len() == b.len());
        assert forall|k: int| 0 <= k < a.len() implies a[k] == b[k] by {
            if k >= 1 {
                assert(a.drop_first()[k - 1] == b.drop_first()[k - 1]);
                assert(a.drop_first()[k - 1] == a[k]);
                assert(b.drop_first()[k - 1] == b[k]);
            }
        }
        assert(a =~= b);
    }
}

/// Lexicographic comparison of two byte slices.
pub fn bytes_le_exec(a: &[u8], b: &[u8]) -> (r: bool)
    ensures
        r == bytes_le(a@, b@),
{
    let n: usize = if a.len() < b.len() {
        a.len()
    } else {
        b.len()
    };
    assert(a@.skip(0) =~= a@);
    assert(b@.skip(0) =~= b@);
    let mut i: usize = 0;
    while i < n
        invariant
            i <= n,
            n == if a@.len() < b@.len() {
                a@.len()
            } else {
                b@.len()
            },
            bytes_le(a@, b@) == bytes_le(a@.skip(i as int), b@.skip(i as int)),
        decreases n - i,
    {
        if a[i] != b[i] {
            assert(a@.skip(i as int)[0] == a@[i as int]);
            assert(b@.skip(i as int)[0] == b@[i as int]);
            return a[i] < b[i];
        }
        assert(a@.skip(i as int).drop_first() =~= a@.skip(i + 1));
        assert(b@.skip(i as int).drop_first() =~= b@.skip(i + 1));
        i += 1;
    }
    assert(a@.len() <= b@.len() ==> a@.skip(i as int).len() == 0);
    assert(a@.len() > b@.len() ==> b@.skip(i as int).len() == 0 && a@.skip(i as int).len() > 0);
    a.len() <= b.len()
}

/// ASCII lowercase of one byte.
pub open spec fn lower_byte(b: u8) -> u8 {
    if 65 <= b && b <= 90 {
        (b + 32) as u8
    } else {
        b
    }
}

/// ASCII lowercase of a byte sequence.
pub open spec fn lower_bytes(s: Seq<u8>) -> Seq<u8> {
    s.map_values(|b: u8| lower_byte(b))
}

/// ASCII lowercase of one byte.
pub fn lower_u8(b: u8) -> (r: u8)
    ensures
        r == lower_byte(b),
{
    if 65 <= b && b <= 90 {
        b + 32
    } else {
        b
    }
}

/// `needle` occurs in `hay` starting at position `i`.
pub open spec fn match_at(hay: Seq<u8>, needle: Seq<u8>, i: int) -> bool {
    &&& 0 <= i
    &&& i + needle.len() <= hay.len()
    &&& hay.subrange(i, i + needle.len()) == needle
}

/// `needle` occurs somewhere in `hay`.
pub open spec fn contains_bytes(hay: Seq<u8>, needle: Seq<u8>) -> bool {
    exists|i: int| match_at(hay, needle, i)
}

/// Case-insensitive (ASCII) comparison of `needle` against `hay` at offset `i`.
fn ci_match_at(hay: &[u8], needle: &[u8], i: usize) -> (r: bool)
    requires
        i + needle@.len() <= hay@.len(),
    ensures
        r == match_at(lower_bytes(hay@), lower_bytes(needle@), i as int),
{
    let hl = hay.len();
    let nl = needle.len();
    let mut j: usize = 0;
    while j < nl
        invariant
            i + nl <= hl,
            hl == hay@.len(),
            nl == needle@.len(),
            j <= nl,
            forall|k: int| 0 <= k < j ==> lower_byte(hay@[i + k]) == lower_byte(needle@[k]),
        decreases nl - j,
    {
        if lower_u8(hay[i + j]) != lower_u8(needle[j]) {
            assert(!match_at(lower_bytes(hay@), lower_bytes(needle@), i as int)) by {
                let s = lower_bytes(hay@).subrange(i as int, i + needle@.len());
                assert(s[j as int] == lower_byte(hay@[i + j]));
                assert(lower_bytes(needle@)[j as int] == lower_byte(needle@[j as int]));
            }
            return false;
        }
        assert(lower_byte(hay@[i + j]) == lower_byte(needle@[j as int]));
        j += 1;
    }
    assert(match_at(lower_bytes(hay@), lower_bytes(needle@), i as int)) by {
        assert(lower_bytes(hay@).subrange(i as int, i + needle@.len()) =~= lower_bytes(needle@));
    }
    true
}

/// Case-insensitive (ASCII) substring search.
pub fn contains_ci(hay: &[u8], needle: &[u8]) -> (r: bool)
    ensures
        r == contains_bytes(lower_bytes(hay@), lower_bytes(needle@)),
{
    let hl = hay.len();
    let nl = needle.len();
    if nl > hl {
        assert(forall|i: int| !match_at(lower_bytes(hay@), lower_bytes(needle@), i));
        return false;
    }
    if nl == 0 {
        assert(match_at(lower_bytes(hay@), lower_bytes(needle@), 0)) by {
            assert(lower_bytes(hay@).subrange(0, 0) =~= lower_bytes(needle@));
        }
        return true;
    }
    let mut i: usize = 0;
    while i <= hl - nl
        invariant
            1 <= nl <= hl,
            hl == hay@.len(),
            nl == needle@.len(),
            i <= hl - nl + 1,
            forall|k: int| 0 <= k < i ==> !match_at(lower_bytes(hay@), lower_bytes(needle@), k),
        decreases hl + 1 - nl - i,
    {
        if ci_match_at(hay, needle, i) {
            return true;
        }
        i += 1;
    }
    assert(forall|k: int| !match_at(lower_bytes(hay@), lower_bytes(needle@), k));
    false
}

/// Index of the first occurrence of `d` in `s`, or `-1`.
pub open spec fn find_byte(s: Seq<u8>, d: u8) -> int
    decreases s.len(),
{
    if s.len() == 0 {
        -1
    } else if s[0] == d {
        0
    } else {
        let r = find_byte(s.drop_first(), d);
        if r < 0 {
            -1
        } else {
            1 + r
        }
    }
}

/// `find_byte` yields `-1` or a position of `d` within bounds.
pub proof fn lemma_find_byte(s: Seq<u8>, d: u8)
    ensures
        find_byte(s, d) == -1 ==> forall|k: int| 0 <= k < s.len() ==> s[k] != d,
        find_byte(s, d) != -1 ==> 0 <= find_byte(s, d) < s.len() && s[find_byte(s, d)] == d
            && forall|k: int| 0 <= k < find_byte(s, d) ==> s[k] != d,
    decreases s.len(),
{
    if s.len() == 0 {
    } else if s[0] == d {
    } else {
        lemma_find_byte(s.drop_first(), d);
        if find_byte(s, d) == -1 {
            assert forall|k: int| 0 <= k < s.len() implies s[k] != d by {
                if k >= 1 {
                    assert(s.drop_first()[k - 1] == s[k]);
                }
            }
        } else {
            assert(s[find_byte(s, d)] == s.drop_first()[find_byte(s.drop_first(), d)]);
            assert forall|k: int| 0 <= k < find_byte(s, d) implies s[k] != d by {
                if k >= 1 {
                    assert(s.drop_first()[k - 1] == s[k]);
                }
            }
        }
    }
}

/// Where `s` splits as `a + [d] + r` with no `d` in `a`, the first `d` stands at `a.len()`.
pub proof fn lemma_find_byte_concat(a: Seq<u8>, d: u8, r: Seq<u8>)
    requires
        forall|k: int| 0 <= k < a.len() ==> a[k] != d,
    ensures
        find_byte(a + seq![d] + r, d) == a.len(),
    decreases a.len(),
{
    let s = a + seq![d] + r;
    if a.len() == 0 {
        assert(s[0] == d);
    } else {
        assert(s[0] == a[0]);
        lemma_find_byte_concat(a.drop_first(), d, r);
        assert(s.drop_first() =~= a.drop_first() + seq![d] + r);
    }
}

/// The segments of `s` between occurrences of newline (byte 10).
pub open spec fn split_lines_spec(s: Seq<u8>) -> Seq<Seq<u8>>
    decreases s.len(),
{
    let i = find_byte(s, 10);
    if 0 <= i && i < s.len() {
        seq![s.take(i)] + split_lines_spec(s.skip(i + 1))
    } else {
        seq![s]
    }
}

/// Whitespace inside a line: space, tab, carriage return.
pub open spec fn is_line_ws(b: u8) -> bool {
    b == 32 || b == 9 || b == 13
}

/// `s` without leading line whitespace.
pub open spec fn trim_front(s: Seq<u8>) -> Seq<u8>
    decreases s.len(),
{
    if s.len() > 0 && is_line_ws(s[0]) {
        trim_front(s.drop_first())
    } else {
        s
    }
}

/// `s` without trailing line whitespace.
pub open spec fn trim_back(s: Seq<u8>) -> Seq<u8>
    decreases s.len(),
{
    if s.len() > 0 && is_line_ws(s.last()) {
        trim_back(s.drop_last())
    } else {
        s
    }
}

/// `s` without leading and trailing line whitespace.
pub open spec fn trim_bytes(s: Seq<u8>) -> Seq<u8> {
    trim_back(trim_front(s))
}

/// Length of the prefix of `s` before its first whitespace byte.
pub open spec fn token_len(s: Seq<u8>) -> int
    decreases s.len(),
{
    if s.len() == 0 || is_line_ws(s[0]) {
        0
    } else {
        1 + token_len(s.drop_first())
    }
}

/// The prefix of `s` before its first whitespace byte: the line's first
/// field.
pub open spec fn first_token(s: Seq<u8>) -> Seq<u8> {
    s.take(token_len(s))
}

/// `token_len` stays within bounds.
pub proof fn lemma_token_len(s: Seq<u8>)
    ensures
        0 <= token_len(s) <= s.len(),
        forall|k: int| 0 <= k < token_len(s) ==> !is_line_ws(s[k]),
        token_len(s) < s.len() ==> is_line_ws(s[token_len(s)]),
    decreases s.len(),
{
    if s.len() == 0 || is_line_ws(s[0]) {
    } else {
        lemma_token_len(s.drop_first());
        assert forall|k: int| 0 <= k < token_len(s) implies !is_line_ws(s[k]) by {
            if k >= 1 {
                assert(s.drop_first()[k - 1] == s[k]);
            }
        }
        if token_len(s) < s.len() {
            assert(s[token_len(s)] == s.drop_first()[token_len(s.drop_first())]);
        }
    }
}

/// Split a byte slice into its lines (segments between newline bytes).
pub fn split_lines(out: &[u8]) -> (r: Vec<Vec<u8>>)
    ensures
        r.deep_view() == split_lines_spec(out@),
{
    let mut lines: Vec<Vec<u8>> = Vec::new();
    let mut cur: Vec<u8> = Vec::new();
    let mut pos: usize = 0;
    proof {
        assert(cur@ + out@.skip(0) =~= out@);
    }
    while pos < out.len()
        invariant
            pos <= out@.len(),
            forall|k: int| 0 <= k < cur@.len() ==> cur@[k] != 10,
            split_lines_spec(out@) =~= lines.deep_view() + split_lines_spec(
                cur@ + out@.skip(pos as int),
            ),
        decreases out@.len() - pos,
    {
        let b = out[pos];
        if b == 10 {
            let ghost prev_dv = lines.deep_view();
            let ghost cur_view = cur@;
            proof {
                let rest = out@.skip(pos + 1);
                assert(cur@ + out@.skip(pos as int) =~= cur@ + seq![10u8] + rest);
                lemma_find_byte_concat(cur@, 10, rest);
                assert((cur@ + seq![10u8] + rest).take(cur@.len() as int) =~= cur@);
                assert((cur@ + seq![10u8] + rest).skip(cur@.len() as int + 1) =~= rest);
            }
            lines.push(cur);
            cur = Vec::new();
            proof {
                assert(lines.deep_view() =~~= prev_dv.push(cur_view));
                assert(prev_dv.push(cur_view) =~= prev_dv + seq![cur_view]);
                assert(cur@ + out@.skip(pos + 1) =~= out@.skip(pos + 1));
            }
        } else {
            proof {
                assert(cur@.push(b) + out@.skip(pos + 1) =~= cur@ + out@.skip(pos as int));
            }
            cur.push(b);
        }
        pos += 1;
    }
    let ghost prev_dv = lines.deep_view();
    let ghost cur_view = cur@;
    proof {
        let last = cur@ + out@.skip(pos as int);
        assert(last =~= cur@);
        lemma_find_byte(cur@, 10);
        assert(split_lines_spec(last) =~= seq![cur@]);
    }
    lines.push(cur);
    proof {
        assert(lines.deep_view() =~~= prev_dv.push(cur_view));
        assert(prev_dv.push(cur_view) =~= prev_dv + seq![cur_view]);
    }
    lines
}

/// Remove leading and trailing line whitespace from a line.
pub fn trim_line(line: &Vec<u8>) -> (r: Vec<u8>)
    ensures
        r@ == trim_bytes(line@),
{
    let mut start: usize = 0;
    proof {
        assert(line@.skip(0) =~= line@);
    }
    while start < line.len() && (line[start] == 32 || line[start] == 9 || line[start] == 13)
        invariant
            start <= line@.len(),
            trim_front(line@) == trim_front(line@.skip(start as int)),
        decreases line@.len() - start,
    {
        proof {
            assert(line@.skip(start as int)[0] == line@[start as int]);
            assert(line@.skip(start as int).drop_first() =~= line@.skip(start + 1));
        }
        start += 1;
    }
    proof {
        let t = line@.skip(start as int);
        assert(start < line@.len() ==> t[0] == line@[start as int]);
        assert(trim_front(t) == t);
    }
    let mut end: usize = line.len();
    proof {
        assert(line@.skip(start as int).take(end - start) =~= line@.skip(start as int));
    }
    while end > start && (line[end - 1] == 32 || line[end - 1] == 9 || line[end - 1] == 13)
        invariant
            start <= end <= line@.len(),
            trim_front(line@) == trim_front(line@.skip(start as int)),
            trim_front(line@) == line@.skip(start as int),
            trim_back(line@.skip(start as int)) == trim_back(
                line@.skip(start as int).take(end - start),
            ),
        decreases end,
    {
        proof {
            let t = line@.skip(start as int).take(end - start);
            assert(t.last() == line@[end - 1]);
            assert(t.drop_last() =~= line@.skip(start as int).take(end - 1 - start));
        }
        end -= 1;
    }
    proof {
        let t = line@.skip(start as int).take(end - start);
        assert(end > start ==> t.last() == line@[end - 1]);
        assert(trim_back(t) == t);
    }
    let mut r: Vec<u8> = Vec::new();
    let mut i: usize = start;
    while i < end
        invariant
            start <= i <= end <= line@.len(),
            r@ =~= line@.subrange(start as int, i as int),
        decreases end - i,
    {
        r.push(line[i]);
        i += 1;
    }
    proof {
        assert(r@ =~= line@.skip(start as int).take(end - start));
    }
    r
}

/// The first fields of the nonempty trimmed lines, processed left to right,
/// each kept once.
pub open spec fn used_from_lines(lines: Seq<Seq<u8>>) -> Seq<Seq<u8>>
    decreases lines.len(),
{
    if lines.len() == 0 {
        Seq::empty()
    } else {
        let rest = used_from_lines(lines.drop_last());
        let t = trim_bytes(lines.last());
        if t.len() > 0 && !rest.contains(first_token(t)) {
            rest.push(first_token(t))
        } else {
            rest
        }
    }
}

/// The package name tokens of line-oriented tool output: the first
/// whitespace-delimited field of every nonempty trimmed line, without
/// duplicates.
pub open spec fn used_names_spec(out: Seq<u8>) -> Seq<Seq<u8>> {
    used_from_lines(split_lines_spec(out))
}

/// The first whitespace-delimited field of a line.
pub fn line_first_token(line: &Vec<u8>) -> (r: Vec<u8>)
    ensures
        r@ == first_token(line@),
{
    proof {
        lemma_token_len(line@);
    }
    let mut r: Vec<u8> = Vec::new();
    let mut i: usize = 0;
    proof {
        assert(line@.skip(0) =~= line@);
    }
    while i < line.len() && !(line[i] == 32 || line[i] == 9 || line[i] == 13)
        invariant
            i <= line@.len(),
            r@ =~= line@.take(i as int),
            token_len(line@) == i + token_len(line@.skip(i as int)),
            forall|k: int| 0 <= k < i ==> !is_line_ws(line@[k]),
        decreases line@.len() - i,
    {
        proof {
            assert(line@.skip(i as int)[0] == line@[i as int]);
            assert(line@.skip(i as int).drop_first() =~= line@.skip(i + 1));
        }
        r.push(line[i]);
        i += 1;
    }
    proof {
        let t = line@.skip(i as int);
        assert(i < line@.len() ==> t[0] == line@[i as int]);
        assert(token_len(t) == 0);
        assert(r@ =~= line@.take(token_len(line@)));
    }
    r
}

} // verus!
