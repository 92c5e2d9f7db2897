//! Lookup of a named parameter in a URL query string (`a=1&b=2`).
use vstd::prelude::*;
use vstd::string::StringSliceAdditionalSpecFns;
use vstd::utf8::*;

verus! {

broadcast use vstd::string::group_string_axioms;

/// The byte that separates the parts of a query.
pub open spec fn is_separator(b: u8) -> bool {
    b == 0x26u8
}

/// The part of `q` that starts at `start` and ends (exclusive) at `end` reads
/// `name`, then `=`.
pub open spec fn part_names(q: Seq<u8>, name: Seq<u8>, start: int, end: int) -> bool {
    &&& 0 <= start
    &&& end <= q.len()
    &&& end - start >= name.len() + 1
    &&& q.subrange(start, start + name.len()) == name
    &&& q[start + name.len()] == 0x3du8
}

/// Walks `q` from `i`, inside the part that began at `start`, and yields the
/// bounds of the value of the first part that names `name`.
pub open spec fn scan_parts(q: Seq<u8>, name: Seq<u8>, start: int, i: int) -> Option<(int, int)>
    decreases q.len() - i,
{
    if i >= q.len() {
        if part_names(q, name, start, q.len() as int) {
            Some((start + name.len() + 1, q.len() as int))
        } else {
            None
        }
    } else if is_separator(q[i]) {
        if part_names(q, name, start, i) {
            Some((start + name.len() + 1, i))
        } else {
            scan_parts(q, name, i + 1, i + 1)
        }
    } else {
        scan_parts(q, name, start, i + 1)
    }
}

/// The bytes of the value given to `name` in the query `q`: what follows
/// `name=` in the first `&`-separated part that begins so.
pub open spec fn param_value(q: Seq<u8>, name: Seq<u8>) -> Option<Seq<u8>> {
    match scan_parts(q, name, 0, 0) {
        Some((a, b)) => Some(q.subrange(a, b)),
        None => None,
    }
}

proof fn lemma_scan_bounds(q: Seq<u8>, name: Seq<u8>, start: int, i: int)
    requires
        0 <= start <= i <= q.len(),
        forall|k: int| start <= k < i ==> !is_separator(#[trigger] q[k]),
    ensures
        scan_parts(q, name, start, i) matches Some((a, b)) ==> {
            &&& 0 < a <= b <= q.len()
            &&& b == q.len() || is_separator(q[b])
            &&& q[a - 1] == 0x3du8
            &&& forall|k: int| a <= k < b ==> !is_separator(#[trigger] q[k])
        },
    decreases q.len() - i,
{
    if i < q.len() {
        if is_separator(q[i]) {
            if !part_names(q, name, start, i) {
                lemma_scan_bounds(q, name, i + 1, i + 1);
            }
        } else {
            lemma_scan_bounds(q, name, start, i + 1);
        }
    }
}

/// In valid UTF-8, the byte after an ASCII character starts a character.
proof fn lemma_boundary_after_ascii(b: Seq<u8>, j: int)
    requires
        valid_utf8(b),
        0 <= j < b.len(),
        is_char_boundary(b, j),
        b[j] <= 0x7f,
    ensures
        is_char_boundary(b, j + 1),
    decreases b.len(),
{
    reveal_with_fuel(is_char_boundary, 2);
    if j > 0 {
        let l = length_of_first_scalar(b);
        let t = pop_first_scalar(b);
        assert(1 <= l <= b.len());
        assert(t[j - l] == b[j]);
        lemma_boundary_after_ascii(t, j - l);
    }
}

fn part_names_exec(q: &[u8], name: &[u8], start: usize, end: usize) -> (r: bool)
    requires
        start <= end <= q@.len(),
    ensures
        r == part_names(q@, name@, start as int, end as int),
{
    if end - start <= name.len() {
        return false;
    }
    let mut k: usize = 0;
    while k < name.len()
        invariant
            end - start >= name@.len() + 1,
            end <= q@.len(),
            0 <= k <= name@.len(),
            forall|m: int| 0 <= m < k ==> q@[start + m] == name@[m],
        decreases name@.len() - k,
    {
        if q[start + k] != name[k] {
            assert(q@.subrange(start as int, start + name@.len())[k as int] != name@[k as int]);
            return false;
        }
        k = k + 1;
    }
    assert(q@.subrange(start as int, start + name@.len()) =~= name@);
    q[start + name.len()] == 0x3du8
}

/// The value of the parameter `name` in the query string `query`: the rest of
/// the first `&`-separated part that begins with `name=`.
pub fn get_param<'a>(query: &'a str, name: &str) -> (r: Option<&'a str>)
    ensures
        match r {
            Some(v) => param_value(query.spec_bytes(), name.spec_bytes()) == Some(v.spec_bytes()),
            None => param_value(query.spec_bytes(), name.spec_bytes()) is None,
        },
{
    let q = query.as_bytes();
    let n = name.as_bytes();
    let ghost qs = q@;
    let mut start: usize = 0;
    let mut i: usize = 0;
    let mut found: Option<(usize, usize)> = None;
    while i < q.len() && found.is_none()
        invariant
            qs == q@,
            0 <= start <= i <= q@.len(),
            found matches None ==> scan_parts(qs, n@, 0, 0) == scan_parts(qs, n@, start as int, i as int),
            found matches Some((a, b)) ==> scan_parts(qs, n@, 0, 0) == Some((a as int, b as int)),
        decreases q@.len() - i,
    {
        if q[i] == 0x26u8 {
            if part_names_exec(q, n, start, i) {
                found = Some((start + n.len() + 1, i));
            } else {
                start = i + 1;
            }
        }
        i = i + 1;
    }
    if found.is_none() {
        if part_names_exec(q, n, start, q.len()) {
            found = Some((start + n.len() + 1, q.len()));
        }
    }
    match found {
        None => None,
        Some((a, b)) => {
            proof {
                lemma_scan_bounds(qs, n@, 0, 0);
                encode_utf8_valid_utf8(query@);
                is_char_boundary_start_end_of_seq(qs);
                is_char_boundary_iff_is_leading_byte(qs, a - 1);
                lemma_boundary_after_ascii(qs, a - 1);
                valid_utf8_split(qs, a as int);
                let rs = qs.subrange(a as int, qs.len() as int);
                is_char_boundary_start_end_of_seq(rs);
                if b < qs.len() {
                    assert(rs[b - a] == qs[b as int]);
                    is_char_boundary_iff_is_leading_byte(rs, b - a);
                }
            }
            let (_, rest) = query.split_at(a);
            let (v, _) = rest.split_at(b - a);
            Some(v)
        },
    }
}

} // verus!
