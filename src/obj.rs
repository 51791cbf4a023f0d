//! The OBJ mesh and MTL material formats: reading each command, face corners
//! and their indices, validating and completing faces, and sharing corners as
//! vertices. Numbers are read by a caller-supplied parser, so their type is
//! left open.

use vstd::hash_map::HashMapWithView;
use vstd::prelude::*;
use vstd::string::*;

use crate::parse::{
    may_reject, parse1, parse1_only, parse1_opt, parseN_only, parse_texture_path, parsed_run, texture_path, word_is,
    ParseState, Tokens,
};
use crate::paths::{lemma_pieces_nonempty, pieces, split_pieces, views};
use crate::result::GameResult;
use crate::text::{decimal, decimal_string};

verus! {

/// One corner of a face as written: a vertex index, with optional uv and
/// normal indices, all counted from 0.
#[derive(Clone, Copy, Debug, PartialEq, Eq, Structural)]
pub struct PreIndexInfo {
    pub vert: u32,
    pub uv: Option<u32>,
    pub norm: Option<u32>,
}

impl PreIndexInfo {
    /// A corner with the given indices.
    pub fn new(vert: u32, uv: Option<u32>, norm: Option<u32>) -> (r: PreIndexInfo)
        ensures
            r == (PreIndexInfo { vert, uv, norm }),
    {
        PreIndexInfo { vert, uv, norm }
    }
}

/// One corner of a complete face: vertex, uv and normal indices.
#[derive(Clone, Copy, Debug, PartialEq, Eq, Structural)]
pub struct IndexInfo {
    pub vert: u32,
    pub uv: u32,
    pub norm: u32,
}

impl IndexInfo {
    /// A corner with the given indices.
    pub fn new(vert: u32, uv: u32, norm: u32) -> (r: IndexInfo)
        ensures
            r == (IndexInfo { vert, uv, norm }),
    {
        IndexInfo { vert, uv, norm }
    }
}

/// An ASCII decimal digit.
pub open spec fn is_digit(c: char) -> bool {
    '0' <= c && c <= '9'
}

/// The value of a run of decimal digits.
pub open spec fn digits_value(s: Seq<char>) -> nat
    decreases s.len(),
{
    if s.len() == 0 {
        0
    } else {
        digits_value(s.drop_last()) * 10 + ((s.last() as u32) - ('0' as u32)) as nat
    }
}

/// One or more decimal digits.
pub open spec fn all_digits(s: Seq<char>) -> bool {
    s.len() > 0 && forall|i: int| 0 <= i < s.len() ==> is_digit(#[trigger] s[i])
}

/// The integer written as an optional sign and one or more decimal digits.
pub open spec fn signed_value(s: Seq<char>) -> Option<int> {
    if s.len() > 0 && s[0] == '-' {
        if all_digits(s.skip(1)) {
            Some(-digits_value(s.skip(1)))
        } else {
            None
        }
    } else if s.len() > 0 && s[0] == '+' {
        if all_digits(s.skip(1)) {
            Some(digits_value(s.skip(1)) as int)
        } else {
            None
        }
    } else if all_digits(s) {
        Some(digits_value(s) as int)
    } else {
        None
    }
}

/// The 0-based position named by an index of a face: `i > 0` counts from 1,
/// `i < 0` counts back from the end of the `len` items read so far; 0 names
/// nothing. The position must fit in a `u32`.
pub open spec fn resolve_index(i: int, len: int) -> Option<u32> {
    let p = if i > 0 {
        i - 1
    } else if i < 0 {
        len + i
    } else {
        -1
    };
    if 0 <= p <= u32::MAX {
        Some(p as u32)
    } else {
        None
    }
}

/// The position named by index text `s`.
pub open spec fn index_of(s: Seq<char>, len: int) -> Option<u32> {
    match signed_value(s) {
        Some(i) => resolve_index(i, len),
        None => None,
    }
}

/// An optional index: empty text names none.
pub open spec fn opt_index_of(s: Seq<char>, len: int) -> Option<Option<u32>> {
    if s.len() == 0 {
        Some(None)
    } else {
        match index_of(s, len) {
            Some(i) => Some(Some(i)),
            None => None,
        }
    }
}

/// The corner written as `v`, `v/t`, `v/t/n` or `v//n`, against the numbers
/// of vertices, uvs and normals read so far.
pub open spec fn corner_of(s: Seq<char>, nv: int, nt: int, nn: int) -> Option<PreIndexInfo> {
    let ps = pieces(s);
    if ps.len() > 3 {
        None
    } else {
        let uv = if ps.len() >= 2 { opt_index_of(ps[1], nt) } else { Some(None) };
        let norm = if ps.len() >= 3 { opt_index_of(ps[2], nn) } else { Some(None) };
        match (index_of(ps[0], nv), uv, norm) {
            (Some(v), Some(t), Some(n)) => Some(PreIndexInfo { vert: v, uv: t, norm: n }),
            _ => None,
        }
    }
}

proof fn lemma_digits_grow(s: Seq<char>, k: int)
    requires
        0 <= k <= s.len(),
        forall|i: int| 0 <= i < s.len() ==> is_digit(#[trigger] s[i]),
    ensures
        digits_value(s.take(k)) <= digits_value(s),
    decreases s.len() - k,
{
    if k < s.len() {
        lemma_digits_grow(s, k + 1);
        assert(s.take(k + 1).drop_last() =~= s.take(k));
    }
    assert(k == s.len() ==> s.take(k) =~= s);
}

/// The value of digits `s[from..]`, or `None` when a character is not a
/// digit, there are none, or the value exceeds `u64::MAX`.
fn digits_u64(s: &Vec<char>, from: usize) -> (r: Option<u64>)
    requires
        from <= s.len(),
    ensures
        !all_digits(s@.skip(from as int)) ==> r is None,
        all_digits(s@.skip(from as int)) && digits_value(s@.skip(from as int)) <= u64::MAX ==> r
            == Some(digits_value(s@.skip(from as int)) as u64),
        all_digits(s@.skip(from as int)) && digits_value(s@.skip(from as int)) > u64::MAX ==> r is None,
{
    let ghost d = s@.skip(from as int);
    if from == s.len() {
        return None;
    }
    let mut i: usize = from;
    while i < s.len()
        invariant
            from <= i <= s.len(),
            d == s@.skip(from as int),
            forall|k: int| from <= k < i ==> is_digit(#[trigger] s@[k]),
        decreases s.len() - i,
    {
        if !('0' <= s[i] && s[i] <= '9') {
            assert(d[i - from] == s@[i as int]);
            return None;
        }
        i += 1;
    }
    assert(forall|k: int| 0 <= k < d.len() ==> is_digit(#[trigger] d[k]) ) by {
        assert forall|k: int| 0 <= k < d.len() implies is_digit(#[trigger] d[k]) by {
            assert(d[k] == s@[from + k]);
        }
    }
    let mut acc: u64 = 0;
    let mut j: usize = from;
    while j < s.len()
        invariant
            from <= j <= s.len(),
            d == s@.skip(from as int),
            forall|k: int| 0 <= k < d.len() ==> is_digit(#[trigger] d[k]),
            acc == digits_value(d.take(j - from)),
        decreases s.len() - j,
    {
        let c = s[j];
        assert(d[j - from] == c);
        let dv = (c as u32 - '0' as u32) as u64;
        assert(d.take(j + 1 - from).drop_last() =~= d.take(j - from));
        assert(d.take(j + 1 - from).last() == c);
        if acc > (u64::MAX - dv) / 10 {
            proof {
                assert(acc * 10 + dv > u64::MAX) by (nonlinear_arith)
                    requires
                        acc > (u64::MAX - dv) / 10,
                        dv <= 9,
                ;
                lemma_digits_grow(d, j + 1 - from);
            }
            return None;
        }
        proof {
            assert(acc * 10 + dv <= u64::MAX) by (nonlinear_arith)
                requires
                    acc <= (u64::MAX - dv) / 10,
                    dv <= 9,
            ;
        }
        acc = acc * 10 + dv;
        j += 1;
    }
    assert(d.take(j - from) =~= d);
    Some(acc)
}

/// The position named by index text `s` against `len` items.
fn index_from(s: &Vec<char>, len: usize) -> (r: Option<u32>)
    ensures
        r == index_of(s@, len as int),
{
    let neg = s.len() > 0 && s[0] == '-';
    let signed = s.len() > 0 && (s[0] == '-' || s[0] == '+');
    let from: usize = if signed { 1 } else { 0 };
    let m = digits_u64(s, from);
    assert(!signed ==> s@.skip(0) =~= s@);
    match m {
        None => None,
        Some(m) => {
            if neg {
                if m == 0 || m as u128 > len as u128 || (len as u128 - m as u128) > u32::MAX as u128 {
                    None
                } else {
                    Some((len - m as usize) as u32)
                }
            } else {
                if m == 0 || m - 1 > u32::MAX as u64 {
                    None
                } else {
                    Some((m - 1) as u32)
                }
            }
        },
    }
}

/// Reads a face corner (`v`, `v/t`, `v/t/n` or `v//n`) against the numbers
/// of vertices, uvs and normals read so far; fails with the state's error
/// when it is malformed or names no item position.
pub fn process_index_info(st: &ParseState, s: &str, nv: usize, nt: usize, nn: usize) -> (r:
    GameResult<PreIndexInfo>)
    ensures
        match corner_of(s@, nv as int, nt as int, nn as int) {
            Some(c) => r.0 == Ok::<PreIndexInfo, String>(c),
            None => r.0 matches Err(e) && e@ == st.error_message(),
        },
{
    let ps = split_pieces(s);
    let ghost vs = views(ps@);
    assert(vs.len() == ps@.len());
    proof {
        lemma_pieces_nonempty(s@);
    }
    if ps.len() > 3 || ps.len() == 0 {
        return GameResult(Err(st.to_error()));
    }
    assert(vs[0] == ps@[0]@);
    let vert = match index_from(&ps[0], nv) {
        Some(v) => v,
        None => {
            return GameResult(Err(st.to_error()));
        },
    };
    let uv = if ps.len() >= 2 {
        assert(vs[1] == ps@[1]@);
        if ps[1].len() == 0 {
            None
        } else {
            match index_from(&ps[1], nt) {
                Some(t) => Some(t),
                None => {
                    return GameResult(Err(st.to_error()));
                },
            }
        }
    } else {
        None
    };
    let norm = if ps.len() >= 3 {
        assert(vs[2] == ps@[2]@);
        if ps[2].len() == 0 {
            None
        } else {
            match index_from(&ps[2], nn) {
                Some(n) => Some(n),
                None => {
                    return GameResult(Err(st.to_error()));
                },
            }
        }
    } else {
        None
    };
    GameResult(Ok(PreIndexInfo { vert, uv, norm }))
}

/// The first index of a corner that lies beyond the items read, with the
/// name of its kind: the vertex, then the uv, then the normal.
pub open spec fn corner_fault(c: PreIndexInfo, nv: int, nt: int, nn: int) -> Option<(Seq<char>, u32)> {
    if c.vert >= nv {
        Some(("vertex"@, c.vert))
    } else if c.uv matches Some(t) && t >= nt {
        Some(("uv"@, c.uv->Some_0))
    } else if c.norm matches Some(n) && n >= nn {
        Some(("normal"@, c.norm->Some_0))
    } else {
        None
    }
}

/// The first faulty index of a face, corners in order.
pub open spec fn face_fault(f: [PreIndexInfo; 3], nv: int, nt: int, nn: int) -> Option<(Seq<char>, u32)> {
    match corner_fault(f@[0], nv, nt, nn) {
        Some(x) => Some(x),
        None => match corner_fault(f@[1], nv, nt, nn) {
            Some(x) => Some(x),
            None => corner_fault(f@[2], nv, nt, nn),
        },
    }
}

/// The first face with a faulty index: its position, and the fault.
pub open spec fn first_fault(fs: Seq<[PreIndexInfo; 3]>, nv: int, nt: int, nn: int) -> Option<
    (nat, Seq<char>, u32),
>
    decreases fs.len(),
{
    if fs.len() == 0 {
        None
    } else {
        match first_fault(fs.drop_last(), nv, nt, nn) {
            Some(x) => Some(x),
            None => match face_fault(fs.last(), nv, nt, nn) {
                Some((kind, v)) => Some(((fs.len() - 1) as nat, kind, v)),
                None => None,
            },
        }
    }
}

proof fn lemma_first_fault_kept(fs: Seq<[PreIndexInfo; 3]>, k: int, nv: int, nt: int, nn: int)
    requires
        0 <= k <= fs.len(),
        first_fault(fs.take(k), nv, nt, nn) is Some,
    ensures
        first_fault(fs, nv, nt, nn) == first_fault(fs.take(k), nv, nt, nn),
    decreases fs.len() - k,
{
    if k < fs.len() {
        assert(fs.take(k + 1).drop_last() =~= fs.take(k));
        lemma_first_fault_kept(fs, k + 1, nv, nt, nn);
    } else {
        assert(fs.take(k) =~= fs);
    }
}

/// The message reporting a faulty index.
pub open spec fn fault_message(rel: Seq<char>, i: nat, kind: Seq<char>, v: u32) -> Seq<char> {
    "Invalid obj file ("@ + rel + "): Invalid face (index "@ + decimal(i) + ") "@ + kind
        + " index: "@ + decimal(v as nat)
}

fn corner_check(c: &PreIndexInfo, nv: usize, nt: usize, nn: usize) -> (r: Option<(&'static str, u32)>)
    ensures
        match corner_fault(*c, nv as int, nt as int, nn as int) {
            Some((kind, v)) => r matches Some((k, w)) && k@ == kind && w == v,
            None => r is None,
        },
{
    if c.vert as usize >= nv {
        return Some(("vertex", c.vert));
    }
    if let Some(t) = c.uv {
        if t as usize >= nt {
            return Some(("uv", t));
        }
    }
    if let Some(n) = c.norm {
        if n as usize >= nn {
            return Some(("normal", n));
        }
    }
    None
}

/// Checks that every index of every face names an item that was read; fails
/// on the first one that does not, naming the face's position.
pub fn validate_faces(
    rel_path: &str,
    faces: &Vec<[PreIndexInfo; 3]>,
    nv: usize,
    nt: usize,
    nn: usize,
) -> (r: GameResult<()>)
    ensures
        match first_fault(faces@, nv as int, nt as int, nn as int) {
            None => r.0 == Ok::<(), String>(()),
            Some((i, kind, v)) => r.0 matches Err(e) && e@ == fault_message(rel_path@, i, kind, v),
        },
{
    let mut i: usize = 0;
    while i < faces.len()
        invariant
            i <= faces.len(),
            first_fault(faces@.take(i as int), nv as int, nt as int, nn as int) is None,
        decreases faces.len() - i,
    {
        let f = &faces[i];
        let mut found: Option<(&'static str, u32)> = None;
        let mut k: usize = 0;
        while k < 3
            invariant
                k <= 3,
                f == faces@[i as int],
                found is None ==> forall|j: int|
                    0 <= j < k ==> corner_fault(f@[j], nv as int, nt as int, nn as int) is None,
                found matches Some((name, w)) ==> face_fault(*f, nv as int, nt as int, nn as int)
                    matches Some((kind, v)) && name@ == kind && w == v,
            decreases 3 - k,
        {
            if found.is_none() {
                found = corner_check(&f[k], nv, nt, nn);
            }
            k += 1;
        }
        assert(faces@.take(i + 1).drop_last() =~= faces@.take(i as int));
        assert(faces@.take(i + 1).last() == faces@[i as int]);
        match found {
            Some((name, w)) => {
                proof {
                    lemma_first_fault_kept(faces@, i + 1, nv as int, nt as int, nn as int);
                }
                let mut e = String::from_str("Invalid obj file (");
                e.append(rel_path);
                e.append("): Invalid face (index ");
                e.append(decimal_string(i).as_str());
                e.append(") ");
                e.append(name);
                e.append(" index: ");
                e.append(decimal_string(w as usize).as_str());
                return GameResult(Err(e));
            },
            None => {},
        }
        i += 1;
    }
    assert(faces@.take(i as int) =~= faces@);
    GameResult(Ok(()))
}

/// The hash key of a corner: its three indices side by side.
pub open spec fn corner_key(c: IndexInfo) -> u128 {
    ((c.vert as u128) << 64u128) | ((c.uv as u128) << 32u128) | (c.norm as u128)
}

proof fn lemma_corner_key_injective(a: IndexInfo, b: IndexInfo)
    requires
        corner_key(a) == corner_key(b),
    ensures
        a == b,
{
    let (a0, a1, a2, b0, b1, b2) = (a.vert, a.uv, a.norm, b.vert, b.uv, b.norm);
    assert(a0 == b0 && a1 == b1 && a2 == b2) by (bit_vector)
        requires
            ((a0 as u128) << 64u128) | ((a1 as u128) << 32u128) | (a2 as u128) == ((b0 as u128)
                << 64u128) | ((b1 as u128) << 32u128) | (b2 as u128),
    ;
}

fn key_of(c: &IndexInfo) -> (r: u128)
    ensures
        r == corner_key(*c),
{
    ((c.vert as u128) << 64u128) | ((c.uv as u128) << 32u128) | (c.norm as u128)
}

/// The corners shared as vertices: `shared` holds each distinct corner once,
/// and `indices[k]` is the position in `shared` of corner `k`.
pub open spec fn shares_corners(corners: Seq<IndexInfo>, shared: Seq<IndexInfo>, indices: Seq<u32>) -> bool {
    &&& indices.len() == corners.len()
    &&& forall|k: int| 0 <= k < corners.len() ==> (#[trigger] indices[k] as int) < shared.len()
    &&& forall|k: int| 0 <= k < corners.len() ==> shared[indices[k] as int] == #[trigger] corners[k]
    &&& forall|i: int, j: int| 0 <= i < j < shared.len() ==> shared[i] != shared[j]
    &&& forall|i: int| 0 <= i < shared.len() ==> corners.contains(#[trigger] shared[i])
}

/// `seen` maps the key of each shared corner to its position, and nothing else.
spec fn keys_match(seen: Map<u128, u32>, shared: Seq<IndexInfo>) -> bool {
    &&& forall|i: int|
        0 <= i < shared.len() ==> seen.contains_key(#[trigger] corner_key(shared[i])) && seen[corner_key(
            shared[i],
        )] == i
    &&& forall|key: u128|
        #[trigger] seen.contains_key(key) ==> exists|i: int|
            0 <= i < shared.len() && corner_key(#[trigger] shared[i]) == key
}

proof fn lemma_seen_hit(seen: Map<u128, u32>, shared: Seq<IndexInfo>, c: IndexInfo)
    requires
        keys_match(seen, shared),
        seen.contains_key(corner_key(c)),
    ensures
        (seen[corner_key(c)] as int) < shared.len(),
        shared[seen[corner_key(c)] as int] == c,
{
    let key = corner_key(c);
    let i = choose|i: int| 0 <= i < shared.len() && corner_key(#[trigger] shared[i]) == key;
    lemma_corner_key_injective(shared[i], c);
}

proof fn lemma_seen_miss(seen: Map<u128, u32>, shared: Seq<IndexInfo>, c: IndexInfo)
    requires
        keys_match(seen, shared),
        !seen.contains_key(corner_key(c)),
        shared.len() < u32::MAX,
    ensures
        forall|i: int| 0 <= i < shared.len() ==> shared[i] != c,
        keys_match(seen.insert(corner_key(c), shared.len() as u32), shared.push(c)),
{
    let key = corner_key(c);
    let seen2 = seen.insert(key, shared.len() as u32);
    let shared2 = shared.push(c);
    assert forall|i: int| 0 <= i < shared.len() implies shared[i] != c by {
        if shared[i] == c {
            assert(seen.contains_key(corner_key(shared[i])));
        }
    }
    assert forall|i: int| 0 <= i < shared2.len() implies seen2.contains_key(
        #[trigger] corner_key(shared2[i]),
    ) && seen2[corner_key(shared2[i])] == i by {
        if i < shared.len() {
            assert(shared2[i] == shared[i]);
            if corner_key(shared[i]) == key {
                lemma_corner_key_injective(shared[i], c);
            }
        }
    }
    assert forall|kk: u128| #[trigger] seen2.contains_key(kk) implies exists|i: int|
        0 <= i < shared2.len() && corner_key(#[trigger] shared2[i]) == kk by {
        if kk == key {
            assert(corner_key(shared2[shared.len() as int]) == kk);
        } else {
            let i = choose|i: int| 0 <= i < shared.len() && corner_key(#[trigger] shared[i]) == kk;
            assert(shared2[i] == shared[i]);
        }
    }
}

proof fn lemma_share_hit(before: Seq<IndexInfo>, c: IndexInfo, shared: Seq<IndexInfo>, indices: Seq<u32>, v: u32)
    requires
        shares_corners(before, shared, indices),
        (v as int) < shared.len(),
        shared[v as int] == c,
    ensures
        shares_corners(before.push(c), shared, indices.push(v)),
{
    let after = before.push(c);
    let idx = indices.push(v);
    assert forall|i: int| 0 <= i < shared.len() implies after.contains(#[trigger] shared[i]) by {
        let j = choose|j: int| 0 <= j < before.len() && before[j] == shared[i];
        assert(after[j] == before[j]);
    }
    assert forall|j: int| 0 <= j < after.len() implies (#[trigger] idx[j] as int) < shared.len() by {
        if j < before.len() {
            assert(idx[j] == indices[j]);
        }
    }
    assert forall|j: int| 0 <= j < after.len() implies shared[idx[j] as int] == #[trigger] after[j] by {
        if j < before.len() {
            assert(after[j] == before[j]);
            assert(idx[j] == indices[j]);
        }
    }
}

proof fn lemma_share_miss(before: Seq<IndexInfo>, c: IndexInfo, shared: Seq<IndexInfo>, indices: Seq<u32>)
    requires
        shares_corners(before, shared, indices),
        forall|i: int| 0 <= i < shared.len() ==> shared[i] != c,
        shared.len() < u32::MAX,
    ensures
        shares_corners(before.push(c), shared.push(c), indices.push(shared.len() as u32)),
{
    let after = before.push(c);
    let sh = shared.push(c);
    let idx = indices.push(shared.len() as u32);
    assert forall|i: int| 0 <= i < sh.len() implies after.contains(#[trigger] sh[i]) by {
        if i < shared.len() {
            let j = choose|j: int| 0 <= j < before.len() && before[j] == shared[i];
            assert(after[j] == before[j]);
        } else {
            assert(after[before.len() as int] == c);
        }
    }
    assert forall|j: int| 0 <= j < after.len() implies (#[trigger] idx[j] as int) < sh.len() by {
        if j < before.len() {
            assert(idx[j] == indices[j]);
        }
    }
    assert forall|j: int| 0 <= j < after.len() implies sh[idx[j] as int] == #[trigger] after[j] by {
        if j < before.len() {
            assert(after[j] == before[j]);
            assert(idx[j] == indices[j]);
        }
    }
    assert forall|i: int, j: int| 0 <= i < j < sh.len() implies sh[i] != sh[j] by {
        if j < shared.len() {
            assert(sh[i] == shared[i]);
            assert(sh[j] == shared[j]);
        } else {
            assert(sh[i] == shared[i]);
        }
    }
}

/// Gives each distinct corner of a mesh one vertex, in order of first use,
/// and the index of that vertex for every corner.
pub fn share_corners(corners: &Vec<IndexInfo>) -> (r: (Vec<IndexInfo>, Vec<u32>))
    requires
        corners.len() <= u32::MAX,
    ensures
        shares_corners(corners@, r.0@, r.1@),
{
    broadcast use vstd::std_specs::hash::group_hash_axioms;
    let mut seen: HashMapWithView<u128, u32> = HashMapWithView::new();
    let mut shared: Vec<IndexInfo> = Vec::new();
    let mut indices: Vec<u32> = Vec::new();
    let mut k: usize = 0;
    while k < corners.len()
        invariant
            corners.len() <= u32::MAX,
            k <= corners.len(),
            shared.len() <= k,
            shares_corners(corners@.take(k as int), shared@, indices@),
            keys_match(seen@, shared@),
        decreases corners.len() - k,
    {
        let c = corners[k];
        let key = key_of(&c);
        assert(corners@.take(k + 1) =~= corners@.take(k as int).push(c));
        match seen.get(&key) {
            Some(v) => {
                let v = *v;
                proof {
                    lemma_seen_hit(seen@, shared@, c);
                    lemma_share_hit(corners@.take(k as int), c, shared@, indices@, v);
                }
                indices.push(v);
            },
            None => {
                proof {
                    lemma_seen_miss(seen@, shared@, c);
                    lemma_share_miss(corners@.take(k as int), c, shared@, indices@);
                }
                let n = shared.len() as u32;
                seen.insert(key, n);
                shared.push(c);
                indices.push(n);
            },
        }
        k += 1;
    }
    assert(corners@.take(k as int) =~= corners@);
    (shared, indices)
}

/// One command of an OBJ file, with its numbers of type `S`.
#[derive(Clone, Debug, PartialEq)]
pub enum ObjLine<S> {
    /// `mtllib path`: a material library to read.
    MtlLib(String),
    /// `o name`
    Name(String),
    /// `v x y z`
    Vertex(S, S, S),
    /// `vt u v`
    Uv(S, S),
    /// `vn x y z`
    Normal(S, S, S),
    /// `f a b c`: a triangle.
    Face(PreIndexInfo, PreIndexInfo, PreIndexInfo),
    /// `usemtl name`
    UseMtl(String),
    /// `s ...`: smoothing groups, which are not used.
    Smoothing,
}

/// The message reporting a command that the format does not have.
pub open spec fn unrecognized_message(command: Seq<char>, file: Seq<char>, lno: nat) -> Seq<char> {
    "Unrecognized command `"@ + command + "` at "@ + file + ":"@ + decimal(lno)
}

pub(crate) fn unrecognized(command: &String, file: &str, lno: usize) -> (r: String)
    ensures
        r@ == unrecognized_message(command@, file@, lno as nat),
{
    let mut e = String::from_str("Unrecognized command `");
    e.append(command.as_str());
    e.append("` at ");
    e.append(file);
    e.append(":");
    e.append(decimal_string(lno).as_str());
    e
}

/// `r` is the state's error.
pub open spec fn is_format_error<T>(st: ParseState, r: Result<T, String>) -> bool {
    r matches Err(e) && e@ == st.error_message()
}

/// `r` is `n` numbers read from the arguments that are left, which must be
/// exactly `n`, or the state's error; it is `n` numbers whenever exactly `n`
/// arguments are left and `scalar` rejects none of them.
pub open spec fn numbers_result<S, T, P: Fn(&String) -> Option<S>>(
    st: ParseState,
    items: Seq<String>,
    pos: int,
    n: int,
    scalar: P,
    r: Result<T, String>,
    values: Seq<S>,
) -> bool {
    &&& (items.len() - pos != n ==> is_format_error(st, r))
    &&& (items.len() - pos == n && !may_reject(items, pos, n, scalar) ==> r is Ok)
    &&& (r is Ok ==> items.len() - pos == n && parsed_run(items, pos, values, scalar))
    &&& (r is Err ==> is_format_error(st, r))
}

/// The values carried by a line, in order.
pub open spec fn obj_values<S>(l: ObjLine<S>) -> Seq<S> {
    match l {
        ObjLine::Vertex(x, y, z) => seq![x, y, z],
        ObjLine::Uv(u, v) => seq![u, v],
        ObjLine::Normal(x, y, z) => seq![x, y, z],
        _ => seq![],
    }
}

/// The result owed for command `st.command` with arguments `items[pos..]`.
pub open spec fn obj_line_result<S, P: Fn(&String) -> Option<S>>(
    st: ParseState,
    items: Seq<String>,
    pos: int,
    rel_path: Seq<char>,
    nv: int,
    nt: int,
    nn: int,
    scalar: P,
    r: Result<ObjLine<S>, String>,
) -> bool {
    let c = st.command@;
    let n = items.len() - pos;
    let vals = match r {
        Ok(l) => obj_values(l),
        Err(_) => seq![],
    };
    if c == "mtllib"@ {
        if n >= 1 {
            r matches Ok(ObjLine::MtlLib(p)) && p@ == items[pos]@
        } else {
            is_format_error(st, r)
        }
    } else if c == "o"@ {
        if n == 1 {
            r matches Ok(ObjLine::Name(x)) && x@ == items[pos]@
        } else {
            is_format_error(st, r)
        }
    } else if c == "v"@ {
        numbers_result(st, items, pos, 3, scalar, r, vals) && (r is Ok ==> r->Ok_0 is Vertex)
    } else if c == "vt"@ {
        numbers_result(st, items, pos, 2, scalar, r, vals) && (r is Ok ==> r->Ok_0 is Uv)
    } else if c == "vn"@ {
        numbers_result(st, items, pos, 3, scalar, r, vals) && (r is Ok ==> r->Ok_0 is Normal)
    } else if c == "f"@ {
        if n == 3 && corner_of(items[pos]@, nv, nt, nn) is Some && corner_of(items[pos + 1]@, nv, nt, nn) is Some
            && corner_of(items[pos + 2]@, nv, nt, nn) is Some {
            r == Ok::<ObjLine<S>, String>(
                ObjLine::Face(
                    corner_of(items[pos]@, nv, nt, nn)->Some_0,
                    corner_of(items[pos + 1]@, nv, nt, nn)->Some_0,
                    corner_of(items[pos + 2]@, nv, nt, nn)->Some_0,
                ),
            )
        } else {
            is_format_error(st, r)
        }
    } else if c == "usemtl"@ {
        if n == 1 {
            r matches Ok(ObjLine::UseMtl(x)) && x@ == items[pos]@
        } else {
            is_format_error(st, r)
        }
    } else if c == "s"@ {
        r matches Ok(ObjLine::Smoothing)
    } else {
        r matches Err(e) && e@ == unrecognized_message(c, rel_path, st.lno as nat)
    }
}

/// Reads the arguments `v`, `vt` and `vn` carry: exactly `n` numbers.
fn numbers<S: Copy, P: Fn(&String) -> Option<S>>(st: &ParseState, args: &mut Tokens, n: usize, scalar: &P) -> (r: GameResult<Vec<S>>)
    requires
        old(args).wf(),
        n >= 1,
        forall|s: &String| scalar.requires((s,)),
    ensures
        final(args).wf(),
        final(args).items == old(args).items,
        numbers_result(*st, old(args).items@, old(args).pos as int, n as int, *scalar, r.0, match r.0 {
            Ok(v) => v@,
            Err(_) => seq![],
        }),
        r.0 matches Ok(v) ==> v@.len() == n,
{
    parseN_only(st, n, args, scalar)
}

/// Reads one command of an OBJ file (`st.command`, with arguments `args`),
/// its numbers with `scalar`, its face corners against the numbers of
/// vertices, uvs and normals read so far. `rel_path` names the file in the
/// message for an unknown command.
pub fn parse_obj_command<S: Copy, P: Fn(&String) -> Option<S>>(
    st: &ParseState,
    args: &mut Tokens,
    rel_path: &str,
    nv: usize,
    nt: usize,
    nn: usize,
    scalar: &P,
) -> (r: GameResult<ObjLine<S>>)
    requires
        old(args).wf(),
        forall|s: &String| scalar.requires((s,)),
    ensures
        final(args).wf(),
        final(args).items == old(args).items,
        obj_line_result(*st, old(args).items@, old(args).pos as int, rel_path@, nv as int, nt as int, nn as int, *scalar, r.0),
{
    proof {
        reveal_strlit("mtllib");
        reveal_strlit("o");
        reveal_strlit("v");
        reveal_strlit("vt");
        reveal_strlit("vn");
        reveal_strlit("f");
        reveal_strlit("usemtl");
        reveal_strlit("s");
        assert("usemtl"@[0] != "mtllib"@[0]);
        assert("vn"@[1] != "vt"@[1]);
        assert("o"@[0] != "v"@[0] && "o"@[0] != "f"@[0] && "o"@[0] != "s"@[0]);
        assert("v"@[0] != "f"@[0] && "v"@[0] != "s"@[0] && "f"@[0] != "s"@[0]);
    }
    let pos = args.pos;
    let len = args.items.len();
    if word_is(&st.command, "mtllib") {
        if pos < len {
            let p = args.items[pos].clone();
            args.pos = pos + 1;
            return GameResult(Ok(ObjLine::MtlLib(p)));
        }
        return GameResult(Err(st.to_error()));
    }
    if word_is(&st.command, "o") || word_is(&st.command, "usemtl") {
        if len - pos != 1 {
            return GameResult(Err(st.to_error()));
        }
        let x = args.items[pos].clone();
        args.pos = len;
        if word_is(&st.command, "o") {
            return GameResult(Ok(ObjLine::Name(x)));
        }
        return GameResult(Ok(ObjLine::UseMtl(x)));
    }
    if word_is(&st.command, "v") || word_is(&st.command, "vn") {
        let v = numbers(st, args, 3, scalar);
        return match v.0 {
            Ok(v) => {
                proof {
                    assert(seq![v@[0], v@[1], v@[2]] =~= v@);
                }
                if word_is(&st.command, "v") {
                    GameResult(Ok(ObjLine::Vertex(v[0], v[1], v[2])))
                } else {
                    GameResult(Ok(ObjLine::Normal(v[0], v[1], v[2])))
                }
            },
            Err(e) => GameResult(Err(e)),
        };
    }
    if word_is(&st.command, "vt") {
        let v = numbers(st, args, 2, scalar);
        return match v.0 {
            Ok(v) => {
                proof {
                    assert(seq![v@[0], v@[1]] =~= v@);
                }
                GameResult(Ok(ObjLine::Uv(v[0], v[1])))
            },
            Err(e) => GameResult(Err(e)),
        };
    }
    if word_is(&st.command, "f") {
        if len - pos != 3 {
            return GameResult(Err(st.to_error()));
        }
        let a = process_index_info(st, args.items[pos].as_str(), nv, nt, nn);
        let b = process_index_info(st, args.items[pos + 1].as_str(), nv, nt, nn);
        let c = process_index_info(st, args.items[pos + 2].as_str(), nv, nt, nn);
        args.pos = len;
        return match (a.0, b.0, c.0) {
            (Ok(a), Ok(b), Ok(c)) => GameResult(Ok(ObjLine::Face(a, b, c))),
            _ => GameResult(Err(st.to_error())),
        };
    }
    if word_is(&st.command, "s") {
        return GameResult(Ok(ObjLine::Smoothing));
    }
    GameResult(Err(unrecognized(&st.command, rel_path, st.lno)))
}

/// A texture map of a material: the texture's path, and the uv scale of the
/// first `-s u [v [w]]` option, if any (`w` is read and not used).
#[derive(Clone, Debug, PartialEq)]
pub struct TextureRef<S> {
    pub id: String,
    pub uv_scale: Option<(S, Option<S>)>,
}

/// An argument that opens with `-`, as options do.
pub open spec fn starts_with_dash(w: Seq<char>) -> bool {
    w.len() > 0 && w[0] == '-'
}

/// The message reporting an option that texture maps do not have.
pub open spec fn unknown_option_message(st: ParseState, option: Seq<char>) -> Seq<char> {
    st.error_message() + ": Unknown texture option `"@ + option + "`"@
}

/// What a texture map read from `items[pos..]` owes when it succeeds: the
/// path is the last argument, resolved beside the material file; there is a
/// uv scale exactly when the arguments open with an option, and then it comes
/// from `-s` and the numbers after it.
pub open spec fn texture_read<S, P: Fn(&String) -> Option<S>>(
    st: ParseState,
    items: Seq<String>,
    pos: int,
    scalar: P,
    t: TextureRef<S>,
) -> bool {
    &&& pos < items.len()
    &&& !starts_with_dash(items.last()@)
    &&& t.id@ == texture_path(st.rel_path@, items.last()@)
    &&& (t.uv_scale is None <==> !starts_with_dash(items[pos]@))
    &&& (t.uv_scale matches Some((u, v)) ==> items[pos]@ == "-s"@ && pos + 1 < items.len()
        && scalar.ensures((&items[pos + 1],), Some(u)) && (v matches Some(x) ==> pos + 2 < items.len()
        && scalar.ensures((&items[pos + 2],), Some(x))))
}

/// How reading a texture map from `items[pos..]` may fail: with the state's
/// error, or naming an unknown option; with no argument left it must fail.
pub open spec fn texture_result<S, P: Fn(&String) -> Option<S>>(
    st: ParseState,
    items: Seq<String>,
    pos: int,
    scalar: P,
    r: Result<TextureRef<S>, String>,
) -> bool {
    &&& (pos >= items.len() ==> is_format_error(st, r))
    &&& match r {
        Ok(t) => texture_read(st, items, pos, scalar, t),
        Err(e) => e@ == st.error_message() || exists|k: int|
            pos <= k < items.len() && e@ == unknown_option_message(st, #[trigger] items[k]@),
    }
}

fn starts_with_dash_exec(w: &String) -> (r: bool)
    ensures
        r == starts_with_dash(w@),
{
    let cs = crate::text::chars_of(w.as_str());
    cs.len() > 0 && cs[0] == '-'
}

/// Reads the arguments of a texture map: options, then the texture's path,
/// which must be the last argument.
pub fn parse_texture_args<S: Copy, P: Fn(&String) -> Option<S>>(
    st: &ParseState,
    args: &mut Tokens,
    scalar: &P,
) -> (r: GameResult<TextureRef<S>>)
    requires
        old(args).wf(),
        forall|s: &String| scalar.requires((s,)),
    ensures
        final(args).wf(),
        final(args).items == old(args).items,
        texture_result(*st, old(args).items@, old(args).pos as int, *scalar, r.0),
{
    proof {
        reveal_strlit("-s");
    }
    let ghost items = args.items@;
    let ghost start = args.pos as int;
    let mut scale: Option<(S, Option<S>)> = None;
    while args.pos < args.items.len()
        invariant
            args.wf(),
            args.items == old(args).items,
            items == old(args).items@,
            forall|s: &String| scalar.requires((s,)),
            start <= args.pos,
            start == old(args).pos,
            (scale is None <==> args.pos == start),
            args.pos > start ==> starts_with_dash(items[start]@),
            scale matches Some((u, v)) ==> items[start]@ == "-s"@ && start + 1 < items.len()
                && scalar.ensures((&items[start + 1],), Some(u)) && (v matches Some(x) ==> start + 2
                < items.len() && scalar.ensures((&items[start + 2],), Some(x))),
        decreases args.items.len() - args.pos,
    {
        let i = args.pos;
        args.pos = i + 1;
        let dash = starts_with_dash_exec(&args.items[i]);
        if !dash {
            if args.pos < args.items.len() {
                return GameResult(Err(st.to_error()));
            }
            let id = parse_texture_path(st, args.items[i].as_str());
            assert(items.last() == items[i as int]);
            return GameResult(Ok(TextureRef { id, uv_scale: scale }));
        }
        if !word_is(&args.items[i], "-s") {
            let mut e = st.to_error();
            e.append(": Unknown texture option `");
            e.append(args.items[i].as_str());
            e.append("`");
            assert(e@ == unknown_option_message(*st, items[i as int]@));
            return GameResult(Err(e));
        }
        let u = match parse1(st, args, scalar).0 {
            Ok(u) => u,
            Err(e) => {
                return GameResult(Err(e));
            },
        };
        let v = parse1_opt(args, scalar);
        let _w = parse1_opt(args, scalar);
        if scale.is_none() {
            scale = Some((u, v));
        }
    }
    GameResult(Err(st.to_error()))
}

/// One command of an MTL file, with its numbers of type `S`.
#[derive(Clone, Debug, PartialEq)]
pub enum MtlLine<S> {
    /// `newmtl name`: starts a material.
    NewMtl(String),
    /// `Ns e`: specular exponent.
    Ns(S),
    /// `Ka r g b`: ambient colour.
    Ka(S, S, S),
    /// `Kd r g b`: diffuse colour.
    Kd(S, S, S),
    /// `Ks r g b`: specular colour.
    Ks(S, S, S),
    /// `Ke r g b`: emissive colour.
    Ke(S, S, S),
    /// `d a`: opacity.
    D(S),
    /// `map_Ka ...`: ambient texture map.
    MapKa(TextureRef<S>),
    /// `map_Kd ...`: diffuse texture map.
    MapKd(TextureRef<S>),
    /// `Ni ...` or `illum ...`, which are not used.
    Ignored,
}

/// The numbers carried by a line, in order.
pub open spec fn mtl_values<S>(l: MtlLine<S>) -> Seq<S> {
    match l {
        MtlLine::Ns(x) => seq![x],
        MtlLine::D(x) => seq![x],
        MtlLine::Ka(x, y, z) => seq![x, y, z],
        MtlLine::Kd(x, y, z) => seq![x, y, z],
        MtlLine::Ks(x, y, z) => seq![x, y, z],
        MtlLine::Ke(x, y, z) => seq![x, y, z],
        _ => seq![],
    }
}

/// The result owed for command `st.command` with arguments `items[pos..]`.
pub open spec fn mtl_line_result<S, P: Fn(&String) -> Option<S>>(
    st: ParseState,
    items: Seq<String>,
    pos: int,
    scalar: P,
    r: Result<MtlLine<S>, String>,
) -> bool {
    let c = st.command@;
    let vals = match r {
        Ok(l) => mtl_values(l),
        Err(_) => seq![],
    };
    if c == "newmtl"@ {
        if items.len() - pos == 1 {
            r matches Ok(MtlLine::NewMtl(x)) && x@ == items[pos]@
        } else {
            is_format_error(st, r)
        }
    } else if c == "Ns"@ {
        numbers_result(st, items, pos, 1, scalar, r, vals) && (r is Ok ==> r->Ok_0 is Ns)
    } else if c == "d"@ {
        numbers_result(st, items, pos, 1, scalar, r, vals) && (r is Ok ==> r->Ok_0 is D)
    } else if c == "Ka"@ {
        numbers_result(st, items, pos, 3, scalar, r, vals) && (r is Ok ==> r->Ok_0 is Ka)
    } else if c == "Kd"@ {
        numbers_result(st, items, pos, 3, scalar, r, vals) && (r is Ok ==> r->Ok_0 is Kd)
    } else if c == "Ks"@ {
        numbers_result(st, items, pos, 3, scalar, r, vals) && (r is Ok ==> r->Ok_0 is Ks)
    } else if c == "Ke"@ {
        numbers_result(st, items, pos, 3, scalar, r, vals) && (r is Ok ==> r->Ok_0 is Ke)
    } else if c == "map_Ka"@ {
        match r {
            Ok(MtlLine::MapKa(t)) => texture_result(st, items, pos, scalar, Ok(t)),
            Ok(_) => false,
            Err(e) => texture_result(st, items, pos, scalar, Err::<TextureRef<S>, String>(e)),
        }
    } else if c == "map_Kd"@ {
        match r {
            Ok(MtlLine::MapKd(t)) => texture_result(st, items, pos, scalar, Ok(t)),
            Ok(_) => false,
            Err(e) => texture_result(st, items, pos, scalar, Err::<TextureRef<S>, String>(e)),
        }
    } else if c == "Ni"@ || c == "illum"@ {
        r matches Ok(MtlLine::Ignored)
    } else {
        r matches Err(e) && e@ == unrecognized_message(c, st.path@, st.lno as nat)
    }
}

/// Reads one command of an MTL file (`st.command`, with arguments `args`),
/// its numbers with `scalar`. The state's path names the file in the
/// message for an unknown command.
pub fn parse_mtl_command<S: Copy, P: Fn(&String) -> Option<S>>(
    st: &ParseState,
    args: &mut Tokens,
    scalar: &P,
) -> (r: GameResult<MtlLine<S>>)
    requires
        old(args).wf(),
        forall|s: &String| scalar.requires((s,)),
    ensures
        final(args).wf(),
        final(args).items == old(args).items,
        mtl_line_result(*st, old(args).items@, old(args).pos as int, *scalar, r.0),
{
    proof {
        reveal_strlit("newmtl");
        reveal_strlit("Ns");
        reveal_strlit("d");
        reveal_strlit("Ka");
        reveal_strlit("Kd");
        reveal_strlit("Ks");
        reveal_strlit("Ke");
        reveal_strlit("map_Ka");
        reveal_strlit("map_Kd");
        reveal_strlit("Ni");
        reveal_strlit("illum");
        assert("Ns"@[0] != "Ka"@[0] && "Ns"@[0] != "Kd"@[0] && "Ns"@[0] != "Ks"@[0] && "Ns"@[0] != "Ke"@[0]);
        assert("Ns"@[1] != "Ni"@[1]);
        assert("Ka"@[1] != "Kd"@[1] && "Ka"@[1] != "Ks"@[1] && "Ka"@[1] != "Ke"@[1]);
        assert("Kd"@[1] != "Ks"@[1] && "Kd"@[1] != "Ke"@[1] && "Ks"@[1] != "Ke"@[1]);
        assert("Ni"@[0] != "Ka"@[0] && "Ni"@[0] != "Kd"@[0] && "Ni"@[0] != "Ks"@[0] && "Ni"@[0] != "Ke"@[0]);
        assert("map_Ka"@[5] != "map_Kd"@[5] && "map_Ka"@[0] != "newmtl"@[0] && "map_Kd"@[0] != "newmtl"@[0]);
    }
    if word_is(&st.command, "newmtl") {
        let x = parse1_only(st, args, &|s: &String| -> (r: Option<String>)
            ensures
                r matches Some(t) && t@ == s@,
            { Some(s.clone()) });
        return match x.0 {
            Ok(x) => GameResult(Ok(MtlLine::NewMtl(x))),
            Err(e) => GameResult(Err(e)),
        };
    }
    if word_is(&st.command, "Ns") || word_is(&st.command, "d") {
        let v = numbers(st, args, 1, scalar);
        return match v.0 {
            Ok(v) => {
                proof {
                    assert(seq![v@[0]] =~= v@);
                }
                if word_is(&st.command, "Ns") {
                    GameResult(Ok(MtlLine::Ns(v[0])))
                } else {
                    GameResult(Ok(MtlLine::D(v[0])))
                }
            },
            Err(e) => GameResult(Err(e)),
        };
    }
    let ka = word_is(&st.command, "Ka");
    let kd = word_is(&st.command, "Kd");
    let ks = word_is(&st.command, "Ks");
    let ke = word_is(&st.command, "Ke");
    if ka || kd || ks || ke {
        let v = numbers(st, args, 3, scalar);
        return match v.0 {
            Ok(v) => {
                proof {
                    assert(seq![v@[0], v@[1], v@[2]] =~= v@);
                }
                let (x, y, z) = (v[0], v[1], v[2]);
                if ka {
                    GameResult(Ok(MtlLine::Ka(x, y, z)))
                } else if kd {
                    GameResult(Ok(MtlLine::Kd(x, y, z)))
                } else if ks {
                    GameResult(Ok(MtlLine::Ks(x, y, z)))
                } else {
                    GameResult(Ok(MtlLine::Ke(x, y, z)))
                }
            },
            Err(e) => GameResult(Err(e)),
        };
    }
    let map_ka = word_is(&st.command, "map_Ka");
    if map_ka || word_is(&st.command, "map_Kd") {
        let t = parse_texture_args(st, args, scalar);
        return match t.0 {
            Ok(t) => if map_ka {
                GameResult(Ok(MtlLine::MapKa(t)))
            } else {
                GameResult(Ok(MtlLine::MapKd(t)))
            },
            Err(e) => GameResult(Err(e)),
        };
    }
    if word_is(&st.command, "Ni") || word_is(&st.command, "illum") {
        return GameResult(Ok(MtlLine::Ignored));
    }
    GameResult(Err(unrecognized(&st.command, st.path.as_str(), st.lno)))
}

/// Whether a face lacks a normal at some corner; it then gets one generated
/// normal, shared by those corners.
pub open spec fn needs_normal(f: [PreIndexInfo; 3]) -> bool {
    f@[0].norm is None || f@[1].norm is None || f@[2].norm is None
}

/// The number of corners among the first `k` of a face that lack a uv.
pub open spec fn missing_uvs(f: [PreIndexInfo; 3], k: int) -> nat
    decreases k,
{
    if k <= 0 {
        0
    } else {
        missing_uvs(f, k - 1) + if f@[k - 1].uv is None { 1nat } else { 0nat }
    }
}

/// The faces among the first `i` that get a generated normal, in order.
pub open spec fn normal_faces(fs: Seq<[PreIndexInfo; 3]>, i: int) -> Seq<usize>
    decreases i,
{
    if i <= 0 {
        seq![]
    } else if needs_normal(fs[i - 1]) {
        normal_faces(fs, i - 1).push((i - 1) as usize)
    } else {
        normal_faces(fs, i - 1)
    }
}

/// The corners among the first `i` faces that get a generated uv, in order.
pub open spec fn uv_corners(fs: Seq<[PreIndexInfo; 3]>, i: int) -> Seq<(usize, usize)>
    decreases i,
{
    if i <= 0 {
        seq![]
    } else {
        uv_corners(fs, i - 1) + face_uv_corners(fs[i - 1], (i - 1) as usize, 3)
    }
}

/// The corners among the first `k` of face `i` that lack a uv.
pub open spec fn face_uv_corners(f: [PreIndexInfo; 3], i: usize, k: int) -> Seq<(usize, usize)>
    decreases k,
{
    if k <= 0 {
        seq![]
    } else if f@[k - 1].uv is None {
        face_uv_corners(f, i, k - 1).push((i, (k - 1) as usize))
    } else {
        face_uv_corners(f, i, k - 1)
    }
}

/// Corner `k` of face `i` completed: a missing normal is the face's
/// generated one, numbered after the `nn` normals read and those generated
/// for earlier faces; a missing uv is its generated one, numbered likewise
/// after the `nt` uvs read.
pub open spec fn completed_corner(fs: Seq<[PreIndexInfo; 3]>, i: int, k: int, nt: int, nn: int) -> IndexInfo {
    let c = fs[i]@[k];
    IndexInfo {
        vert: c.vert,
        uv: match c.uv {
            Some(t) => t,
            None => (nt + uv_corners(fs, i).len() + missing_uvs(fs[i], k)) as u32,
        },
        norm: match c.norm {
            Some(n) => n,
            None => (nn + normal_faces(fs, i).len()) as u32,
        },
    }
}

/// The faces completed, and which normals and uvs must be generated for
/// them, in the order their indices were given.
pub struct FaceCompletion {
    pub faces: Vec<[IndexInfo; 3]>,
    pub normal_faces: Vec<usize>,
    pub uv_corners: Vec<(usize, usize)>,
}

proof fn lemma_counts_bounded(fs: Seq<[PreIndexInfo; 3]>, i: int)
    requires
        0 <= i <= fs.len(),
    ensures
        normal_faces(fs, i).len() <= i,
        uv_corners(fs, i).len() <= 3 * i,
    decreases i,
{
    if i > 0 {
        lemma_counts_bounded(fs, i - 1);
        lemma_face_uv_len(fs[i - 1], (i - 1) as usize, 3);
    }
}

proof fn lemma_face_uv_len(f: [PreIndexInfo; 3], i: usize, k: int)
    requires
        0 <= k <= 3,
    ensures
        face_uv_corners(f, i, k).len() == missing_uvs(f, k),
        missing_uvs(f, k) <= k,
    decreases k,
{
    if k > 0 {
        lemma_face_uv_len(f, i, k - 1);
    }
}

/// Completes every face: keeps the normals and uvs it names, and numbers
/// the ones to generate after the `nt` uvs and `nn` normals read.
pub fn complete_faces(pre: &Vec<[PreIndexInfo; 3]>, nt: usize, nn: usize) -> (r: FaceCompletion)
    requires
        nt + 3 * pre.len() <= u32::MAX,
        nn + pre.len() <= u32::MAX,
    ensures
        r.faces@.len() == pre@.len(),
        forall|i: int, k: int|
            0 <= i < pre@.len() && 0 <= k < 3 ==> #[trigger] r.faces@[i]@[k] == completed_corner(
                pre@,
                i,
                k,
                nt as int,
                nn as int,
            ),
        r.normal_faces@ == normal_faces(pre@, pre@.len() as int),
        r.uv_corners@ == uv_corners(pre@, pre@.len() as int),
{
    let mut faces: Vec<[IndexInfo; 3]> = Vec::new();
    let mut nfaces: Vec<usize> = Vec::new();
    let mut ucorners: Vec<(usize, usize)> = Vec::new();
    let mut i: usize = 0;
    while i < pre.len()
        invariant
            nt + 3 * pre.len() <= u32::MAX,
            nn + pre.len() <= u32::MAX,
            i <= pre.len(),
            faces@.len() == i,
            forall|j: int, k: int|
                0 <= j < i && 0 <= k < 3 ==> #[trigger] faces@[j]@[k] == completed_corner(
                    pre@,
                    j,
                    k,
                    nt as int,
                    nn as int,
                ),
            nfaces@ == normal_faces(pre@, i as int),
            ucorners@ == uv_corners(pre@, i as int),
        decreases pre.len() - i,
    {
        let f = pre[i];
        proof {
            lemma_counts_bounded(pre@, i as int);
        }
        let gen_norm = (nn + nfaces.len()) as u32;
        let uv_base = nt + ucorners.len();
        let mut out: [IndexInfo; 3] = [IndexInfo { vert: 0, uv: 0, norm: 0 }; 3];
        let ghost before = ucorners@;
        let mut k: usize = 0;
        while k < 3
            invariant
                nt + 3 * pre.len() <= u32::MAX,
                i < pre.len(),
                f == pre@[i as int],
                k <= 3,
                uv_base == nt + before.len(),
                before == uv_corners(pre@, i as int),
                before.len() <= 3 * i,
                gen_norm == nn + normal_faces(pre@, i as int).len(),
                ucorners@ == before + face_uv_corners(f, i, k as int),
                forall|j: int| 0 <= j < k ==> #[trigger] out@[j] == completed_corner(pre@, i as int, j, nt as int, nn as int),
            decreases 3 - k,
        {
            proof {
                lemma_face_uv_len(f, i, k as int);
            }
            let c = f[k];
            let uv = match c.uv {
                Some(t) => t,
                None => {
                    let t = (nt + ucorners.len()) as u32;
                    ucorners.push((i, k));
                    t
                },
            };
            let norm = match c.norm {
                Some(n) => n,
                None => gen_norm,
            };
            out.set(k, IndexInfo { vert: c.vert, uv, norm });
            assert(ucorners@ =~= before + face_uv_corners(f, i, k + 1));
            k += 1;
        }
        if f[0].norm.is_none() || f[1].norm.is_none() || f[2].norm.is_none() {
            nfaces.push(i);
        }
        faces.push(out);
        proof {
            assert(uv_corners(pre@, i + 1) == before + face_uv_corners(f, i, 3));
            assert forall|j: int, kk: int| 0 <= j < i + 1 && 0 <= kk < 3 implies #[trigger] faces@[j]@[kk]
                == completed_corner(pre@, j, kk, nt as int, nn as int) by {
                if j < i {
                    
                }
            }
        }
        i += 1;
    }
    FaceCompletion { faces, normal_faces: nfaces, uv_corners: ucorners }
}

proof fn lemma_no_fault_each(fs: Seq<[PreIndexInfo; 3]>, i: int, nv: int, nt: int, nn: int)
    requires
        first_fault(fs, nv, nt, nn) is None,
        0 <= i < fs.len(),
    ensures
        face_fault(fs[i], nv, nt, nn) is None,
    decreases fs.len(),
{
    if i < fs.len() - 1 {
        lemma_no_fault_each(fs.drop_last(), i, nv, nt, nn);
    }
}

proof fn lemma_normals_grow(fs: Seq<[PreIndexInfo; 3]>, i: int, j: int)
    requires
        0 <= i <= j <= fs.len(),
    ensures
        normal_faces(fs, i).len() <= normal_faces(fs, j).len(),
    decreases j - i,
{
    if i < j {
        lemma_normals_grow(fs, i, j - 1);
    }
}

proof fn lemma_uvs_grow(fs: Seq<[PreIndexInfo; 3]>, i: int, j: int)
    requires
        0 <= i <= j <= fs.len(),
    ensures
        uv_corners(fs, i).len() <= uv_corners(fs, j).len(),
    decreases j - i,
{
    if i < j {
        lemma_uvs_grow(fs, i, j - 1);
    }
}

proof fn lemma_missing_grow(f: [PreIndexInfo; 3], k: int, m: int)
    requires
        0 <= k <= m <= 3,
    ensures
        missing_uvs(f, k) <= missing_uvs(f, m),
    decreases m - k,
{
    if k < m {
        lemma_missing_grow(f, k, m - 1);
    }
}

/// Faces that pass validation complete to corners that all name items: a
/// vertex read, and a uv and a normal either read or among those generated.
pub proof fn lemma_completed_in_range(fs: Seq<[PreIndexInfo; 3]>, nv: int, nt: int, nn: int)
    requires
        first_fault(fs, nv, nt, nn) is None,
        0 <= nt,
        0 <= nn,
        nt + 3 * fs.len() <= u32::MAX,
        nn + fs.len() <= u32::MAX,
    ensures
        forall|i: int, k: int|
            0 <= i < fs.len() && 0 <= k < 3 ==> {
                let c = #[trigger] completed_corner(fs, i, k, nt, nn);
                &&& (c.vert as int) < nv
                &&& (c.uv as int) < nt + uv_corners(fs, fs.len() as int).len()
                &&& (c.norm as int) < nn + normal_faces(fs, fs.len() as int).len()
            },
{
    assert forall|i: int, k: int| 0 <= i < fs.len() && 0 <= k < 3 implies {
        let c = #[trigger] completed_corner(fs, i, k, nt, nn);
        &&& (c.vert as int) < nv
        &&& (c.uv as int) < nt + uv_corners(fs, fs.len() as int).len()
        &&& (c.norm as int) < nn + normal_faces(fs, fs.len() as int).len()
    } by {
        let f = fs[i];
        lemma_no_fault_each(fs, i, nv, nt, nn);
        lemma_counts_bounded(fs, i);
        lemma_normals_grow(fs, i + 1, fs.len() as int);
        lemma_uvs_grow(fs, i + 1, fs.len() as int);
        lemma_face_uv_len(f, i as usize, 3);
        lemma_face_uv_len(f, i as usize, k);
        lemma_missing_grow(f, k + 1, 3);
        assert(uv_corners(fs, i + 1) == uv_corners(fs, i) + face_uv_corners(f, i as usize, 3));
        if f@[k].norm is None {
            assert(needs_normal(f));
        }
    }
}

} // verus!
