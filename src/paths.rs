//! Resource ids and slash-separated paths: normalising separators, removing
//! parent components, joining to and stripping the executable's directory.

use vstd::prelude::*;

use vstd::string::*;

use crate::result::GameResult;
use crate::text::{chars_of, string_of};

verus! {

/// The separator written between path components.
pub const SEPARATOR: char = '/';

/// Characters accepted as separators in a resource id.
pub open spec fn is_id_separator(c: char) -> bool {
    c == '/' || c == '\\'
}

/// A resource id with every separator written as `SEPARATOR`.
pub open spec fn normalized_id(id: Seq<char>) -> Seq<char> {
    id.map_values(|c: char| if is_id_separator(c) { SEPARATOR } else { c })
}

/// Writes every separator of a resource id (either slash) as `SEPARATOR`,
/// keeping all other characters, empty components included.
pub fn normalize_id(id: String) -> (r: String)
    ensures
        r@ == normalized_id(id@),
{
    let cs = chars_of(id.as_str());
    let mut out: Vec<char> = Vec::new();
    let mut i: usize = 0;
    while i < cs.len()
        invariant
            cs@ == id@,
            i <= cs.len(),
            out@ == normalized_id(id@.take(i as int)),
        decreases cs.len() - i,
    {
        let c = cs[i];
        let d = if c == '/' || c == '\\' { SEPARATOR } else { c };
        out.push(d);
        assert(id@.take(i + 1) =~= id@.take(i as int).push(c));
        assert(normalized_id(id@.take(i + 1)) =~= normalized_id(id@.take(i as int)).push(d));
        i += 1;
    }
    assert(id@.take(i as int) =~= id@);
    string_of(&out)
}

/// The pieces of a path between its separators, empty ones included.
pub open spec fn pieces(s: Seq<char>) -> Seq<Seq<char>>
    decreases s.len(),
{
    if s.len() == 0 {
        seq![seq![]]
    } else {
        let p = pieces(s.drop_last());
        if s.last() == SEPARATOR {
            p.push(seq![])
        } else {
            p.update(p.len() - 1, p.last().push(s.last()))
        }
    }
}

pub proof fn lemma_pieces_nonempty(s: Seq<char>)
    ensures
        pieces(s).len() >= 1,
    decreases s.len(),
{
    if s.len() > 0 {
        lemma_pieces_nonempty(s.drop_last());
    }
}

pub open spec fn parent_piece() -> Seq<char> {
    seq!['.', '.']
}

pub open spec fn current_piece() -> Seq<char> {
    seq!['.']
}

/// One component folded into the resolved path (`stack`, and whether the
/// root of an absolute path can still absorb a parent). Empty pieces and `.`
/// are dropped, except `.` at the very start; a parent removes the component
/// before it, is absorbed by the root, or is kept when there is nothing to
/// remove.
pub open spec fn resolve_step(st: (Seq<Seq<char>>, bool), piece: Seq<char>, first: bool) -> (
    Seq<Seq<char>>,
    bool,
) {
    let (stack, root) = st;
    if piece.len() == 0 || (piece == current_piece() && !first) {
        st
    } else if piece == parent_piece() {
        if stack.len() > 0 && stack.last() != parent_piece() {
            (stack.drop_last(), root)
        } else if stack.len() == 0 && root {
            (stack, false)
        } else {
            (stack.push(piece), root)
        }
    } else {
        (stack.push(piece), root)
    }
}

/// The resolved components after folding `ps` in order.
pub open spec fn resolve(ps: Seq<Seq<char>>, root: bool) -> (Seq<Seq<char>>, bool)
    decreases ps.len(),
{
    if ps.len() == 0 {
        (seq![], root)
    } else {
        resolve_step(resolve(ps.drop_last(), root), ps.last(), ps.len() == 1)
    }
}

/// Components joined by `SEPARATOR`.
pub open spec fn join_pieces(ps: Seq<Seq<char>>) -> Seq<char>
    decreases ps.len(),
{
    if ps.len() == 0 {
        seq![]
    } else if ps.len() == 1 {
        ps[0]
    } else {
        join_pieces(ps.drop_last()) + seq![SEPARATOR] + ps.last()
    }
}

pub open spec fn is_absolute(p: Seq<char>) -> bool {
    p.len() > 0 && p[0] == SEPARATOR
}

/// A path with every parent component that follows a named one removed
/// together with it.
pub open spec fn without_parents(p: Seq<char>) -> Seq<char> {
    let stack = resolve(pieces(p), is_absolute(p)).0;
    if is_absolute(p) {
        seq![SEPARATOR] + join_pieces(stack)
    } else {
        join_pieces(stack)
    }
}

fn is_piece(v: &Vec<char>, dots: usize) -> (r: bool)
    requires
        dots == 1 || dots == 2,
    ensures
        r == (v@ == if dots == 1 { current_piece() } else { parent_piece() }),
{
    if v.len() != dots {
        return false;
    }
    let mut i: usize = 0;
    while i < dots
        invariant
            v.len() == dots,
            i <= dots,
            forall|k: int| 0 <= k < i ==> v@[k] == '.',
        decreases dots - i,
    {
        if v[i] != '.' {
            return false;
        }
        i += 1;
    }
    assert(v@ =~= if dots == 1 { current_piece() } else { parent_piece() });
    true
}

pub open spec fn views(st: Seq<Vec<char>>) -> Seq<Seq<char>> {
    st.map_values(|v: Vec<char>| v@)
}

fn resolve_piece(stack: &mut Vec<Vec<char>>, root: &mut bool, piece: Vec<char>, first: bool)
    ensures
        (views(final(stack)@), *final(root)) == resolve_step(
            (views(old(stack)@), *old(root)),
            piece@,
            first,
        ),
{
    let ghost st0 = views(stack@);
    if piece.len() == 0 || (!first && is_piece(&piece, 1)) {
        return;
    }
    if is_piece(&piece, 2) {
        let n = stack.len();
        if n > 0 && !is_piece(&stack[n - 1], 2) {
            stack.pop();
            assert(views(stack@) =~= st0.drop_last());
        } else if n == 0 && *root {
            *root = false;
        } else {
            stack.push(piece);
            assert(views(stack@) =~= st0.push(parent_piece()));
        }
    } else {
        let ghost pv = piece@;
        stack.push(piece);
        assert(views(stack@) =~= st0.push(pv));
    }
}

fn join_with_separator(stack: &Vec<Vec<char>>, out: &mut Vec<char>)
    ensures
        final(out)@ == old(out)@ + join_pieces(views(stack@)),
{
    let ghost out0 = out@;
    let mut i: usize = 0;
    while i < stack.len()
        invariant
            i <= stack.len(),
            out@ == out0 + join_pieces(views(stack@).take(i as int)),
        decreases stack.len() - i,
    {
        if i > 0 {
            out.push(SEPARATOR);
        }
        let piece = &stack[i];
        let mut j: usize = 0;
        let ghost mid = out@;
        while j < piece.len()
            invariant
                j <= piece.len(),
                out@ == mid + piece@.take(j as int),
            decreases piece.len() - j,
        {
            out.push(piece[j]);
            assert(piece@.take(j + 1) =~= piece@.take(j as int).push(piece@[j as int]));
            j += 1;
        }
        proof {
            let vs = views(stack@);
            assert(piece@.take(j as int) =~= piece@);
            assert(vs.take(i + 1).drop_last() =~= vs.take(i as int));
            if i == 0 {
                assert(vs.take(1) =~= seq![piece@]);
                assert(out@ =~= out0 + join_pieces(vs.take(i + 1)));
            } else {
                assert(out@ =~= out0 + join_pieces(vs.take(i + 1)));
            }
        }
        i += 1;
    }
    assert(views(stack@).take(i as int) =~= views(stack@));
}

/// Splits a path into its pieces between separators, empty ones included.
pub(crate) fn split_pieces(p: &str) -> (r: Vec<Vec<char>>)
    ensures
        views(r@) == pieces(p@),
{
    let cs = chars_of(p);
    let mut done: Vec<Vec<char>> = Vec::new();
    let mut cur: Vec<char> = Vec::new();
    let mut i: usize = 0;
    while i < cs.len()
        invariant
            cs@ == p@,
            i <= cs.len(),
            pieces(p@.take(i as int)) == views(done@).push(cur@),
        decreases cs.len() - i,
    {
        let c = cs[i];
        assert(p@.take(i + 1).drop_last() =~= p@.take(i as int));
        if c == SEPARATOR {
            let ghost before = views(done@);
            let ghost piece = cur@;
            done.push(cur);
            cur = Vec::new();
            assert(views(done@) =~= before.push(piece));
            assert(pieces(p@.take(i + 1)) =~= views(done@).push(cur@));
        } else {
            cur.push(c);
            assert(pieces(p@.take(i + 1)) =~= views(done@).push(cur@));
        }
        i += 1;
    }
    assert(p@.take(i as int) =~= p@);
    let ghost before = views(done@);
    let ghost piece = cur@;
    done.push(cur);
    assert(views(done@) =~= before.push(piece));
    done
}

/// Whether a path starts at the root.
pub fn is_absolute_path(p: &str) -> (r: bool)
    ensures
        r == is_absolute(p@),
{
    let cs = chars_of(p);
    cs.len() > 0 && cs[0] == SEPARATOR
}

/// Removes every parent component (`..`) that follows a named component,
/// together with that component, and drops empty and `.` components (a
/// leading `.` is kept). Parents with nothing before them to remove are kept;
/// the root of an absolute path absorbs one.
pub fn remove_parents(p: &str) -> (r: String)
    ensures
        r@ == without_parents(p@),
{
    let absolute = is_absolute_path(p);
    let mut ps = split_pieces(p);
    let ghost all = views(ps@);
    let mut stack: Vec<Vec<char>> = Vec::new();
    let mut root = absolute;
    let mut k: usize = 0;
    let n = ps.len();
    while k < n
        invariant
            n == all.len(),
            k <= n,
            views(ps@) == all.skip(k as int),
            (views(stack@), root) == resolve(all.take(k as int), absolute),
        decreases n - k,
    {
        let ghost rest = views(ps@);
        assert(rest.len() == ps@.len());
        assert(rest[0] == ps@[0]@);
        assert(all.skip(k as int)[0] == all[k as int]);
        let piece = ps.remove(0);
        assert(views(ps@) =~= rest.skip(1));
        assert(all.take(k + 1).drop_last() =~= all.take(k as int));
        assert(all.take(k + 1).last() == all[k as int]);
        assert(piece@ == all[k as int]);
        resolve_piece(&mut stack, &mut root, piece, k == 0);
        assert(all.skip(k as int).skip(1) =~= all.skip(k + 1));
        k += 1;
    }
    assert(all.take(n as int) =~= all);
    let mut out: Vec<char> = Vec::new();
    if absolute {
        out.push(SEPARATOR);
    }
    join_with_separator(&stack, &mut out);
    proof {
        if absolute {
            assert(out@ =~= seq![SEPARATOR] + join_pieces(views(stack@)));
        } else {
            assert(out@ =~= join_pieces(views(stack@)));
        }
    }
    string_of(&out)
}

/// Whether a piece names a component: empty pieces and `.` are dropped, but
/// a `.` that starts the path is kept.
pub open spec fn keeps_piece(piece: Seq<char>, first: bool) -> bool {
    piece.len() > 0 && (piece != current_piece() || first)
}

/// The components named by a path's pieces.
pub open spec fn components(ps: Seq<Seq<char>>) -> Seq<Seq<char>>
    decreases ps.len(),
{
    if ps.len() == 0 {
        seq![]
    } else {
        let c = components(ps.drop_last());
        if keeps_piece(ps.last(), ps.len() == 1) {
            c.push(ps.last())
        } else {
            c
        }
    }
}

/// The components of a path.
pub open spec fn path_components(p: Seq<char>) -> Seq<Seq<char>> {
    components(pieces(p))
}

pub(crate) fn same_chars(a: &Vec<char>, b: &Vec<char>) -> (r: bool)
    ensures
        r == (a@ == b@),
{
    if a.len() != b.len() {
        return false;
    }
    let mut i: usize = 0;
    while i < a.len()
        invariant
            a.len() == b.len(),
            i <= a.len(),
            forall|k: int| 0 <= k < i ==> a@[k] == b@[k],
        decreases a.len() - i,
    {
        if a[i] != b[i] {
            return false;
        }
        i += 1;
    }
    assert(a@ =~= b@);
    true
}

fn component_list(p: &str) -> (r: Vec<Vec<char>>)
    ensures
        views(r@) == path_components(p@),
{
    let mut ps = split_pieces(p);
    let ghost all = views(ps@);
    let n = ps.len();
    let mut comps: Vec<Vec<char>> = Vec::new();
    let mut k: usize = 0;
    while k < n
        invariant
            n == all.len(),
            k <= n,
            views(ps@) == all.skip(k as int),
            views(comps@) == components(all.take(k as int)),
        decreases n - k,
    {
        let ghost rest = views(ps@);
        assert(rest.len() == ps@.len());
        assert(rest[0] == ps@[0]@);
        assert(all.skip(k as int)[0] == all[k as int]);
        let piece = ps.remove(0);
        assert(views(ps@) =~= rest.skip(1));
        assert(all.skip(k as int).skip(1) =~= all.skip(k + 1));
        assert(all.take(k + 1).drop_last() =~= all.take(k as int));
        assert(all.take(k + 1).last() == all[k as int]);
        if piece.len() > 0 && (k == 0 || !is_piece(&piece, 1)) {
            let ghost before = views(comps@);
            let ghost pv = piece@;
            comps.push(piece);
            assert(views(comps@) =~= before.push(pv));
        }
        k += 1;
    }
    assert(all.take(n as int) =~= all);
    comps
}

/// `exe_dir` with the components of `p` appended, or the root with them when
/// `p` is absolute.
pub open spec fn joined_to_dir(exe_dir: Seq<char>, p: Seq<char>) -> Seq<char> {
    let base = if is_absolute(p) { seq![SEPARATOR] } else { exe_dir };
    let comps = path_components(p);
    if comps.len() > 0 && base.len() > 0 && base.last() != SEPARATOR {
        base + seq![SEPARATOR] + join_pieces(comps)
    } else {
        base + join_pieces(comps)
    }
}

/// Appends the components of `p` to the directory `exe_dir`.
pub fn join_exe_dir(exe_dir: &str, p: &str) -> (r: String)
    ensures
        r@ == joined_to_dir(exe_dir@, p@),
{
    let comps = component_list(p);
    let mut out: Vec<char> = if is_absolute_path(p) {
        let mut v: Vec<char> = Vec::new();
        v.push(SEPARATOR);
        assert(v@ =~= seq![SEPARATOR]);
        v
    } else {
        chars_of(exe_dir)
    };
    let blen = out.len();
    if comps.len() > 0 && blen > 0 && out[blen - 1] != SEPARATOR {
        out.push(SEPARATOR);
    }
    join_with_separator(&comps, &mut out);
    string_of(&out)
}

/// The rest of `p` after the components of `dir`, when `p` starts with them
/// (both absolute or both relative).
pub open spec fn stripped(p: Seq<char>, dir: Seq<char>) -> Option<Seq<char>> {
    let cp = path_components(p);
    let cd = path_components(dir);
    if is_absolute(p) == is_absolute(dir) && cd.len() <= cp.len() && cp.take(cd.len() as int)
        == cd {
        Some(join_pieces(cp.skip(cd.len() as int)))
    } else {
        None
    }
}

/// The message reporting that `p` does not lie under `dir`.
pub open spec fn not_under_message(p: Seq<char>, dir: Seq<char>) -> Seq<char> {
    "Strip prefix didn't work on path (prefix not found): "@ + p + " (executable dir: "@ + dir
        + ")"@
}

/// The path `p` relative to the executable's directory `exe_dir`, failing
/// when `p` does not lie under it.
pub fn relative_exe(p: &str, exe_dir: &str) -> (r: GameResult<String>)
    ensures
        match stripped(p@, exe_dir@) {
            Some(rest) => r.0 matches Ok(s) && s@ == rest,
            None => r.0 matches Err(e) && e@ == not_under_message(p@, exe_dir@),
        },
{
    let cp = component_list(p);
    let cd = component_list(exe_dir);
    let prefix_ok = is_absolute_path(p) == is_absolute_path(exe_dir) && cd.len() <= cp.len();
    let mut same = true;
    let mut i: usize = 0;
    if prefix_ok {
        while i < cd.len() && same
            invariant
                cd.len() <= cp.len(),
                i <= cd.len(),
                same ==> forall|k: int| 0 <= k < i ==> views(cp@)[k] == views(cd@)[k],
                !same ==> i > 0 && views(cp@)[i - 1] != views(cd@)[i - 1],
            decreases cd.len() - i,
        {
            if !same_chars(&cp[i], &cd[i]) {
                same = false;
            }
            i += 1;
        }
    }
    let under = prefix_ok && same;
    proof {
        let vp = path_components(p@);
        let vd = path_components(exe_dir@);
        if under {
            assert(vp.take(vd.len() as int) =~= vd);
        } else if prefix_ok {
            assert(vp.take(vd.len() as int)[i - 1] != vd[i - 1]);
        }
    }
    if !under {
        let mut e = String::from_str("Strip prefix didn't work on path (prefix not found): ");
        e.append(p);
        e.append(" (executable dir: ");
        e.append(exe_dir);
        e.append(")");
        return GameResult(Err(e));
    }
    let mut rest: Vec<Vec<char>> = cp;
    let mut k: usize = 0;
    let m = cd.len();
    let ghost full = views(rest@);
    while k < m
        invariant
            m <= full.len(),
            k <= m,
            views(rest@) == full.skip(k as int),
        decreases m - k,
    {
        let ghost before = views(rest@);
        assert(before.len() == rest@.len());
        rest.remove(0);
        assert(views(rest@) =~= before.skip(1));
        assert(full.skip(k as int).skip(1) =~= full.skip(k + 1));
        k += 1;
    }
    let mut out: Vec<char> = Vec::new();
    join_with_separator(&rest, &mut out);
    assert(out@ =~= join_pieces(path_components(p@).skip(m as int)));
    GameResult(Ok(string_of(&out)))
}

} // verus!
