//! Reading the arguments of line-oriented asset files: the parser state that
//! names a position in the file, a cursor over a command's arguments, and
//! readers for one or several arguments.

use vstd::prelude::*;
use vstd::string::*;

use crate::result::GameResult;
use crate::paths::{is_absolute, remove_parents, same_chars, without_parents};
use crate::text::{decimal, decimal_string};

verus! {

/// Where a line-oriented parser stands: the command being read, its line
/// number, and the file it comes from (as given, and relative to the
/// executable).
pub struct ParseState {
    pub command: String,
    pub lno: usize,
    pub path: String,
    pub rel_path: String,
}

impl ParseState {
    /// The state at `command` on line `lno` of the file at `path`.
    pub fn new(command: String, lno: usize, path: String, rel_path: String) -> (r: ParseState)
        ensures
            r.command == command,
            r.lno == lno,
            r.path == path,
            r.rel_path == rel_path,
    {
        ParseState { command, lno, path, rel_path }
    }

    /// The text of `to_error`.
    pub open spec fn error_message(&self) -> Seq<char> {
        "Invalid command format `"@ + self.command@ + "` at "@ + self.path@ + ":"@ + decimal(
            self.lno as nat,
        )
    }

    /// The message reporting a malformed command at this position.
    pub fn to_error(&self) -> (r: String)
        ensures
            r@ == self.error_message(),
    {
        let mut r = String::from_str("Invalid command format `");
        r.append(self.command.as_str());
        r.append("` at ");
        r.append(self.path.as_str());
        r.append(":");
        let n = decimal_string(self.lno);
        r.append(n.as_str());
        r
    }
}

/// The arguments of a command, read front to back.
pub struct Tokens {
    pub items: Vec<String>,
    pub pos: usize,
}

impl Tokens {
    /// The cursor stands within the arguments or just after them.
    pub open spec fn wf(&self) -> bool {
        self.pos <= self.items.len()
    }

    /// A cursor at the first of `items`.
    pub fn new(items: Vec<String>) -> (r: Tokens)
        ensures
            r.items == items,
            r.pos == 0,
            r.wf(),
    {
        Tokens { items, pos: 0 }
    }

    /// The next argument, without consuming it.
    pub fn peek(&self) -> (r: Option<&String>)
        requires
            self.wf(),
        ensures
            self.pos < self.items.len() ==> r == Some(&self.items@[self.pos as int]),
            self.pos == self.items.len() ==> r is None,
    {
        if self.pos < self.items.len() {
            Some(&self.items[self.pos])
        } else {
            None
        }
    }

    /// Consumes the next argument, if any.
    pub fn next(&mut self) -> (r: Option<&String>)
        requires
            old(self).wf(),
        ensures
            final(self).wf(),
            final(self).items == old(self).items,
            old(self).pos < old(self).items.len() ==> r == Some(&old(self).items@[old(self).pos as int])
                && final(self).pos == old(self).pos + 1,
            old(self).pos == old(self).items.len() ==> r is None && final(self).pos == old(self).pos,
    {
        if self.pos < self.items.len() {
            let i = self.pos;
            self.pos = i + 1;
            Some(&self.items[i])
        } else {
            None
        }
    }
}

/// Parses the next argument with `parse`. Fails with the state's error when
/// there is no argument left or `parse` rejects it; the argument is consumed
/// when there is one.
pub fn parse1<F, P: Fn(&String) -> Option<F>>(st: &ParseState, it: &mut Tokens, parse: &P) -> (r:
    GameResult<F>)
    requires
        old(it).wf(),
        forall|s: &String| parse.requires((s,)),
    ensures
        final(it).wf(),
        final(it).items == old(it).items,
        old(it).pos == old(it).items.len() ==> final(it).pos == old(it).pos && (r.0 matches Err(e)
            && e@ == st.error_message()),
        old(it).pos < old(it).items.len() ==> final(it).pos == old(it).pos + 1 && match r.0 {
            Ok(v) => parse.ensures((&old(it).items@[old(it).pos as int],), Some(v)),
            Err(e) => e@ == st.error_message() && parse.ensures(
                (&old(it).items@[old(it).pos as int],),
                None,
            ),
        },
{
    if it.pos >= it.items.len() {
        return GameResult(Err(st.to_error()));
    }
    let i = it.pos;
    it.pos = i + 1;
    match parse(&it.items[i]) {
        Some(v) => GameResult(Ok(v)),
        None => GameResult(Err(st.to_error())),
    }
}

/// Parses the next argument with `parse`, which must be the last one. Fails
/// with the state's error when there is no argument, when another follows it,
/// or when `parse` rejects it; the argument is consumed when there is one.
pub fn parse1_only<F, P: Fn(&String) -> Option<F>>(
    st: &ParseState,
    it: &mut Tokens,
    parse: &P,
) -> (r: GameResult<F>)
    requires
        old(it).wf(),
        forall|s: &String| parse.requires((s,)),
    ensures
        final(it).wf(),
        final(it).items == old(it).items,
        old(it).pos == old(it).items.len() ==> final(it).pos == old(it).pos && (r.0 matches Err(e)
            && e@ == st.error_message()),
        old(it).pos + 1 < old(it).items.len() ==> final(it).pos == old(it).pos + 1 && (r.0 matches Err(
            e,
        ) && e@ == st.error_message()),
        old(it).pos + 1 == old(it).items.len() ==> final(it).pos == old(it).pos + 1 && match r.0 {
            Ok(v) => parse.ensures((&old(it).items@[old(it).pos as int],), Some(v)),
            Err(e) => e@ == st.error_message() && parse.ensures(
                (&old(it).items@[old(it).pos as int],),
                None,
            ),
        },
{
    if it.pos >= it.items.len() {
        return GameResult(Err(st.to_error()));
    }
    let i = it.pos;
    it.pos = i + 1;
    if it.pos < it.items.len() {
        return GameResult(Err(st.to_error()));
    }
    match parse(&it.items[i]) {
        Some(v) => GameResult(Ok(v)),
        None => GameResult(Err(st.to_error())),
    }
}

/// Parses the next argument with `parse` if there is one and `parse` accepts
/// it, consuming it only then.
pub fn parse1_opt<F, P: Fn(&String) -> Option<F>>(it: &mut Tokens, parse: &P) -> (r: Option<F>)
    requires
        old(it).wf(),
        forall|s: &String| parse.requires((s,)),
    ensures
        final(it).wf(),
        final(it).items == old(it).items,
        old(it).pos == old(it).items.len() ==> r is None && final(it).pos == old(it).pos,
        old(it).pos < old(it).items.len() ==> parse.ensures(
            (&old(it).items@[old(it).pos as int],),
            r,
        ) && final(it).pos == if r is Some {
            old(it).pos + 1
        } else {
            old(it).pos as int
        },
{
    if it.pos >= it.items.len() {
        return None;
    }
    let i = it.pos;
    let a = parse(&it.items[i]);
    if a.is_some() {
        it.pos = i + 1;
    }
    a
}

/// `parse` accepted the arguments `start .. start + vs.len()` as `vs`.
pub open spec fn parsed_run<F, P: Fn(&String) -> Option<F>>(
    items: Seq<String>,
    start: int,
    vs: Seq<F>,
    parse: P,
) -> bool {
    &&& 0 <= start
    &&& start + vs.len() <= items.len()
    &&& forall|k: int| 0 <= k < vs.len() ==> parse.ensures((&items[start + k],), Some(#[trigger] vs[k]))
}

/// `parse` may reject one of the arguments `start .. start + n`.
pub open spec fn may_reject<F, P: Fn(&String) -> Option<F>>(
    items: Seq<String>,
    start: int,
    n: int,
    parse: P,
) -> bool {
    exists|j: int| start <= j < start + n && parse.ensures((#[trigger] &items[j],), None)
}

/// Parses the next `n` arguments with `parse`, stopping at the first failure
/// (no argument left, or one that `parse` rejects) with the state's error.
pub fn parseN<F, P: Fn(&String) -> Option<F>>(
    st: &ParseState,
    n: usize,
    it: &mut Tokens,
    parse: &P,
) -> (r: GameResult<Vec<F>>)
    requires
        old(it).wf(),
        forall|s: &String| parse.requires((s,)),
    ensures
        final(it).wf(),
        final(it).items == old(it).items,
        old(it).pos + n > old(it).items.len() ==> r.0 is Err,
        old(it).pos + n <= old(it).items.len() && !may_reject(
            old(it).items@,
            old(it).pos as int,
            n as int,
            *parse,
        ) ==> r.0 is Ok,
        match r.0 {
            Ok(vs) => vs@.len() == n && final(it).pos == old(it).pos + n && parsed_run(
                old(it).items@,
                old(it).pos as int,
                vs@,
                *parse,
            ),
            Err(e) => e@ == st.error_message(),
        },
{
    let mut ret: Vec<F> = Vec::new();
    let ghost start = it.pos as int;
    let mut k: usize = 0;
    while k < n
        invariant
            it.wf(),
            it.items == old(it).items,
            forall|s: &String| parse.requires((s,)),
            k <= n,
            ret@.len() == k,
            it.pos == start + k,
            start == old(it).pos,
            parsed_run(it.items@, start, ret@, *parse),
        decreases n - k,
    {
        let ghost before = ret@;
        let v = parse1(st, it, parse);
        match v.0 {
            Ok(v) => {
                ret.push(v);
                assert(ret@.drop_last() == before);
                assert forall|j: int| 0 <= j < ret@.len() implies parse.ensures(
                    (&it.items@[start + j],),
                    Some(#[trigger] ret@[j]),
                ) by {
                    if j < before.len() {
                        assert(ret@[j] == before[j]);
                    }
                }
            },
            Err(e) => {
                proof {
                    if start + n <= it.items@.len() {
                        let j = start + k;
                        assert(parse.ensures((&it.items@[j],), None));
                    }
                }
                return GameResult(Err(e));
            },
        }
        k += 1;
    }
    GameResult(Ok(ret))
}

/// Parses exactly `n` further arguments with `parse`: the last of them must
/// be the last argument. Fails with the state's error at the first argument
/// missing, rejected, or followed by another where it should be the last.
pub fn parseN_only<F, P: Fn(&String) -> Option<F>>(
    st: &ParseState,
    n: usize,
    it: &mut Tokens,
    parse: &P,
) -> (r: GameResult<Vec<F>>)
    requires
        n >= 1,
        old(it).wf(),
        forall|s: &String| parse.requires((s,)),
    ensures
        final(it).wf(),
        final(it).items == old(it).items,
        old(it).pos + n != old(it).items.len() ==> r.0 is Err,
        old(it).pos + n == old(it).items.len() && !may_reject(
            old(it).items@,
            old(it).pos as int,
            n as int,
            *parse,
        ) ==> r.0 is Ok,
        match r.0 {
            Ok(vs) => vs@.len() == n && final(it).pos == old(it).items.len() && old(it).pos + n
                == old(it).items.len() && parsed_run(old(it).items@, old(it).pos as int, vs@, *parse),
            Err(e) => e@ == st.error_message(),
        },
{
    let first = parseN(st, n - 1, it, parse);
    let mut ret = match first.0 {
        Ok(vs) => vs,
        Err(e) => {
            proof {
                if old(it).pos + n == old(it).items.len() {
                    let j = choose|j: int|
                        old(it).pos <= j < old(it).pos + n - 1 && parse.ensures(
                            (#[trigger] &old(it).items@[j],),
                            None,
                        );
                    assert(old(it).pos <= j < old(it).pos + n);
                }
            }
            return GameResult(Err(e));
        },
    };
    let ghost before = ret@;
    let last = parse1_only(st, it, parse);
    match last.0 {
        Ok(v) => {
            ret.push(v);
            assert(ret@.drop_last() == before);
            assert forall|j: int| 0 <= j < ret@.len() implies parse.ensures(
                (&old(it).items@[old(it).pos + j],),
                Some(#[trigger] ret@[j]),
            ) by {
                if j < before.len() {
                    assert(ret@[j] == before[j]);
                }
            }
            GameResult(Ok(ret))
        },
        Err(e) => {
            proof {
                if old(it).pos + n == old(it).items.len() {
                    let j = old(it).pos + n - 1;
                    assert(parse.ensures((&old(it).items@[j],), None));
                }
            }
            GameResult(Err(e))
        },
    }
}

/// The path `id` names when written in the file at `rel`: beside that file.
pub open spec fn beside(rel: Seq<char>, id: Seq<char>) -> Seq<char> {
    if rel.len() == 0 {
        "../"@ + id
    } else {
        rel + "/../"@ + id
    }
}

/// The texture path for `id` as written in the material file being read: an
/// absolute `id` is kept; a relative one is resolved beside that file (its
/// `rel_path`), with parent components removed.
pub open spec fn texture_path(rel: Seq<char>, id: Seq<char>) -> Seq<char> {
    if is_absolute(id) {
        id
    } else {
        without_parents(beside(rel, id))
    }
}

pub fn parse_texture_path(state: &ParseState, id: &str) -> (r: String)
    ensures
        r@ == texture_path(state.rel_path@, id@),
{
    let cs = crate::text::chars_of(id);
    if cs.len() > 0 && cs[0] == crate::paths::SEPARATOR {
        return String::from_str(id);
    }
    let mut joined = if state.rel_path.as_str().unicode_len() == 0 {
        String::from_str("../")
    } else {
        let mut j = state.rel_path.clone();
        j.append("/../");
        j
    };
    joined.append(id);
    remove_parents(joined.as_str())
}

/// Whether `s` is the word `w`.
pub fn word_is(s: &String, w: &str) -> (r: bool)
    ensures
        r == (s@ == w@),
{
    let a = crate::text::chars_of(s.as_str());
    let b = crate::text::chars_of(w);
    same_chars(&a, &b)
}

} // verus!
