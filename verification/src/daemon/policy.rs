//! Tool execution policy: file tools the daemon delegates may touch only
//! paths inside the workspace the user picked.
//!
//! Three defences, each against a different attack:
//!   1) absolute paths are refused — only paths relative to the workspace;
//!   2) `..` components are refused (`.` is ignored), and so are a root or a
//!      drive prefix on a path that is not absolute;
//!   3) the parent directory is canonicalised and must lie under the
//!      canonical workspace (no escape through a symbolic link).
//! A new file's parent must exist, so the check goes by the parent.
//!
//! Paths are read with the platform's separator `sep` (`/` on Unix, `\` on
//! Windows, where `/` separates components too); a drive prefix (`C:`) and
//! a path that starts with two separators (`\\server\share`, `\\?\C:\..`)
//! exist only where `sep` is `\`.

use vstd::prelude::*;
use crate::seqs::{keep, lemma_keep_push};
use crate::text::{chars_of, pieces, push_char, push_str, split_on, to_string};

verus! {

/// Whether `c` separates path components.
pub open spec fn is_sep(c: char, sep: char) -> bool {
    c == '/' || c == sep
}

/// `s` with each platform separator read as `/`.
pub open spec fn norm(s: Seq<char>, sep: char) -> Seq<char> {
    s.map_values(|c: char| if c == sep { '/' } else { c })
}

/// The pieces of `s` between separators (`"a//b/"` → `a`, ``, `b`, ``).
pub open spec fn segments(s: Seq<char>, sep: char) -> Seq<Seq<char>> {
    pieces(norm(s, sep), '/')
}

/// A piece that names something: not empty and not `.`.
pub open spec fn is_name(seg: Seq<char>) -> bool {
    seg.len() > 0 && seg != seq!['.']
}

/// The named components of a path (what `Path::components` yields as
/// normal components).
pub open spec fn path_parts(s: Seq<char>, sep: char) -> Seq<Seq<char>> {
    keep(segments(s, sep), |seg: Seq<char>| is_name(seg))
}

/// The path starts at a root: its first character is a separator.
pub open spec fn is_rooted(s: Seq<char>, sep: char) -> bool {
    s.len() > 0 && is_sep(s[0], sep)
}

/// A drive prefix (`C:`), which Windows paths have.
pub open spec fn is_drive(s: Seq<char>, sep: char) -> bool {
    &&& sep == '\\'
    &&& s.len() >= 2
    &&& s[1] == ':'
    &&& (('a' <= s[0] && s[0] <= 'z') || ('A' <= s[0] && s[0] <= 'Z'))
}

/// `Path::is_absolute`: on Windows a prefix with a root (`C:\`, or two
/// leading separators: a UNC, device or verbatim path); elsewhere a root.
pub open spec fn is_absolute(s: Seq<char>, sep: char) -> bool {
    if sep == '\\' {
        ||| s.len() >= 2 && is_sep(s[0], sep) && is_sep(s[1], sep)
        ||| is_drive(s, sep) && s.len() >= 3 && is_sep(s[2], sep)
    } else {
        is_rooted(s, sep)
    }
}

/// `p` lies under `base`, component by component.
pub open spec fn path_under(p: Seq<char>, base: Seq<char>, sep: char) -> bool {
    &&& is_rooted(p, sep) == is_rooted(base, sep)
    &&& path_parts(base, sep).len() <= path_parts(p, sep).len()
    &&& path_parts(p, sep).take(path_parts(base, sep).len() as int) == path_parts(base, sep)
}

/// `base` joined with the relative component `name` (`PathBuf::join`).
pub open spec fn join(base: Seq<char>, name: Seq<char>, sep: char) -> Seq<char> {
    if base.len() > 0 && is_sep(base.last(), sep) {
        base + name
    } else {
        base + seq![sep] + name
    }
}

/// `base` joined with each of `names` in turn.
pub open spec fn join_all(base: Seq<char>, names: Seq<Seq<char>>, sep: char) -> Seq<char>
    decreases names.len(),
{
    if names.len() == 0 {
        base
    } else {
        join(join_all(base, names.drop_last(), sep), names.last(), sep)
    }
}

/// The outcome of the lexical checks on a requested path.
pub open spec fn relative_outcome(requested: Seq<char>, sep: char) -> Result<
    Seq<Seq<char>>,
    Seq<char>,
> {
    if is_absolute(requested, sep) {
        Err("절대경로 거부: "@ + requested)
    } else if is_rooted(requested, sep) || is_drive(requested, sep) {
        Err("허용되지 않는 경로 컴포넌트: "@ + requested)
    } else if segments(requested, sep).contains(seq!['.', '.']) {
        Err("'..' 경로 거부: "@ + requested)
    } else {
        Ok(path_parts(requested, sep))
    }
}

/// Holds of the character that `std::path::MAIN_SEPARATOR` reads in this
/// build (see [`main_separator`]). Nothing else is known of it.
pub uninterp spec fn platform_separator(c: char) -> bool;

/// Holds of a path and an outcome that canonicalising the path gave (see
/// [`canonicalize`]). It is a relation, not a function: the file system can
/// change between calls, so one path may have several outcomes, and nothing
/// here says which.
pub uninterp spec fn canonical_outcome(p: Seq<char>, r: Result<Seq<char>, Seq<char>>) -> bool;

pub open spec fn result_view(r: Result<String, String>) -> Result<Seq<char>, Seq<char>> {
    match r {
        Ok(s) => Ok(s@),
        Err(e) => Err(e@),
    }
}

/// The last step of [`jail`] as a value: the file's path under the parent,
/// or the refusal when the parent lies outside the workspace.
pub open spec fn confined(
    ws_real: Seq<char>,
    parent_real: Seq<char>,
    name: Seq<char>,
    requested: Seq<char>,
    sep: char,
) -> Result<Seq<char>, Seq<char>> {
    if path_under(parent_real, ws_real, sep) {
        Ok(join(parent_real, name, sep))
    } else {
        Err("워크스페이스 밖 거부: "@ + requested)
    }
}

/// What [`jail`] gives once the workspace canonicalised to `ws_real`: the
/// workspace itself for an empty path; else the parent path built from
/// `ws_real` is canonicalised, and its failure, or the confinement of the
/// file under the canonical parent, is the answer.
pub open spec fn after_workspace(
    ws_real: Seq<char>,
    requested: Seq<char>,
    parts: Seq<Seq<char>>,
    sep: char,
    r: Result<Seq<char>, Seq<char>>,
) -> bool {
    if parts.len() == 0 {
        r == Ok::<Seq<char>, Seq<char>>(ws_real)
    } else {
        let parent = join_all(ws_real, parts.drop_last(), sep);
        ||| exists|io: Seq<char>|
            canonical_outcome(parent, Err(io)) && r == Err::<Seq<char>, Seq<char>>(
                "상위 디렉터리 없음("@ + parent + "): "@ + io,
            )
        ||| exists|parent_real: Seq<char>|
            canonical_outcome(parent, Ok(parent_real)) && r == confined(
                ws_real,
                parent_real,
                parts.last(),
                requested,
                sep,
            )
    }
}

/// The answer of [`jail`] with separator `sep`: the lexical refusal; or the
/// failure to canonicalise the workspace; or what follows from a canonical
/// workspace.
pub open spec fn jail_outcome(
    ws: Seq<char>,
    requested: Seq<char>,
    sep: char,
    r: Result<Seq<char>, Seq<char>>,
) -> bool {
    match relative_outcome(requested, sep) {
        Err(e) => r == Err::<Seq<char>, Seq<char>>(e),
        Ok(parts) => {
            ||| exists|io: Seq<char>|
                canonical_outcome(ws, Err(io)) && r == Err::<Seq<char>, Seq<char>>(
                    "워크스페이스 접근 불가("@ + ws + "): "@ + io,
                )
            ||| exists|ws_real: Seq<char>|
                canonical_outcome(ws, Ok(ws_real)) && after_workspace(
                    ws_real,
                    requested,
                    parts,
                    sep,
                    r,
                )
        },
    }
}

/// `std::path::MAIN_SEPARATOR`: the separator of path components on this
/// platform, which std documents as `/` on Unix and `\\` on Windows.
#[verifier::external_body]
fn main_separator() -> (r: char)
    ensures
        platform_separator(r),
        r == '/' || r == '\\',
{
    std::path::MAIN_SEPARATOR
}

/// Whether `c` separates path components.
fn sep_char(c: char, sep: char) -> (r: bool)
    ensures
        r == is_sep(c, sep),
{
    c == '/' || c == sep
}

/// `cs` with each platform separator turned into `/`.
fn unify(cs: &Vec<char>, sep: char) -> (r: Vec<char>)
    ensures
        r@ == norm(cs@, sep),
{
    let mut r: Vec<char> = Vec::new();
    let mut i: usize = 0;
    while i < cs.len()
        invariant
            i <= cs@.len(),
            r@.len() == i,
            forall|k: int|
                0 <= k < i ==> #[trigger] r@[k] == (if cs@[k] == sep {
                    '/'
                } else {
                    cs@[k]
                }),
        decreases cs@.len() - i,
    {
        if cs[i] == sep {
            r.push('/');
        } else {
            r.push(cs[i]);
        }
        i += 1;
    }
    assert(r@ =~= norm(cs@, sep));
    r
}

/// Whether the path `cs` is absolute.
fn absolute(cs: &Vec<char>, sep: char) -> (r: bool)
    ensures
        r == is_absolute(cs@, sep),
{
    if sep == '\\' {
        (cs.len() >= 2 && sep_char(cs[0], sep) && sep_char(cs[1], sep)) || (drive(cs, sep)
            && cs.len() >= 3 && sep_char(cs[2], sep))
    } else {
        cs.len() > 0 && sep_char(cs[0], sep)
    }
}

/// Whether the path `cs` starts with a drive prefix.
fn drive(cs: &Vec<char>, sep: char) -> (r: bool)
    ensures
        r == is_drive(cs@, sep),
{
    sep == '\\' && cs.len() >= 2 && cs[1] == ':' && (('a' <= cs[0] && cs[0] <= 'z') || ('A'
        <= cs[0] && cs[0] <= 'Z'))
}

/// Splits `cs` at every separator.
fn split_path(cs: &Vec<char>, sep: char) -> (r: Vec<String>)
    ensures
        r@.len() == segments(cs@, sep).len(),
        forall|i: int| 0 <= i < r@.len() ==> (#[trigger] r@[i])@ == segments(cs@, sep)[i],
{
    let u = unify(cs, sep);
    split_on(&u, '/')
}

/// The lexical checks: an absolute path is refused, then a root or a drive
/// prefix, then a `..` component; otherwise the named components (without
/// `.`) come back.
pub fn relative_parts(requested: &str, sep: char) -> (r: Result<Vec<String>, String>)
    ensures
        match relative_outcome(requested@, sep) {
            Ok(parts) => r is Ok && r->Ok_0@.len() == parts.len() && forall|i: int|
                0 <= i < parts.len() ==> (#[trigger] r->Ok_0@[i])@ == parts[i],
            Err(e) => r is Err && r->Err_0@ == e,
        },
{
    let cs = chars_of(requested);
    if absolute(&cs, sep) {
        let mut e = to_string("절대경로 거부: ");
        push_str(&mut e, requested);
        return Err(e);
    }
    if (cs.len() > 0 && sep_char(cs[0], sep)) || drive(&cs, sep) {
        let mut e = to_string("허용되지 않는 경로 컴포넌트: ");
        push_str(&mut e, requested);
        return Err(e);
    }
    let segs = split_path(&cs, sep);
    let ghost sv = segments(requested@, sep);
    let mut parts: Vec<String> = Vec::new();
    let mut i: usize = 0;
    while i < segs.len()
        invariant
            cs@ == requested@,
            !is_absolute(requested@, sep),
            !is_rooted(requested@, sep),
            !is_drive(requested@, sep),
            sv == segments(cs@, sep),
            segs@.len() == sv.len(),
            forall|k: int| 0 <= k < segs@.len() ==> (#[trigger] segs@[k])@ == sv[k],
            i <= segs@.len(),
            forall|k: int| 0 <= k < i ==> sv[k] != seq!['.', '.'],
            parts@.len() == keep(sv.take(i as int), |seg: Seq<char>| is_name(seg)).len(),
            forall|k: int|
                0 <= k < parts@.len() ==> (#[trigger] parts@[k])@ == keep(
                    sv.take(i as int),
                    |seg: Seq<char>| is_name(seg),
                )[k],
        decreases segs@.len() - i,
    {
        let sc = chars_of(segs[i].as_str());
        assert(sc@ == sv[i as int]);
        let is_up = sc.len() == 2 && sc[0] == '.' && sc[1] == '.';
        if is_up {
            assert(sv[i as int] =~= seq!['.', '.']);
            assert(sv.contains(seq!['.', '.']));
            let mut e = to_string("'..' 경로 거부: ");
            push_str(&mut e, requested);
            return Err(e);
        }
        assert(sv[i as int] != seq!['.', '.']) by {
            if sv[i as int] =~= seq!['.', '.'] {
                assert(sc@.len() == 2 && sc@[0] == '.' && sc@[1] == '.');
            }
        }
        let named = sc.len() > 0 && !(sc.len() == 1 && sc[0] == '.');
        assert(named == is_name(sv[i as int])) by {
            if sc@.len() == 1 && sc@[0] == '.' {
                assert(sv[i as int] =~= seq!['.']);
            }
            if sv[i as int] =~= seq!['.'] {
                assert(sc@.len() == 1);
            }
        }
        proof {
            assert(sv.take(i + 1) =~= sv.take(i as int).push(sv[i as int]));
            lemma_keep_push(sv.take(i as int), sv[i as int], |seg: Seq<char>| is_name(seg));
        }
        if named {
            parts.push(segs[i].clone());
        }
        i += 1;
    }
    assert(sv.take(sv.len() as int) =~= sv);
    assert(!sv.contains(seq!['.', '.'])) by {
        if sv.contains(seq!['.', '.']) {
            let k = choose|k: int| 0 <= k < sv.len() && sv[k] == seq!['.', '.'];
            assert(sv[k] != seq!['.', '.']);
        }
    }
    Ok(parts)
}

/// `base` joined with the relative component `name`.
fn join_name(base: &str, name: &str, sep: char) -> (r: String)
    ensures
        r@ == join(base@, name@, sep),
{
    let bc = chars_of(base);
    let mut out = to_string(base);
    if !(bc.len() > 0 && sep_char(bc[bc.len() - 1], sep)) {
        push_char(&mut out, sep);
    }
    push_str(&mut out, name);
    out
}

/// The views of a list of strings.
pub open spec fn texts(v: Seq<String>) -> Seq<Seq<char>> {
    v.map_values(|s: String| s@)
}

/// The canonical workspace `ws_real` joined with the first `n` components.
pub fn parent_path(ws_real: &str, parts: &Vec<String>, n: usize, sep: char) -> (r: String)
    requires
        n <= parts@.len(),
    ensures
        r@ == join_all(ws_real@, texts(parts@).take(n as int), sep),
{
    let mut parent = to_string(ws_real);
    let mut i: usize = 0;
    while i < n
        invariant
            i <= n <= parts@.len(),
            parent@ == join_all(ws_real@, texts(parts@).take(i as int), sep),
        decreases n - i,
    {
        parent = join_name(parent.as_str(), parts[i].as_str(), sep);
        proof {
            let t = texts(parts@).take(i + 1);
            assert(t.drop_last() =~= texts(parts@).take(i as int));
            assert(t.last() == parts@[i as int]@);
        }
        i += 1;
    }
    parent
}

/// `Path::canonicalize`: the canonical, absolute form of an existing path
/// with every symbolic link resolved, or the text of the I/O error. What
/// comes back depends on the file system and the platform; the contract
/// claims only that the outcome is one that canonicalising `p` gave.
#[verifier::external_body]
fn canonicalize(p: &str) -> (r: Result<String, String>)
    ensures
        canonical_outcome(p@, result_view(r)),
{
    match std::path::Path::new(p).canonicalize() {
        Ok(pb) => Ok(pb.to_string_lossy().into_owned()),
        Err(e) => Err(e.to_string()),
    }
}

/// Whether `p` lies under `base`, component by component.
pub fn is_under(p: &str, base: &str, sep: char) -> (r: bool)
    ensures
        r == path_under(p@, base@, sep),
{
    let pc = chars_of(p);
    let bc = chars_of(base);
    let pabs = pc.len() > 0 && sep_char(pc[0], sep);
    let babs = bc.len() > 0 && sep_char(bc[0], sep);
    if pabs != babs {
        return false;
    }
    let pp = named_parts(&pc, sep);
    let bp = named_parts(&bc, sep);
    if bp.len() > pp.len() {
        return false;
    }
    let mut i: usize = 0;
    while i < bp.len()
        invariant
            i <= bp@.len() <= pp@.len(),
            bp@.len() == path_parts(base@, sep).len(),
            pp@.len() == path_parts(p@, sep).len(),
            forall|k: int|
                0 <= k < bp@.len() ==> (#[trigger] bp@[k])@ == path_parts(base@, sep)[k],
            forall|k: int| 0 <= k < pp@.len() ==> (#[trigger] pp@[k])@ == path_parts(p@, sep)[k],
            forall|k: int| 0 <= k < i ==> path_parts(p@, sep)[k] == path_parts(base@, sep)[k],
        decreases bp@.len() - i,
    {
        if !crate::text::str_eq(pp[i].as_str(), bp[i].as_str()) {
            assert(path_parts(p@, sep).take(path_parts(base@, sep).len() as int)[i as int]
                != path_parts(base@, sep)[i as int]);
            return false;
        }
        i += 1;
    }
    assert(path_parts(p@, sep).take(path_parts(base@, sep).len() as int) =~= path_parts(
        base@,
        sep,
    ));
    true
}

/// The named components of the path `cs`.
fn named_parts(cs: &Vec<char>, sep: char) -> (r: Vec<String>)
    ensures
        r@.len() == path_parts(cs@, sep).len(),
        forall|i: int| 0 <= i < r@.len() ==> (#[trigger] r@[i])@ == path_parts(cs@, sep)[i],
{
    let segs = split_path(cs, sep);
    let ghost sv = segments(cs@, sep);
    let mut parts: Vec<String> = Vec::new();
    let mut i: usize = 0;
    while i < segs.len()
        invariant
            sv == segments(cs@, sep),
            segs@.len() == sv.len(),
            forall|k: int| 0 <= k < segs@.len() ==> (#[trigger] segs@[k])@ == sv[k],
            i <= segs@.len(),
            parts@.len() == keep(sv.take(i as int), |seg: Seq<char>| is_name(seg)).len(),
            forall|k: int|
                0 <= k < parts@.len() ==> (#[trigger] parts@[k])@ == keep(
                    sv.take(i as int),
                    |seg: Seq<char>| is_name(seg),
                )[k],
        decreases segs@.len() - i,
    {
        let sc = chars_of(segs[i].as_str());
        let named = sc.len() > 0 && !(sc.len() == 1 && sc[0] == '.');
        assert(named == is_name(sv[i as int])) by {
            if sc@.len() == 1 && sc@[0] == '.' {
                assert(sv[i as int] =~= seq!['.']);
            }
            if sv[i as int] =~= seq!['.'] {
                assert(sc@.len() == 1);
            }
        }
        proof {
            assert(sv.take(i + 1) =~= sv.take(i as int).push(sv[i as int]));
            lemma_keep_push(sv.take(i as int), sv[i as int], |seg: Seq<char>| is_name(seg));
        }
        if named {
            parts.push(segs[i].clone());
        }
        i += 1;
    }
    assert(sv.take(sv.len() as int) =~= sv);
    parts
}

/// The last step of [`jail`]: with the canonical workspace `ws_real` and
/// the canonical parent directory `parent_real` of the requested file
/// `name`, the file's path when the parent lies under the workspace, else
/// the refusal.
pub fn confine(ws_real: &str, parent_real: &str, name: &str, requested: &str, sep: char) -> (r:
    Result<String, String>)
    ensures
        result_view(r) == confined(ws_real@, parent_real@, name@, requested@, sep),
{
    if !is_under(parent_real, ws_real, sep) {
        let mut e = to_string("워크스페이스 밖 거부: ");
        push_str(&mut e, requested);
        return Err(e);
    }
    Ok(join_name(parent_real, name, sep))
}

/// Confines a requested path to the workspace `ws`, with the platform's
/// separator. Refused: an absolute path, a root or drive prefix, a `..`
/// component, a workspace that cannot be resolved, a parent directory that
/// does not exist, and a parent that resolves outside the canonical
/// workspace. The empty path (or `.`) is the canonical workspace itself;
/// otherwise the answer is the requested file under its canonical parent.
pub fn jail(ws: &str, requested: &str) -> (r: Result<String, String>)
    ensures
        exists|sep: char|
            platform_separator(sep) && (sep == '/' || sep == '\\') && jail_outcome(
                ws@,
                requested@,
                sep,
                result_view(r),
            ),
{
    let sep = main_separator();
    let r = jail_with(ws, requested, sep);
    r
}

/// [`jail`] with the separator `sep`.
fn jail_with(ws: &str, requested: &str, sep: char) -> (r: Result<String, String>)
    ensures
        jail_outcome(ws@, requested@, sep, result_view(r)),
{
    let parts = match relative_parts(requested, sep) {
        Ok(p) => p,
        Err(e) => return Err(e),
    };
    let ghost pv = path_parts(requested@, sep);
    assert(texts(parts@) =~= pv);
    let ws_real = match canonicalize(ws) {
        Ok(p) => p,
        Err(e) => {
            let mut m = to_string("워크스페이스 접근 불가(");
            push_str(&mut m, ws);
            push_str(&mut m, "): ");
            push_str(&mut m, e.as_str());
            assert(canonical_outcome(ws@, Err(e@)));
            return Err(m);
        },
    };
    assert(canonical_outcome(ws@, Ok(ws_real@)));
    if parts.len() == 0 {
        assert(after_workspace(ws_real@, requested@, pv, sep, Ok(ws_real@)));
        return Ok(ws_real);
    }
    let last = parts.len() - 1;
    let parent = parent_path(ws_real.as_str(), &parts, last, sep);
    assert(texts(parts@).take(last as int) =~= pv.drop_last());
    let parent_real = match canonicalize(parent.as_str()) {
        Ok(p) => p,
        Err(e) => {
            let mut m = to_string("상위 디렉터리 없음(");
            push_str(&mut m, parent.as_str());
            push_str(&mut m, "): ");
            push_str(&mut m, e.as_str());
            assert(canonical_outcome(parent@, Err(e@)));
            assert(after_workspace(ws_real@, requested@, pv, sep, Err(m@)));
            return Err(m);
        },
    };
    assert(canonical_outcome(parent@, Ok(parent_real@)));
    let r = confine(ws_real.as_str(), parent_real.as_str(), parts[last].as_str(), requested, sep);
    assert(parts@[last as int]@ == pv.last());
    assert(after_workspace(ws_real@, requested@, pv, sep, result_view(r)));
    r
}

/// Every element of `keep(s, p)` satisfies `p` and is an element of `s`.
proof fn lemma_keep_members<T>(s: Seq<T>, p: spec_fn(T) -> bool, i: int)
    requires
        0 <= i < keep(s, p).len(),
    ensures
        p(keep(s, p)[i]),
        s.contains(keep(s, p)[i]),
    decreases s.len(),
{
    let r = keep(s.drop_last(), p);
    if i < r.len() {
        lemma_keep_members(s.drop_last(), p, i);
        let j = choose|j: int| 0 <= j < s.drop_last().len() && s.drop_last()[j] == r[i];
        assert(s[j] == r[i]);
    } else {
        assert(s[s.len() - 1] == s.last());
    }
}

/// A text has at least one piece.
proof fn lemma_pieces_len(t: Seq<char>)
    ensures
        pieces(t, '/').len() >= 1,
    decreases t.len(),
{
    if t.len() > 0 {
        lemma_pieces_len(t.drop_last());
    }
}

/// The pieces of a text hold no `/`, and each of their characters is one of
/// the text's.
proof fn lemma_pieces_chars(t: Seq<char>, i: int, k: int)
    requires
        0 <= i < pieces(t, '/').len(),
        0 <= k < pieces(t, '/')[i].len(),
    ensures
        pieces(t, '/')[i][k] != '/',
        t.contains(pieces(t, '/')[i][k]),
    decreases t.len(),
{
    if t.len() > 0 {
        let d = t.drop_last();
        let p = pieces(d, '/');
        lemma_pieces_len(d);
        if t.last() == '/' {
            lemma_pieces_chars(d, i, k);
            let j = choose|j: int| 0 <= j < d.len() && d[j] == p[i][k];
            assert(t[j] == d[j]);
        } else if i < p.len() - 1 {
            lemma_pieces_chars(d, i, k);
            let j = choose|j: int| 0 <= j < d.len() && d[j] == p[i][k];
            assert(t[j] == d[j]);
        } else if k < p.last().len() {
            lemma_pieces_chars(d, i, k);
            let j = choose|j: int| 0 <= j < d.len() && d[j] == p[i][k];
            assert(t[j] == d[j]);
        } else {
            assert(pieces(t, '/')[i][k] == t.last());
            assert(t[t.len() - 1] == t.last());
        }
    }
}

/// Splitting after a final `/` adds the text that follows as one piece.
proof fn lemma_pieces_after_slash(x: Seq<char>, y: Seq<char>)
    requires
        !y.contains('/'),
    ensures
        pieces(x + seq!['/'] + y, '/') == pieces(x, '/').push(y),
    decreases y.len(),
{
    let s = x + seq!['/'] + y;
    lemma_pieces_len(x);
    if y.len() == 0 {
        assert(s.drop_last() =~= x);
        assert(s.last() == '/');
        assert(pieces(s, '/') == pieces(s.drop_last(), '/').push(Seq::<char>::empty()));
        assert(y =~= Seq::<char>::empty());
    } else {
        let yd = y.drop_last();
        assert(!yd.contains('/')) by {
            if yd.contains('/') {
                let j = choose|j: int| 0 <= j < yd.len() && yd[j] == '/';
                assert(y[j] == '/');
            }
        }
        lemma_pieces_after_slash(x, yd);
        assert(s.drop_last() =~= x + seq!['/'] + yd);
        assert(s.last() == y.last());
        assert(y[y.len() - 1] != '/');
        assert(yd.push(y.last()) =~= y);
        assert(pieces(x, '/').push(yd).update(pieces(x, '/').len() as int, yd.push(y.last()))
            =~= pieces(x, '/').push(y));
    }
}

/// Joining a single component `name` adds it as the last component.
proof fn lemma_join_parts(b: Seq<char>, name: Seq<char>, sep: char)
    requires
        is_name(name),
        forall|k: int| 0 <= k < name.len() ==> !is_sep(#[trigger] name[k], sep),
    ensures
        path_parts(join(b, name, sep), sep) == path_parts(b, sep).push(name),
{
    let nb = norm(b, sep);
    assert(norm(name, sep) =~= name);
    assert(!name.contains('/')) by {
        if name.contains('/') {
            let j = choose|j: int| 0 <= j < name.len() && name[j] == '/';
            assert(!is_sep(name[j], sep));
        }
    }
    let f = |seg: Seq<char>| is_name(seg);
    if b.len() > 0 && is_sep(b.last(), sep) {
        assert(norm(join(b, name, sep), sep) =~= nb + name);
        let x = nb.drop_last();
        assert(nb.last() == '/');
        assert(nb + name =~= x + seq!['/'] + name);
        assert(nb =~= x + seq!['/'] + Seq::<char>::empty());
        lemma_pieces_after_slash(x, name);
        lemma_pieces_after_slash(x, Seq::<char>::empty());
        lemma_keep_push(pieces(x, '/'), name, f);
        lemma_keep_push(pieces(x, '/'), Seq::<char>::empty(), f);
    } else {
        assert(norm(join(b, name, sep), sep) =~= nb + seq!['/'] + name);
        lemma_pieces_after_slash(nb, name);
        lemma_keep_push(pieces(nb, '/'), name, f);
    }
}

/// Confinement: an answer of [`jail`] lies, component by component, under
/// a canonical workspace that canonicalising `ws` gave.
pub proof fn law_jail_stays_in_workspace(
    ws: Seq<char>,
    requested: Seq<char>,
    sep: char,
    p: Seq<char>,
)
    requires
        jail_outcome(ws, requested, sep, Ok(p)),
    ensures
        exists|ws_real: Seq<char>|
            {
                &&& canonical_outcome(ws, Ok(ws_real))
                &&& path_parts(ws_real, sep).len() <= path_parts(p, sep).len()
                &&& path_parts(p, sep).take(path_parts(ws_real, sep).len() as int) == path_parts(
                    ws_real,
                    sep,
                )
            },
{
    let parts = relative_outcome(requested, sep)->Ok_0;
    let ws_real = choose|ws_real: Seq<char>|
        canonical_outcome(ws, Ok(ws_real)) && after_workspace(
            ws_real,
            requested,
            parts,
            sep,
            Ok(p),
        );
    if parts.len() == 0 {
        assert(p == ws_real);
        assert(path_parts(p, sep).take(path_parts(ws_real, sep).len() as int) =~= path_parts(
            ws_real,
            sep,
        ));
    } else {
        let parent = join_all(ws_real, parts.drop_last(), sep);
        let parent_real = choose|parent_real: Seq<char>|
            canonical_outcome(parent, Ok(parent_real)) && Ok::<Seq<char>, Seq<char>>(p)
                == confined(ws_real, parent_real, parts.last(), requested, sep);
        let name = parts.last();
        let segs = segments(requested, sep);
        let f = |seg: Seq<char>| is_name(seg);
        lemma_keep_members(segs, f, parts.len() - 1);
        assert(is_name(name));
        assert forall|k: int| 0 <= k < name.len() implies !is_sep(#[trigger] name[k], sep) by {
            let i = choose|i: int| 0 <= i < segs.len() && segs[i] == name;
            lemma_pieces_chars(norm(requested, sep), i, k);
            let t = norm(requested, sep);
            let j = choose|j: int| 0 <= j < t.len() && t[j] == name[k];
            assert(t[j] == (if requested[j] == sep { '/' } else { requested[j] }));
        }
        lemma_join_parts(parent_real, name, sep);
        let wp = path_parts(ws_real, sep);
        let pp = path_parts(parent_real, sep);
        assert(path_parts(p, sep) == pp.push(name));
        assert(pp.push(name).take(wp.len() as int) =~= pp.take(wp.len() as int));
    }
}

} // verus!
