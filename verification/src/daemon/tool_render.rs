//! Tool activity rendering: a one-line argument summary (`detail`) and a
//! short output preview (`preview`) for the chat. Long output would flood
//! the chat, so only its head is kept.

use vstd::prelude::*;
use crate::text::{
    chars_of, nat_text, pieces, push_char, push_str, split_on, str_eq, string_from, string_of,
    to_string, trim, trim_chars, u64_text,
};

verus! {

/// Line breaks turned into spaces.
pub open spec fn flatten(s: Seq<char>) -> Seq<char> {
    s.map_values(|c: char| if c == '\n' || c == '\r' { ' ' } else { c })
}

/// One line of at most `max` characters: line breaks flattened, white space
/// trimmed, and a longer text cut with `…` after `max` characters.
pub open spec fn one_line_text(s: Seq<char>, max: nat) -> Seq<char> {
    let t = trim(flatten(s));
    if t.len() <= max {
        t
    } else {
        t.take(max as int) + seq!['…']
    }
}

/// The `i`-th line of the pieces `p` between line feeds: a piece that a
/// line feed ends loses one carriage return before it.
pub open spec fn line_at(p: Seq<Seq<char>>, i: int) -> Seq<char> {
    if i < p.len() - 1 && p[i].len() > 0 && p[i].last() == '\r' {
        p[i].drop_last()
    } else {
        p[i]
    }
}

/// The lines of `s` as `str::lines` yields them: split at `\n` (or `\r\n`),
/// with no empty line after a final line ending.
pub open spec fn text_lines(s: Seq<char>) -> Seq<Seq<char>> {
    let p = pieces(s, '\n');
    let n = if p.last().len() == 0 {
        p.len() - 1
    } else {
        p.len() as int
    };
    Seq::new(n as nat, |i: int| line_at(p, i))
}

/// The first `k` lines, each cut to one line of 120 characters and ended
/// by a line feed.
pub open spec fn head_block(ls: Seq<Seq<char>>, k: int) -> Seq<char>
    decreases k,
{
    if k <= 0 {
        Seq::empty()
    } else {
        head_block(ls, k - 1) + one_line_text(ls[k - 1], 120) + seq!['\n']
    }
}

/// At most `max_lines` lines, then `…(N줄 더)` when `N` more were left out.
pub open spec fn head_lines_text(s: Seq<char>, max_lines: nat) -> Seq<char> {
    let ls = text_lines(s);
    let show = if ls.len() < max_lines {
        ls.len() as int
    } else {
        max_lines as int
    };
    head_block(ls, show) + if ls.len() > max_lines {
        "…("@ + nat_text((ls.len() - max_lines) as nat) + "줄 더)"@
    } else {
        Seq::empty()
    }
}

/// The string member `key` of the JSON object written in `text`, as
/// `serde_json` reads it; `None` when `text` is no JSON object or the
/// member is missing or not a string.
pub uninterp spec fn json_string_member(text: Seq<char>, key: Seq<char>) -> Option<Seq<char>>;

/// Parses `text` with `serde_json::from_str` into a `serde_json::Value`
/// and picks the string member `key` (`Value::get`, `Value::as_str`).
#[verifier::external_body]
pub(crate) fn string_member(text: &str, key: &str) -> (r: Option<String>)
    ensures
        match r {
            Some(v) => json_string_member(text@, key@) == Some(v@),
            None => json_string_member(text@, key@) is None,
        },
{
    serde_json::from_str::<serde_json::Value>(text).ok().and_then(
        |v| v.get(key).and_then(|x| x.as_str()).map(|x| x.to_string()),
    )
}

/// Output wrapped as JSON `{"stdout": ...}` (bash and other structured
/// tools) shows only its stdout.
pub open spec fn unwrapped(s: Seq<char>) -> Seq<char> {
    match json_string_member(s, "stdout"@) {
        Some(x) => x,
        None => s,
    }
}

/// The preview of a tool's output: the unwrapped output trimmed; empty
/// stays empty; several lines show their head (6 lines for `read_file`, 3
/// otherwise), a single line is cut at 160 characters.
pub open spec fn preview_text(tool: Seq<char>, output: Seq<char>) -> Seq<char> {
    let display = trim(unwrapped(output));
    if display.len() == 0 {
        Seq::empty()
    } else if display.contains('\n') {
        head_lines_text(display, if tool == "read_file"@ { 6 } else { 3 })
    } else {
        one_line_text(display, 160)
    }
}

/// Flattens line breaks into spaces, trims, and cuts after `max`
/// characters with `…`. Korean text is cut at character boundaries.
pub fn one_line(s: &str, max: usize) -> (r: String)
    ensures
        r@ == one_line_text(s@, max as nat),
{
    let cs = chars_of(s);
    let mut flat: Vec<char> = Vec::new();
    let mut i: usize = 0;
    while i < cs.len()
        invariant
            i <= cs@.len(),
            cs@ == s@,
            flat@ == flatten(cs@).take(i as int),
        decreases cs@.len() - i,
    {
        let c = cs[i];
        flat.push(if c == '\n' || c == '\r' { ' ' } else { c });
        i += 1;
        assert(flat@ =~= flatten(cs@).take(i as int));
    }
    assert(flatten(cs@).take(cs@.len() as int) =~= flatten(cs@));
    let t = trim_chars(&flat);
    if t.len() <= max {
        string_of(&t)
    } else {
        let mut out = string_from(&t, 0, max);
        push_char(&mut out, '…');
        assert(t@.subrange(0, max as int) =~= t@.take(max as int));
        out
    }
}

/// The first `max_lines` lines, each cut at 120 characters; when more
/// remain, `…(N줄 더)`.
pub fn head_lines(s: &str, max_lines: usize) -> (r: String)
    ensures
        r@ == head_lines_text(s@, max_lines as nat),
{
    let cs = chars_of(s);
    let p = split_on(&cs, '\n');
    let ghost pv = pieces(s@, '\n');
    let n: usize = if p[p.len() - 1].as_str().unicode_len() == 0 {
        p.len() - 1
    } else {
        p.len()
    };
    let ghost ls = text_lines(s@);
    assert(ls.len() == n);
    let show: usize = if n < max_lines {
        n
    } else {
        max_lines
    };
    let mut out = String::new();
    let mut i: usize = 0;
    while i < show
        invariant
            i <= show <= n <= p@.len(),
            p@.len() == pv.len(),
            pv == pieces(s@, '\n'),
            ls == text_lines(s@),
            ls.len() == n,
            forall|k: int| 0 <= k < p@.len() ==> (#[trigger] p@[k])@ == pv[k],
            out@ == head_block(ls, i as int),
        decreases show - i,
    {
        let pc = chars_of(p[i].as_str());
        let strip = i + 1 < p.len() && pc.len() > 0 && pc[pc.len() - 1] == '\r';
        let line = if strip {
            string_from(&pc, 0, pc.len() - 1)
        } else {
            string_of(&pc)
        };
        assert(line@ == ls[i as int]) by {
            assert(ls[i as int] == line_at(pv, i as int));
            if strip {
                assert(pc@.subrange(0, pc@.len() - 1) =~= pc@.drop_last());
            }
        }
        let l = one_line(line.as_str(), 120);
        push_str(&mut out, l.as_str());
        push_char(&mut out, '\n');
        i += 1;
    }
    if n > max_lines {
        push_str(&mut out, "…(");
        let more = u64_text((n - max_lines) as u64);
        push_str(&mut out, more.as_str());
        push_str(&mut out, "줄 더)");
    }
    out
}

/// The stdout of output wrapped as JSON `{"stdout": ...}`, else the output
/// itself.
pub fn unwrap_stdout(s: &str) -> (r: String)
    ensures
        r@ == unwrapped(s@),
{
    match string_member(s, "stdout") {
        Some(x) => x,
        None => to_string(s),
    }
}

/// Preview of a tool's output for the chat (see [`preview_text`]).
pub fn preview(tool: &str, output: &str) -> (r: String)
    ensures
        r@ == preview_text(tool@, output@),
{
    let display = unwrap_stdout(output);
    let dc = chars_of(display.as_str());
    let t = trim_chars(&dc);
    if t.len() == 0 {
        return String::new();
    }
    let max: usize = if str_eq(tool, "read_file") {
        6
    } else {
        3
    };
    let ts = string_of(&t);
    if crate::text::contains_char(&t, '\n') {
        head_lines(ts.as_str(), max)
    } else {
        one_line(ts.as_str(), 160)
    }
}

/// A tool's JSON arguments as the summary reads them: each member's key,
/// with its value when that value is a string.
pub struct ToolArgs {
    pub members: Vec<(String, Option<String>)>,
}

pub open spec fn opt_text(o: Option<String>) -> Option<Seq<char>> {
    match o {
        Some(s) => Some(s@),
        None => None,
    }
}

/// The member `key` of the arguments: `None` when absent, else its string
/// value if it has one.
pub open spec fn member(ms: Seq<(String, Option<String>)>, key: Seq<char>) -> Option<
    Option<Seq<char>>,
>
    decreases ms.len(),
{
    if ms.len() == 0 {
        None
    } else if ms[0].0@ == key {
        Some(opt_text(ms[0].1))
    } else {
        member(ms.drop_first(), key)
    }
}

/// The argument that names what a tool works on.
pub open spec fn primary_key(tool: Seq<char>) -> Option<Seq<char>> {
    if tool == "bash"@ {
        Some("command"@)
    } else if tool == "fetch_url"@ || tool == "fetch"@ {
        Some("url"@)
    } else if tool == "web_search"@ {
        Some("query"@)
    } else if tool == "read_file"@ || tool == "write_file"@ || tool == "edit_file"@ {
        Some("path"@)
    } else {
        None
    }
}

/// The first of `keys` present among the arguments.
pub open spec fn first_member(ms: Seq<(String, Option<String>)>, keys: Seq<Seq<char>>) -> Option<
    Option<Seq<char>>,
>
    decreases keys.len(),
{
    if keys.len() == 0 {
        None
    } else if member(ms, keys[0]) is Some {
        member(ms, keys[0])
    } else {
        first_member(ms, keys.drop_first())
    }
}

/// The keys tried when the tool's own argument is missing, in order.
pub open spec fn fallback_keys() -> Seq<Seq<char>> {
    seq!["url"@, "command"@, "query"@, "path"@, "pattern"@]
}

/// The argument summary: the tool's own argument (url for fetch, command
/// for bash, query for search, path for file tools), else the first of url,
/// command, query, path, pattern that is present; its string value (empty
/// when it is no string) cut to one line of 120 characters.
pub open spec fn detail_text(tool: Seq<char>, ms: Seq<(String, Option<String>)>) -> Seq<char> {
    let primary = match primary_key(tool) {
        Some(k) => member(ms, k),
        None => None,
    };
    let v = match primary {
        Some(x) => Some(x),
        None => first_member(ms, fallback_keys()),
    };
    let text = match v {
        Some(Some(t)) => t,
        _ => Seq::empty(),
    };
    one_line_text(text, 120)
}

fn find_member(ms: &Vec<(String, Option<String>)>, key: &str) -> (r: Option<Option<String>>)
    ensures
        match r {
            Some(v) => member(ms@, key@) == Some(opt_text(v)),
            None => member(ms@, key@) is None,
        },
{
    let mut i: usize = 0;
    assert(ms@.skip(0) =~= ms@);
    while i < ms.len()
        invariant
            i <= ms@.len(),
            member(ms@, key@) == member(ms@.skip(i as int), key@),
        decreases ms@.len() - i,
    {
        assert(ms@.skip(i as int)[0] == ms@[i as int]);
        assert(ms@.skip(i as int).drop_first() =~= ms@.skip(i + 1));
        if str_eq(ms[i].0.as_str(), key) {
            let v = match &ms[i].1 {
                Some(t) => Some(t.clone()),
                None => None,
            };
            return Some(v);
        }
        i += 1;
    }
    None
}

/// Summary of a tool's arguments in one line (see [`detail_text`]).
pub fn detail(tool: &str, args: &ToolArgs) -> (r: String)
    ensures
        r@ == detail_text(tool@, args.members@),
{
    let ms = &args.members;
    let primary: Option<Option<String>> = if str_eq(tool, "bash") {
        find_member(ms, "command")
    } else if str_eq(tool, "fetch_url") || str_eq(tool, "fetch") {
        find_member(ms, "url")
    } else if str_eq(tool, "web_search") {
        find_member(ms, "query")
    } else if str_eq(tool, "read_file") || str_eq(tool, "write_file") || str_eq(tool, "edit_file") {
        find_member(ms, "path")
    } else {
        None
    };
    let v: Option<Option<String>> = match primary {
        Some(x) => Some(x),
        None => {
            let a = find_member(ms, "url");
            if a.is_some() {
                a
            } else {
                let b = find_member(ms, "command");
                if b.is_some() {
                    b
                } else {
                    let c = find_member(ms, "query");
                    if c.is_some() {
                        c
                    } else {
                        let d = find_member(ms, "path");
                        if d.is_some() {
                            d
                        } else {
                            find_member(ms, "pattern")
                        }
                    }
                }
            }
        },
    };
    proof {
        let keys = fallback_keys();
        assert(keys.drop_first() =~= seq!["command"@, "query"@, "path"@, "pattern"@]);
        assert(keys.drop_first().drop_first() =~= seq!["query"@, "path"@, "pattern"@]);
        assert(keys.drop_first().drop_first().drop_first() =~= seq!["path"@, "pattern"@]);
        assert(keys.drop_first().drop_first().drop_first().drop_first() =~= seq!["pattern"@]);
        assert(seq!["pattern"@].drop_first() =~= Seq::<Seq<char>>::empty());
        reveal_with_fuel(first_member, 6);
    }
    let text = match v {
        Some(Some(t)) => t,
        _ => String::new(),
    };
    one_line(text.as_str(), 120)
}

} // verus!
