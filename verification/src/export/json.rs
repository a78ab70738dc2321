//! JsonExporter — Table → pretty-printed JSON (two-space indent), for other
//! programs to read. Each string is escaped as `serde_json` escapes strings;
//! the layout is that of `serde_json`'s pretty printer for the table's three
//! fields.

use vstd::prelude::*;
use vstd::string::StrSliceExecFns;
use vstd::utf8::encode_utf8;
use crate::domain::table::{Table, cells_view};
use crate::port::exporter::Exporter;
use crate::text::{push_char, push_str, to_string};

verus! {

broadcast use vstd::string::group_string_axioms;

pub struct JsonExporter;

/// A hexadecimal digit, lower case (`n < 16`).
pub open spec fn hex_digit(n: u8) -> char {
    if n < 10 {
        (48 + n) as char
    } else {
        (87 + n) as char
    }
}

/// How `serde_json` writes one character inside a string literal: `"` and
/// `\` behind a backslash; backspace, tab, line feed, form feed and carriage
/// return as `\b`, `\t`, `\n`, `\f`, `\r`; any other character below U+0020
/// as `\u00` and two lower-case hex digits; every other character as it is.
pub open spec fn escaped_char(c: char) -> Seq<char> {
    let u = c as u32;
    if c == '"' {
        seq!['\\', '"']
    } else if c == '\\' {
        seq!['\\', '\\']
    } else if u == 0x08 {
        seq!['\\', 'b']
    } else if u == 0x09 {
        seq!['\\', 't']
    } else if u == 0x0A {
        seq!['\\', 'n']
    } else if u == 0x0C {
        seq!['\\', 'f']
    } else if u == 0x0D {
        seq!['\\', 'r']
    } else if u < 0x20 {
        seq!['\\', 'u', '0', '0', hex_digit((u / 16) as u8), hex_digit((u % 16) as u8)]
    } else {
        seq![c]
    }
}

/// Every character of `s` written as [`escaped_char`] writes it.
pub open spec fn escaped(s: Seq<char>) -> Seq<char>
    decreases s.len(),
{
    if s.len() == 0 {
        Seq::empty()
    } else {
        escaped(s.drop_last()) + escaped_char(s.last())
    }
}

/// The JSON string literal for `s` as `serde_json::to_string` writes it:
/// the escaped characters between double quotes.
pub open spec fn json_quoted(s: Seq<char>) -> Seq<char> {
    seq!['"'] + escaped(s) + seq!['"']
}

fn hex(n: u8) -> (r: char)
    requires
        n < 16,
    ensures
        r == hex_digit(n),
{
    if n < 10 {
        (48 + n) as char
    } else {
        (87 + n) as char
    }
}

/// Appends the escaped form of `c`.
fn push_escaped(out: &mut String, c: char)
    ensures
        final(out)@ == old(out)@ + escaped_char(c),
{
    let u = c as u32;
    if c == '"' {
        push_char(out, '\\');
        push_char(out, '"');
    } else if c == '\\' {
        push_char(out, '\\');
        push_char(out, '\\');
    } else if u == 0x08 {
        push_char(out, '\\');
        push_char(out, 'b');
    } else if u == 0x09 {
        push_char(out, '\\');
        push_char(out, 't');
    } else if u == 0x0A {
        push_char(out, '\\');
        push_char(out, 'n');
    } else if u == 0x0C {
        push_char(out, '\\');
        push_char(out, 'f');
    } else if u == 0x0D {
        push_char(out, '\\');
        push_char(out, 'r');
    } else if u < 0x20 {
        push_char(out, '\\');
        push_char(out, 'u');
        push_char(out, '0');
        push_char(out, '0');
        push_char(out, hex((u / 16) as u8));
        push_char(out, hex((u % 16) as u8));
    } else {
        push_char(out, c);
    }
    assert(final(out)@ =~= old(out)@ + escaped_char(c));
}

/// The quoted, escaped JSON string literal for `s`, as `serde_json` writes
/// a string.
fn quote(s: &str) -> (r: String)
    ensures
        r@ == json_quoted(s@),
{
    let cs = crate::text::chars_of(s);
    let mut out = to_string("\"");
    proof {
        reveal_strlit("\"");
    }
    let mut i: usize = 0;
    while i < cs.len()
        invariant
            i <= cs@.len(),
            out@ == seq!['"'] + escaped(cs@.take(i as int)),
        decreases cs@.len() - i,
    {
        push_escaped(&mut out, cs[i]);
        assert(cs@.take(i + 1).drop_last() =~= cs@.take(i as int));
        i += 1;
    }
    assert(cs@.take(cs@.len() as int) =~= cs@);
    push_char(&mut out, '"');
    assert(out@ =~= json_quoted(s@));
    out
}

/// `2 * depth` spaces.
pub open spec fn pad(depth: nat) -> Seq<char> {
    Seq::new(2 * depth, |i: int| ' ')
}

/// The items, each on its own line indented to `depth`, separated by commas.
pub open spec fn block(items: Seq<Seq<char>>, depth: nat) -> Seq<char>
    decreases items.len(),
{
    if items.len() == 0 {
        Seq::empty()
    } else if items.len() == 1 {
        pad(depth) + items[0]
    } else {
        block(items.drop_last(), depth) + ",\n"@ + pad(depth) + items.last()
    }
}

/// A JSON array of already rendered items at nesting `depth`: `[]` when
/// empty, else one item per line and the closing bracket at `depth`.
pub open spec fn json_array(items: Seq<Seq<char>>, depth: nat) -> Seq<char> {
    if items.len() == 0 {
        "[]"@
    } else {
        "[\n"@ + block(items, depth + 1) + "\n"@ + pad(depth) + "]"@
    }
}

/// An array of strings at nesting `depth`.
pub open spec fn string_array(v: Seq<Seq<char>>, depth: nat) -> Seq<char> {
    json_array(v.map_values(|s: Seq<char>| json_quoted(s)), depth)
}

/// The rows: an array of string arrays.
pub open spec fn rows_array(rows: Seq<Vec<String>>, depth: nat) -> Seq<char> {
    json_array(rows.map_values(|r: Vec<String>| string_array(cells_view(r@), depth + 1)), depth)
}

/// The whole document: an object with `headers`, `rows` and `keys`.
pub open spec fn json_text(t: Table) -> Seq<char> {
    "{\n  \"headers\": "@ + string_array(cells_view(t.headers@), 1) + ",\n  \"rows\": "@
        + rows_array(t.rows@, 1) + ",\n  \"keys\": "@ + string_array(cells_view(t.keys@), 1)
        + "\n}"@
}

fn push_pad(out: &mut String, depth: usize)
    requires
        depth <= 1000,
    ensures
        final(out)@ == old(out)@ + pad(depth as nat),
{
    let ghost start = out@;
    let mut k: usize = 0;
    while k < 2 * depth
        invariant
            k <= 2 * depth,
            depth <= 1000,
            out@ == start + Seq::new(k as nat, |i: int| ' '),
        decreases 2 * depth - k,
    {
        push_char(out, ' ');
        k += 1;
        assert(out@ =~= start + Seq::new(k as nat, |i: int| ' '));
    }
}

/// Renders already rendered items as an array at `depth`.
fn array_text(items: &Vec<String>, depth: usize) -> (r: String)
    requires
        depth < 1000,
    ensures
        r@ == json_array(cells_view(items@), depth as nat),
{
    let mut out = String::new();
    if items.len() == 0 {
        push_str(&mut out, "[]");
        return out;
    }
    push_str(&mut out, "[\n");
    let ghost head = out@;
    let mut i: usize = 0;
    while i < items.len()
        invariant
            i <= items@.len(),
            items@.len() > 0,
            depth < 1000,
            head == "[\n"@,
            out@ == head + block(cells_view(items@).take(i as int), (depth + 1) as nat),
        decreases items@.len() - i,
    {
        let ghost prev = out@;
        proof {
            let c = cells_view(items@);
            assert(c.take(i + 1).drop_last() =~= c.take(i as int));
            assert(c.take(i + 1).last() == items@[i as int]@);
            if i == 0 {
                assert(c.take(1)[0] == items@[0]@);
            }
        }
        if i > 0 {
            push_str(&mut out, ",\n");
        }
        push_pad(&mut out, depth + 1);
        push_str(&mut out, items[i].as_str());
        i += 1;
        assert(out@ =~= head + block(cells_view(items@).take(i as int), (depth + 1) as nat));
    }
    push_char(&mut out, '\n');
    push_pad(&mut out, depth);
    push_char(&mut out, ']');
    assert(cells_view(items@).take(items@.len() as int) =~= cells_view(items@));
    proof {
        reveal_strlit("\n");
        reveal_strlit("]");
    }
    assert(out@ =~= json_array(cells_view(items@), depth as nat));
    out
}

/// An array of JSON string literals at `depth`.
fn strings_text(v: &Vec<String>, depth: usize) -> (r: String)
    requires
        depth < 1000,
    ensures
        r@ == string_array(cells_view(v@), depth as nat),
{
    let mut quoted: Vec<String> = Vec::new();
    let mut i: usize = 0;
    while i < v.len()
        invariant
            i <= v@.len(),
            quoted@.len() == i,
            forall|j: int| 0 <= j < i ==> (#[trigger] quoted@[j])@ == json_quoted(v@[j]@),
        decreases v@.len() - i,
    {
        quoted.push(quote(v[i].as_str()));
        i += 1;
    }
    assert(cells_view(quoted@) =~= cells_view(v@).map_values(|s: Seq<char>| json_quoted(s)));
    array_text(&quoted, depth)
}

impl JsonExporter {
    /// The JSON text of `table`, before UTF-8 encoding.
    pub fn render(&self, table: &Table) -> (r: String)
        ensures
            r@ == json_text(*table),
    {
        let mut rendered: Vec<String> = Vec::new();
        let mut i: usize = 0;
        while i < table.rows.len()
            invariant
                i <= table.rows@.len(),
                rendered@.len() == i,
                forall|j: int|
                    0 <= j < i ==> (#[trigger] rendered@[j])@ == string_array(
                        cells_view(table.rows@[j]@),
                        2,
                    ),
            decreases table.rows@.len() - i,
        {
            rendered.push(strings_text(&table.rows[i], 2));
            i += 1;
        }
        assert(cells_view(rendered@) =~= table.rows@.map_values(
            |r: Vec<String>| string_array(cells_view(r@), 2),
        ));
        let mut out = to_string("{\n  \"headers\": ");
        let h = strings_text(&table.headers, 1);
        push_str(&mut out, h.as_str());
        push_str(&mut out, ",\n  \"rows\": ");
        let rs = array_text(&rendered, 1);
        push_str(&mut out, rs.as_str());
        push_str(&mut out, ",\n  \"keys\": ");
        let k = strings_text(&table.keys, 1);
        push_str(&mut out, k.as_str());
        push_str(&mut out, "\n}");
        assert(out@ =~= json_text(*table));
        out
    }
}

impl Exporter for JsonExporter {
    fn format(&self) -> (r: &str)
        ensures
            r@ == "json"@,
    {
        "json"
    }

    /// UTF-8 bytes of the JSON document [`json_text`].
    fn export(&self, table: &Table) -> (r: Vec<u8>)
        ensures
            r@ == encode_utf8(json_text(*table)),
    {
        let s = self.render(table);
        s.as_str().as_bytes_vec()
    }
}

} // verus!
