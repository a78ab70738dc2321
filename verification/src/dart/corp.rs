//! Company search over OpenDART's company list (CORPCODE.xml): the list's
//! `<list>` records become companies, and a query picks the first fifty
//! whose name contains it.

use vstd::prelude::*;
use crate::seqs::{keep, lemma_keep_contains, lemma_keep_len, lemma_keep_push};
use crate::text::{chars_of, push_str, str_eq, to_string, trim, trim_str};
use quick_xml::events::Event;

verus! {

/// One company: its DART code, name and stock code.
pub struct Corp {
    pub code: String,
    pub name: String,
    pub stock: String,
}

pub open spec fn corp_view(c: Corp) -> (Seq<char>, Seq<char>, Seq<char>) {
    (c.code@, c.name@, c.stock@)
}

pub open spec fn corps_view(cs: Seq<Corp>) -> Seq<(Seq<char>, Seq<char>, Seq<char>)> {
    cs.map_values(|c: Corp| corp_view(c))
}

/// An XML reader event as the company list's parse reads it: element start
/// and end by name, raw text, an entity reference by name (`&amp;` splits
/// a text in two around the reference `amp`), end of input (or a read
/// error), and anything else.
pub enum XmlEvent {
    Start(String),
    Text(String),
    Ref(String),
    End(String),
    Eof,
    Other,
}

/// Which field the next text fills.
#[derive(PartialEq, Eq, Structural, Clone, Copy)]
pub enum Field {
    Skip,
    Code,
    Name,
    Stock,
}

/// The parse state: the current record's fields, the field being read,
/// the records so far, whether the input has ended, and whether the next
/// text starts the field afresh (text after a tag replaces the field; the
/// pieces of one text split by entity references are joined).
pub type ScanState = (
    Seq<char>,
    Seq<char>,
    Seq<char>,
    Field,
    Seq<(Seq<char>, Seq<char>, Seq<char>)>,
    bool,
    bool,
);

/// An XML event as plain values: its kind (start, text, end, end of input,
/// other) and its name or text.
pub enum XmlEventView {
    Start(Seq<char>),
    Text(Seq<char>),
    Ref(Seq<char>),
    End(Seq<char>),
    Eof,
    Other,
}

pub open spec fn event_view(e: XmlEvent) -> XmlEventView {
    match e {
        XmlEvent::Start(n) => XmlEventView::Start(n@),
        XmlEvent::Text(t) => XmlEventView::Text(t@),
        XmlEvent::Ref(r) => XmlEventView::Ref(r@),
        XmlEvent::End(n) => XmlEventView::End(n@),
        XmlEvent::Eof => XmlEventView::Eof,
        XmlEvent::Other => XmlEventView::Other,
    }
}

pub open spec fn event_views(evs: Seq<XmlEvent>) -> Seq<XmlEventView> {
    evs.map_values(|e: XmlEvent| event_view(e))
}

/// A piece of text for the field being read: it replaces the field after
/// a tag, and is appended to it otherwise.
pub open spec fn text_piece(a: ScanState, t: Seq<char>) -> ScanState {
    match a.3 {
        Field::Code => (if a.6 { t } else { a.0 + t }, a.1, a.2, a.3, a.4, false, false),
        Field::Name => (a.0, if a.6 { t } else { a.1 + t }, a.2, a.3, a.4, false, false),
        Field::Stock => (a.0, a.1, if a.6 { t } else { a.2 + t }, a.3, a.4, false, false),
        Field::Skip => a,
    }
}

/// One event: `<corp_code>`, `<corp_name>`, `<stock_code>` select the field
/// the following text fills; `<list>` starts a record afresh; an entity
/// reference is written back as `&name;`; the end of `</list>` emits the
/// record when it has a code; every end tag ends the field; the end of
/// input stops the parse.
pub open spec fn scan_step(a: ScanState, e: XmlEventView) -> ScanState {
    if a.5 {
        a
    } else {
        match e {
            XmlEventView::Start(n) => if n == "corp_code"@ {
                (a.0, a.1, a.2, Field::Code, a.4, false, true)
            } else if n == "corp_name"@ {
                (a.0, a.1, a.2, Field::Name, a.4, false, true)
            } else if n == "stock_code"@ {
                (a.0, a.1, a.2, Field::Stock, a.4, false, true)
            } else if n == "list"@ {
                (Seq::empty(), Seq::empty(), Seq::empty(), Field::Skip, a.4, false, true)
            } else {
                (a.0, a.1, a.2, Field::Skip, a.4, false, true)
            },
            XmlEventView::Text(t) => text_piece(a, t),
            XmlEventView::Ref(r) => text_piece(a, "&"@ + r + ";"@),
            XmlEventView::End(n) => {
                let corps = if n == "list"@ && a.0.len() > 0 {
                    a.4.push((a.0, a.1, a.2))
                } else {
                    a.4
                };
                (a.0, a.1, a.2, Field::Skip, corps, false, true)
            },
            XmlEventView::Eof => (a.0, a.1, a.2, a.3, a.4, true, a.6),
            XmlEventView::Other => a,
        }
    }
}

/// The state after the events `evs`.
pub open spec fn scan(evs: Seq<XmlEventView>) -> ScanState
    decreases evs.len(),
{
    if evs.len() == 0 {
        (Seq::empty(), Seq::empty(), Seq::empty(), Field::Skip, Seq::empty(), false, true)
    } else {
        scan_step(scan(evs.drop_last()), evs.last())
    }
}

/// What `quick_xml::Reader` reads from an XML text: its events in order, as
/// plain values, ending with the end of input (a read error ends it too).
pub uninterp spec fn xml_events_of(xml: Seq<char>) -> Seq<XmlEventView>;

/// Reads an XML text with `quick_xml::Reader` into events: element starts
/// and ends by name, raw text, entity references by name, everything else
/// as `Other`, and a final end of input (also after a read error). Only the result is named here; the
/// tokenizer is the `quick_xml` crate's.
#[verifier::external_body]
fn xml_events(xml: &str) -> (r: Vec<XmlEvent>)
    ensures
        event_views(r@) == xml_events_of(xml@),
{
    let mut reader = quick_xml::reader::Reader::from_str(xml);
    let mut out = Vec::new();
    loop {
        let ev = match reader.read_event() {
            Ok(Event::Start(e)) => XmlEvent::Start(e.name().as_ref().to_string()),
            Ok(Event::Text(t)) => XmlEvent::Text(String::from(&*t)),
            Ok(Event::GeneralRef(r)) => XmlEvent::Ref(String::from(&*r)),
            Ok(Event::End(e)) => XmlEvent::End(e.name().as_ref().to_string()),
            Ok(Event::Eof) | Err(_) => break,
            Ok(_) => XmlEvent::Other,
        };
        out.push(ev);
    }
    out.push(XmlEvent::Eof);
    out
}

fn copy(s: &String) -> (r: String)
    ensures
        r@ == s@,
{
    s.clone()
}

fn add_piece(
    code: &mut String,
    name: &mut String,
    stock: &mut String,
    field: Field,
    fresh: &mut bool,
    piece: String,
)
    ensures
        ({
            let a = (
                old(code)@,
                old(name)@,
                old(stock)@,
                field,
                Seq::<(Seq<char>, Seq<char>, Seq<char>)>::empty(),
                false,
                *old(fresh),
            );
            let b = text_piece(a, piece@);
            &&& final(code)@ == b.0
            &&& final(name)@ == b.1
            &&& final(stock)@ == b.2
            &&& *final(fresh) == b.6
        }),
{
    match field {
        Field::Code => {
            if *fresh {
                *code = piece;
            } else {
                push_str(code, piece.as_str());
            }
            *fresh = false;
        },
        Field::Name => {
            if *fresh {
                *name = piece;
            } else {
                push_str(name, piece.as_str());
            }
            *fresh = false;
        },
        Field::Stock => {
            if *fresh {
                *stock = piece;
            } else {
                push_str(stock, piece.as_str());
            }
            *fresh = false;
        },
        Field::Skip => {},
    }
}

/// The companies of the `<list>` records of the list's events, in
/// document order.
pub fn corps_of_events(evs: &Vec<XmlEvent>) -> (r: Vec<Corp>)
    ensures
        corps_view(r@) == scan(event_views(evs@)).4,
{
    let ghost ev = event_views(evs@);
    let mut code = String::new();
    let mut name = String::new();
    let mut stock = String::new();
    let mut field = Field::Skip;
    let mut corps: Vec<Corp> = Vec::new();
    let mut done = false;
    let mut fresh = true;
    let mut i: usize = 0;
    while i < evs.len()
        invariant
            i <= evs@.len(),
            ev == event_views(evs@),
            scan(ev.take(i as int)) == (code@, name@, stock@, field, corps_view(corps@), done, fresh),
        decreases evs@.len() - i,
    {
        assert(ev.take(i + 1).drop_last() =~= ev.take(i as int));
        assert(ev.take(i + 1).last() == event_view(evs@[i as int]));
        if !done {
            match &evs[i] {
                XmlEvent::Start(n) => {
                    if str_eq(n.as_str(), "corp_code") {
                        field = Field::Code;
                    } else if str_eq(n.as_str(), "corp_name") {
                        field = Field::Name;
                    } else if str_eq(n.as_str(), "stock_code") {
                        field = Field::Stock;
                    } else if str_eq(n.as_str(), "list") {
                        code = String::new();
                        name = String::new();
                        stock = String::new();
                        field = Field::Skip;
                    } else {
                        field = Field::Skip;
                    }
                    fresh = true;
                },
                XmlEvent::Text(t) => {
                    let piece = copy(t);
                    add_piece(&mut code, &mut name, &mut stock, field, &mut fresh, piece);
                },
                XmlEvent::Ref(r) => {
                    let mut piece = to_string("&");
                    push_str(&mut piece, r.as_str());
                    push_str(&mut piece, ";");
                    add_piece(&mut code, &mut name, &mut stock, field, &mut fresh, piece);
                },
                XmlEvent::End(n) => {
                    if str_eq(n.as_str(), "list") && code.as_str().unicode_len() > 0 {
                        let ghost before = corps@;
                        corps.push(Corp { code: copy(&code), name: copy(&name), stock: copy(&stock) });
                        assert(corps_view(corps@) =~= corps_view(before).push((code@, name@, stock@)));
                    }
                    field = Field::Skip;
                    fresh = true;
                },
                XmlEvent::Eof => {
                    done = true;
                },
                XmlEvent::Other => {},
            }
        }
        i += 1;
    }
    assert(ev.take(evs@.len() as int) =~= ev);
    corps
}

/// The companies of OpenDART's company list (`CORPCODE.xml`): every
/// `<list>` record with a code, with its name and stock code, in document
/// order.
pub fn parse_corps(xml: &str) -> (r: Vec<Corp>)
    ensures
        corps_view(r@) == scan(xml_events_of(xml@)).4,
{
    corps_of_events(&xml_events(xml))
}


/// `t` occurs in `s` as a contiguous run.
pub open spec fn contains_text(s: Seq<char>, t: Seq<char>) -> bool {
    exists|i: int| 0 <= i && i + t.len() <= s.len() && #[trigger] s.subrange(i, i + t.len()) == t
}

fn has_text(s: &Vec<char>, t: &Vec<char>) -> (r: bool)
    ensures
        r == contains_text(s@, t@),
{
    if t.len() > s.len() {
        return false;
    }
    if t.len() == 0 {
        assert(s@.subrange(0int, 0int + t@.len()) =~= t@);
        return true;
    }
    let mut i: usize = 0;
    let sl = s.len();
    let last = sl - t.len();
    while i <= last
        invariant
            sl == s@.len(),
            0 < t@.len() <= s@.len(),
            last == s@.len() - t@.len(),
            i <= last + 1,
            forall|k: int| 0 <= k < i ==> #[trigger] s@.subrange(k, k + t@.len()) != t@,
        decreases s@.len() - i,
    {
        let mut j: usize = 0;
        let mut same = true;
        while j < t.len()
            invariant
                j <= t@.len(),
                sl == s@.len(),
                0 < t@.len() <= s@.len(),
                i <= last,
                last == s@.len() - t@.len(),
                same <==> forall|q: int| 0 <= q < j ==> s@[i + q] == t@[q],
            decreases t@.len() - j,
        {
            if s[i + j] != t[j] {
                same = false;
            }
            j += 1;
        }
        if same {
            assert(s@.subrange(i as int, i + t@.len()) =~= t@);
            return true;
        }
        assert(s@.subrange(i as int, i + t@.len()) != t@) by {
            let q = choose|q: int| 0 <= q < t@.len() && s@[i + q] != t@[q];
            assert(s@.subrange(i as int, i + t@.len())[q] == s@[i + q]);
        }
        i += 1;
    }
    assert forall|k: int| 0 <= k && k + t@.len() <= s@.len() implies #[trigger] s@.subrange(
        k,
        k + t@.len(),
    ) != t@ by {
        assert(k < i);
    }
    false
}

/// Most companies a search returns.
pub const SEARCH_LIMIT: usize = 50;

/// The companies a query finds: the query trimmed; nothing for an empty
/// query; else the first fifty whose name contains it, in list order.
pub open spec fn search_result(corps: Seq<(Seq<char>, Seq<char>, Seq<char>)>, query: Seq<char>) -> Seq<
    (Seq<char>, Seq<char>, Seq<char>),
> {
    let q = trim(query);
    if q.len() == 0 {
        Seq::empty()
    } else {
        let hits = keep(
            corps,
            |c: (Seq<char>, Seq<char>, Seq<char>)| contains_text(c.1, q),
        );
        hits.take(if hits.len() < SEARCH_LIMIT { hits.len() as int } else { SEARCH_LIMIT as int })
    }
}

/// Searches companies by name (see [`search_result`]).
pub fn search_corps(corps: &Vec<Corp>, query: &str) -> (r: Vec<Corp>)
    ensures
        corps_view(r@) == search_result(corps_view(corps@), query@),
{
    let q = trim_str(query);
    let qc = chars_of(q.as_str());
    let mut out: Vec<Corp> = Vec::new();
    if qc.len() == 0 {
        assert(corps_view(out@) =~= Seq::<(Seq<char>, Seq<char>, Seq<char>)>::empty());
        return out;
    }
    let ghost cv = corps_view(corps@);
    let ghost p = |c: (Seq<char>, Seq<char>, Seq<char>)| contains_text(c.1, qc@);
    let mut i: usize = 0;
    while i < corps.len() && out.len() < SEARCH_LIMIT
        invariant
            i <= corps@.len(),
            cv == corps_view(corps@),
            qc@ == trim(query@),
            qc@.len() > 0,
            p == (|c: (Seq<char>, Seq<char>, Seq<char>)| contains_text(c.1, qc@)),
            out@.len() <= SEARCH_LIMIT,
            corps_view(out@) == keep(cv.take(i as int), p),
        decreases corps@.len() - i,
    {
        let nc = chars_of(corps[i].name.as_str());
        proof {
            assert(cv.take(i + 1) =~= cv.take(i as int).push(cv[i as int]));
            lemma_keep_push(cv.take(i as int), cv[i as int], p);
        }
        if has_text(&nc, &qc) {
            let c = &corps[i];
            let ghost before = out@;
            out.push(Corp { code: copy(&c.code), name: copy(&c.name), stock: copy(&c.stock) });
            assert(corps_view(out@) =~= corps_view(before).push(cv[i as int]));
        }
        i += 1;
    }
    proof {
        let hits = keep(cv, p);
        lemma_keep_prefix(cv, p, i as int);
        if i < corps@.len() {
            assert(out@.len() == SEARCH_LIMIT);
        } else {
            assert(cv.take(i as int) =~= cv);
        }
    }
    out
}

/// Keeping from a prefix gives a prefix of what is kept from the whole.
proof fn lemma_keep_prefix<T>(s: Seq<T>, p: spec_fn(T) -> bool, i: int)
    requires
        0 <= i <= s.len(),
    ensures
        keep(s, p).take(keep(s.take(i), p).len() as int) == keep(s.take(i), p),
        keep(s.take(i), p).len() <= keep(s, p).len(),
    decreases s.len() - i,
{
    if i == s.len() {
        assert(s.take(i) =~= s);
    } else {
        lemma_keep_prefix(s, p, i + 1);
        assert(s.take(i + 1) =~= s.take(i).push(s[i]));
        lemma_keep_push(s.take(i), s[i], p);
        let a = keep(s.take(i), p);
        let b = keep(s.take(i + 1), p);
        assert(b.take(a.len() as int) =~= a);
    }
}

/// A text contains every text written inside it, at the start, in the middle
/// or at the end (a match at index 0 counts); and a text that contains `t`
/// is written as something, `t`, then something.
pub proof fn law_contains_text(a: Seq<char>, t: Seq<char>, b: Seq<char>, s: Seq<char>)
    ensures
        contains_text(a + t + b, t),
        contains_text(t + b, t),
        contains_text(s, t) ==> exists|x: Seq<char>, y: Seq<char>| s == x + t + y,
{
    let al: int = a.len() as int;
    assert((a + t + b).subrange(al, al + t.len()) =~= t);
    assert((t + b).subrange(0int, 0int + t.len()) =~= t);
    if contains_text(s, t) {
        let i = choose|i: int|
            0 <= i && i + t.len() <= s.len() && #[trigger] s.subrange(i, i + t.len()) == t;
        assert(s =~= s.take(i) + t + s.skip(i + t.len()));
    }
}

/// A search finds every company whose name holds the trimmed, non-empty
/// query, anywhere in the name (the whole name, its start, its middle or
/// its end), when the list is no longer than the search limit.
pub proof fn law_search_finds_names(
    corps: Seq<(Seq<char>, Seq<char>, Seq<char>)>,
    query: Seq<char>,
    i: int,
    a: Seq<char>,
    b: Seq<char>,
)
    requires
        0 <= i < corps.len() <= SEARCH_LIMIT,
        trim(query).len() > 0,
        corps[i].1 == a + trim(query) + b,
    ensures
        search_result(corps, query).contains(corps[i]),
{
    let q = trim(query);
    let p = |c: (Seq<char>, Seq<char>, Seq<char>)| contains_text(c.1, q);
    law_contains_text(a, q, b, corps[i].1);
    lemma_keep_contains(corps, p, i);
    let hits = keep(corps, p);
    lemma_keep_len(corps, p);
    assert(hits.take(hits.len() as int) =~= hits);
}

} // verus!
