//! XBRL calculation linkbase (`cal.xml`): `<link:loc>` elements map a
//! locator label to a concept id (the part of `xlink:href` after `#`), and
//! `<link:calculationArc>` elements link two labels with an `order` and a
//! `weight`. Arcs whose labels have no locator are dropped.
//!
//! Also the footing of a company's calculation tree against its reported
//! values, and the table that shows the result.

use vstd::prelude::*;
use crate::dart::opendart::{i32_of, parse_i32};
use crate::domain::calc_tree::{FootingViolation, ViolationView, violation_views};
use crate::domain::decimal::{Dec, dec_to_string, decimal_text};
use crate::domain::fact::Fact;
use crate::domain::table::{Table, cells_view};
use crate::strmap::StrMap;
use crate::text::{chars_of, str_eq, string_from, to_string};
use quick_xml::events::Event;

verus! {

broadcast use vstd::string::group_string_axioms;

/// A linkbase reader event: an element (start or self-closing) with its
/// name and attributes, the end of input (or a read error), or anything
/// else.
pub enum LinkEvent {
    Element { name: String, attrs: Vec<(String, String)> },
    Eof,
    Other,
}

/// A linkbase event as plain values.
pub enum LinkEventView {
    Element { name: Seq<char>, attrs: Seq<(Seq<char>, Seq<char>)> },
    Eof,
    Other,
}

/// Attributes as plain (name, value) pairs.
pub open spec fn attr_views(attrs: Seq<(String, String)>) -> Seq<(Seq<char>, Seq<char>)> {
    attrs.map_values(|a: (String, String)| (a.0@, a.1@))
}

pub open spec fn link_view(e: LinkEvent) -> LinkEventView {
    match e {
        LinkEvent::Element { name, attrs } => LinkEventView::Element { name: name@, attrs: attr_views(attrs@) },
        LinkEvent::Eof => LinkEventView::Eof,
        LinkEvent::Other => LinkEventView::Other,
    }
}

pub open spec fn link_views(evs: Seq<LinkEvent>) -> Seq<LinkEventView> {
    evs.map_values(|e: LinkEvent| link_view(e))
}

/// What `quick_xml::Reader` reads from a linkbase: its elements (start or
/// self-closing, with their attributes in order) and other events as plain
/// values, ending with the end of input (a read error ends it too).
pub uninterp spec fn link_events_of(xml: Seq<char>) -> Seq<LinkEventView>;

/// Reads a linkbase with `quick_xml::Reader`: each start or self-closing
/// element with its name and attributes (a malformed attribute is skipped),
/// everything else as `Other`, and a final end of input (also after a read
/// error). Only the result is named here; the tokenizer is the `quick_xml`
/// crate's.
#[verifier::external_body]
fn link_events(xml: &str) -> (r: Vec<LinkEvent>)
    ensures
        link_views(r@) == link_events_of(xml@),
{
    let mut reader = quick_xml::reader::Reader::from_str(xml);
    let mut out = Vec::new();
    loop {
        let ev = match reader.read_event() {
            Ok(Event::Empty(e)) | Ok(Event::Start(e)) => LinkEvent::Element {
                name: e.name().as_ref().to_string(),
                attrs: e.attributes().flatten().map(|a| (a.key.as_ref().to_string(), a.value.into_owned())).collect(),
            },
            Ok(Event::Eof) | Err(_) => break,
            Ok(_) => LinkEvent::Other,
        };
        out.push(ev);
    }
    out.push(LinkEvent::Eof);
    out
}

/// The value of the last attribute named `key`.
pub open spec fn last_attr(attrs: Seq<(Seq<char>, Seq<char>)>, key: Seq<char>) -> Option<Seq<char>>
    decreases attrs.len(),
{
    if attrs.len() == 0 {
        None
    } else if attrs.last().0 == key {
        Some(attrs.last().1)
    } else {
        last_attr(attrs.drop_last(), key)
    }
}

pub open spec fn or_empty(o: Option<Seq<char>>) -> Seq<char> {
    match o {
        Some(s) => s,
        None => Seq::empty(),
    }
}

/// The text after the last `#` (`rsplit('#').next()`), or all of `s`.
pub open spec fn after_hash(s: Seq<char>) -> Seq<char>
    decreases s.len(),
{
    if s.len() == 0 {
        s
    } else if s.last() == '#' {
        Seq::empty()
    } else {
        after_hash(s.drop_last()).push(s.last())
    }
}

/// A locator's (label, concept id), when both are present.
pub open spec fn loc_entry(attrs: Seq<(Seq<char>, Seq<char>)>) -> Option<(Seq<char>, Seq<char>)> {
    let label = or_empty(last_attr(attrs, "xlink:label"@));
    let concept = after_hash(or_empty(last_attr(attrs, "xlink:href"@)));
    if label.len() > 0 && concept.len() > 0 {
        Some((label, concept))
    } else {
        None
    }
}

/// The weight attribute: its integer, else 1.
pub open spec fn weight_of(attrs: Seq<(Seq<char>, Seq<char>)>) -> i32 {
    match last_attr(attrs, "weight"@) {
        Some(t) => match i32_of(t) {
            Some(w) => w,
            None => 1,
        },
        None => 1,
    }
}

/// An arc's (from label, to label, order text, weight), when both labels
/// are present. A missing order is empty text (read as 0).
pub open spec fn arc_entry(attrs: Seq<(Seq<char>, Seq<char>)>) -> Option<
    (Seq<char>, Seq<char>, Seq<char>, i32),
> {
    let from = or_empty(last_attr(attrs, "xlink:from"@));
    let to = or_empty(last_attr(attrs, "xlink:to"@));
    if from.len() > 0 && to.len() > 0 {
        Some((from, to, or_empty(last_attr(attrs, "order"@)), weight_of(attrs)))
    } else {
        None
    }
}

/// The locators and the arcs read from the events, up to the end of input.
pub open spec fn link_scan(evs: Seq<LinkEventView>) -> (
    Map<Seq<char>, Seq<char>>,
    Seq<(Seq<char>, Seq<char>, Seq<char>, i32)>,
    bool,
)
    decreases evs.len(),
{
    if evs.len() == 0 {
        (Map::empty(), Seq::empty(), false)
    } else {
        let a = link_scan(evs.drop_last());
        if a.2 {
            a
        } else {
            match evs.last() {
                LinkEventView::Element { name, attrs } => if name == "link:loc"@ {
                    match loc_entry(attrs) {
                        Some(e) => (a.0.insert(e.0, e.1), a.1, false),
                        None => a,
                    }
                } else if name == "link:calculationArc"@ {
                    match arc_entry(attrs) {
                        Some(e) => (a.0, a.1.push(e), false),
                        None => a,
                    }
                } else {
                    a
                },
                LinkEventView::Eof => (a.0, a.1, true),
                LinkEventView::Other => a,
            }
        }
    }
}

/// The arcs with both labels replaced by their concept ids; arcs with a
/// label no locator defines are dropped.
pub open spec fn resolved(
    locs: Map<Seq<char>, Seq<char>>,
    arcs: Seq<(Seq<char>, Seq<char>, Seq<char>, i32)>,
) -> Seq<(Seq<char>, Seq<char>, Seq<char>, i32)>
    decreases arcs.len(),
{
    if arcs.len() == 0 {
        Seq::empty()
    } else {
        let r = resolved(locs, arcs.drop_last());
        let a = arcs.last();
        if locs.contains_key(a.0) && locs.contains_key(a.1) {
            r.push((locs[a.0], locs[a.1], a.2, a.3))
        } else {
            r
        }
    }
}

/// An arc as plain values.
pub open spec fn link_arc_view(a: (String, String, String, i32)) -> (Seq<char>, Seq<char>, Seq<char>, i32) {
    (a.0@, a.1@, a.2@, a.3)
}

/// The last value of attribute `key`.
fn find_attr(attrs: &Vec<(String, String)>, key: &str) -> (r: Option<String>)
    ensures
        match r {
            Some(v) => last_attr(attr_views(attrs@), key@) == Some(v@),
            None => last_attr(attr_views(attrs@), key@) is None,
        },
{
    let ghost av = attr_views(attrs@);
    let mut i: usize = attrs.len();
    assert(av.take(attrs@.len() as int) =~= av);
    while i > 0
        invariant
            i <= attrs@.len(),
            av == attr_views(attrs@),
            last_attr(av, key@) == last_attr(av.take(i as int), key@),
        decreases i,
    {
        let ghost t = av.take(i as int);
        assert(t.drop_last() =~= av.take(i - 1));
        assert(t.last() == (attrs@[i - 1].0@, attrs@[i - 1].1@));
        if str_eq(attrs[i - 1].0.as_str(), key) {
            return Some(attrs[i - 1].1.clone());
        }
        i -= 1;
    }
    assert(av.take(0) =~= Seq::<(Seq<char>, Seq<char>)>::empty());
    None
}

fn value_or_empty(o: Option<String>) -> (r: String)
    ensures
        r@ == match o {
            Some(s) => s@,
            None => Seq::<char>::empty(),
        },
{
    match o {
        Some(s) => s,
        None => String::new(),
    }
}

/// The text after the last `#`.
fn text_after_hash(s: &str) -> (r: String)
    ensures
        r@ == after_hash(s@),
{
    let cs = chars_of(s);
    let mut start: usize = 0;
    let mut i: usize = 0;
    while i < cs.len()
        invariant
            i <= cs@.len(),
            start <= i,
            after_hash(cs@.take(i as int)) == cs@.subrange(start as int, i as int),
        decreases cs@.len() - i,
    {
        assert(cs@.take(i + 1).drop_last() =~= cs@.take(i as int));
        assert(cs@.take(i + 1).last() == cs@[i as int]);
        if cs[i] == '#' {
            start = i + 1;
            assert(cs@.subrange(start as int, i + 1) =~= Seq::<char>::empty());
        } else {
            assert(cs@.subrange(start as int, i + 1) =~= cs@.subrange(start as int, i as int).push(
                cs@[i as int],
            ));
        }
        i += 1;
    }
    assert(cs@.take(cs@.len() as int) =~= cs@);
    string_from(&cs, start, cs.len())
}

/// The locator and arc entries of the events, with arcs resolved to
/// concept ids: (parent concept, child concept, order text, weight) in
/// document order.
pub fn resolve_arcs(evs: &Vec<LinkEvent>) -> (r: Vec<(String, String, String, i32)>)
    ensures
        r@.map_values(|a: (String, String, String, i32)| link_arc_view(a)) == resolved(
            link_scan(link_views(evs@)).0,
            link_scan(link_views(evs@)).1,
        ),
{
    let ghost ev = link_views(evs@);
    let mut locs: StrMap<String> = StrMap::new();
    let mut raw: Vec<(String, String, String, i32)> = Vec::new();
    let mut done = false;
    let mut i: usize = 0;
    proof {
        reveal_strlit("xlink:label");
        reveal_strlit("xlink:href");
    }
    while i < evs.len()
        invariant
            i <= evs@.len(),
            locs.wf(),
            ev == link_views(evs@),
            link_scan(ev.take(i as int)) == (
                locs@,
                raw@.map_values(|a: (String, String, String, i32)| link_arc_view(a)),
                done,
            ),
        decreases evs@.len() - i,
    {
        assert(ev.take(i + 1).drop_last() =~= ev.take(i as int));
        assert(ev.take(i + 1).last() == link_view(evs@[i as int]));
        if !done {
            match &evs[i] {
                LinkEvent::Element { name, attrs } => {
                    if str_eq(name.as_str(), "link:loc") {
                        let label = value_or_empty(find_attr(attrs, "xlink:label"));
                        let href = value_or_empty(find_attr(attrs, "xlink:href"));
                        let concept = text_after_hash(href.as_str());
                        if label.as_str().unicode_len() > 0 && concept.as_str().unicode_len() > 0 {
                            locs.insert(label, concept);
                        }
                    } else if str_eq(name.as_str(), "link:calculationArc") {
                        let from = value_or_empty(find_attr(attrs, "xlink:from"));
                        let to = value_or_empty(find_attr(attrs, "xlink:to"));
                        if from.as_str().unicode_len() > 0 && to.as_str().unicode_len() > 0 {
                            let order = value_or_empty(find_attr(attrs, "order"));
                            let weight: i32 = match find_attr(attrs, "weight") {
                                Some(t) => match parse_i32(t.as_str()) {
                                    Some(w) => w,
                                    None => 1,
                                },
                                None => 1,
                            };
                            let ghost before = raw@.map_values(
                                |a: (String, String, String, i32)| link_arc_view(a),
                            );
                            let ghost e = (from@, to@, order@, weight);
                            raw.push((from, to, order, weight));
                            assert(raw@.map_values(|a: (String, String, String, i32)| link_arc_view(a))
                                =~= before.push(e));
                        }
                    }
                },
                LinkEvent::Eof => {
                    done = true;
                },
                LinkEvent::Other => {},
            }
        }
        i += 1;
    }
    assert(ev.take(evs@.len() as int) =~= ev);
    let ghost lv = locs@;
    let ghost rv = raw@.map_values(|a: (String, String, String, i32)| link_arc_view(a));
    let mut out: Vec<(String, String, String, i32)> = Vec::new();
    let mut j: usize = 0;
    while j < raw.len()
        invariant
            j <= raw@.len(),
            locs.wf(),
            locs@ == lv,
            rv == raw@.map_values(|a: (String, String, String, i32)| link_arc_view(a)),
            out@.map_values(|a: (String, String, String, i32)| link_arc_view(a)) == resolved(
                lv,
                rv.take(j as int),
            ),
        decreases raw@.len() - j,
    {
        assert(rv.take(j + 1).drop_last() =~= rv.take(j as int));
        assert(rv.take(j + 1).last() == link_arc_view(raw@[j as int]));
        let a = &raw[j];
        match (locs.get(a.0.as_str()), locs.get(a.1.as_str())) {
            (Some(p), Some(c)) => {
                let ghost before = out@.map_values(|a: (String, String, String, i32)| link_arc_view(a));
                let item = (p.clone(), c.clone(), a.2.clone(), a.3);
                let ghost e = link_arc_view(item);
                out.push(item);
                assert(out@.map_values(|a: (String, String, String, i32)| link_arc_view(a)) =~= before.push(
                    e,
                ));
            },
            _ => {},
        }
        j += 1;
    }
    assert(rv.take(raw@.len() as int) =~= rv);
    out
}

/// The arcs of a calculation linkbase (`cal.xml`), resolved to concept ids:
/// (parent concept, child concept, order text, weight) in document order.
pub fn linkbase_arcs(xml: &str) -> (r: Vec<(String, String, String, i32)>)
    ensures
        r@.map_values(|a: (String, String, String, i32)| link_arc_view(a)) == resolved(
            link_scan(link_events_of(xml@)).0,
            link_scan(link_events_of(xml@)).1,
        ),
{
    resolve_arcs(&link_events(xml))
}

/// The reported values of one year: concept id → amount; a later fact for
/// the same concept replaces an earlier one.
pub open spec fn year_values(facts: Seq<Fact>, year: i32) -> Map<Seq<char>, (int, int, bool)>
    decreases facts.len(),
{
    if facts.len() == 0 {
        Map::empty()
    } else {
        let m = year_values(facts.drop_last(), year);
        let f = facts.last();
        if f.period == year {
            m.insert(f.concept_id@, f.value.0@)
        } else {
            m
        }
    }
}

/// The values the footing compares: each fact of `year` by concept id.
pub fn values_for_year(facts: &[Fact], year: i32) -> (r: StrMap<Dec>)
    ensures
        r.wf(),
        r@ == year_values(facts@, year),
{
    let mut m: StrMap<Dec> = StrMap::new();
    let mut i: usize = 0;
    while i < facts.len()
        invariant
            i <= facts@.len(),
            m.wf(),
            m@ == year_values(facts@.take(i as int), year),
        decreases facts@.len() - i,
    {
        assert(facts@.take(i + 1).drop_last() =~= facts@.take(i as int));
        assert(facts@.take(i + 1).last() == facts@[i as int]);
        if facts[i].period == year {
            m.insert(facts[i].concept_id.clone(), facts[i].value.0);
        }
        i += 1;
    }
    assert(facts@.take(facts@.len() as int) =~= facts@);
    m
}

/// The row of one violation: concept id, reported value, sum of the
/// children, difference.
pub open spec fn violation_row(v: ViolationView) -> Seq<Seq<char>> {
    seq![v.0, decimal_text(v.2), decimal_text(v.1), decimal_text(v.3)]
}

/// The footing table: a pass line when nothing is violated, else one row
/// per violation.
pub open spec fn violations_text(vs: Seq<ViolationView>, headers: Seq<Seq<char>>, rows: Seq<Seq<Seq<char>>>) -> bool {
    if vs.len() == 0 {
        headers == seq!["합계검증"@] && rows == seq![seq!["✅ 모든 계층 합계가 일치합니다 (footing 통과)"@]]
    } else {
        headers == seq!["계정ID"@, "신고값"@, "자식 합계"@, "차이"@] && rows == vs.map_values(
            |v: ViolationView| violation_row(v),
        )
    }
}

/// Footing violations → table.
pub fn violations_table(viol: &Vec<FootingViolation>) -> (r: Table)
    ensures
        violations_text(
            violation_views(viol@),
            cells_view(r.headers@),
            r.rows@.map_values(|row: Vec<String>| cells_view(row@)),
        ),
        r.keys@.len() == 0,
{
    if viol.len() == 0 {
        let mut headers: Vec<String> = Vec::new();
        headers.push(to_string("합계검증"));
        let mut row: Vec<String> = Vec::new();
        row.push(to_string("✅ 모든 계층 합계가 일치합니다 (footing 통과)"));
        let mut rows: Vec<Vec<String>> = Vec::new();
        let ghost rv = row;
        rows.push(row);
        assert(cells_view(headers@) =~= seq!["합계검증"@]);
        assert(cells_view(rv@) =~= seq!["✅ 모든 계층 합계가 일치합니다 (footing 통과)"@]);
        assert(rows@.map_values(|row: Vec<String>| cells_view(row@)) =~= seq![
            seq!["✅ 모든 계층 합계가 일치합니다 (footing 통과)"@],
        ]);
        return Table { headers, rows, keys: Vec::new() };
    }
    let mut headers: Vec<String> = Vec::new();
    headers.push(to_string("계정ID"));
    headers.push(to_string("신고값"));
    headers.push(to_string("자식 합계"));
    headers.push(to_string("차이"));
    assert(cells_view(headers@) =~= seq!["계정ID"@, "신고값"@, "자식 합계"@, "차이"@]);
    let mut rows: Vec<Vec<String>> = Vec::new();
    let mut i: usize = 0;
    while i < viol.len()
        invariant
            i <= viol@.len(),
            rows@.len() == i,
            forall|k: int|
                0 <= k < i ==> cells_view((#[trigger] rows@[k])@) == violation_row(
                    violation_views(viol@)[k],
                ),
        decreases viol@.len() - i,
    {
        let v = &viol[i];
        let mut row: Vec<String> = Vec::new();
        row.push(v.concept_id.clone());
        row.push(dec_to_string(v.actual));
        row.push(dec_to_string(v.expected));
        row.push(dec_to_string(v.diff));
        assert(cells_view(row@) =~= violation_row(violation_views(viol@)[i as int]));
        rows.push(row);
        i += 1;
    }
    assert(rows@.map_values(|row: Vec<String>| cells_view(row@)) =~= violation_views(viol@).map_values(
        |v: ViolationView| violation_row(v),
    ));
    Table { headers, rows, keys: Vec::new() }
}

} // verus!
