//! Data tools the daemon delegates: a company search by name, and loading
//! a company's statements for a period. The daemon decides which company
//! and when; the client runs the search or the fetch and answers with a
//! deterministic summary. A loaded statement is shown on screen and becomes
//! the analysis target of the later checks.

use vstd::prelude::*;
use crate::daemon::fin_context::FinQuery;
use crate::dart::corp::{Corp, corps_view};
use crate::domain::fact::Fact;
use crate::domain::table::{Table, is_pivot};
use crate::text::{chars_of, i32_text, int_text, nat_text, push_str, string_of, to_string, trim, trim_chars, trim_str, u64_text};

verus! {

broadcast use vstd::string::group_string_axioms;

/// Companies listed in a search answer.
pub const SHOWN_CORPS: usize = 20;

pub open spec fn opt_text(o: Option<&str>) -> Seq<char> {
    match o {
        Some(s) => s@,
        None => ""@,
    }
}

/// The query of a company search: the `query` argument trimmed; an error
/// when it is missing or blank.
pub fn company_query(query: Option<&str>) -> (r: Result<String, String>)
    ensures
        trim(opt_text(query)).len() == 0 ==> r is Err && r->Err_0@ == "query(회사명)가 비었습니다."@,
        trim(opt_text(query)).len() > 0 ==> r is Ok && r->Ok_0@ == trim(opt_text(query)),
{
    let q = match query {
        Some(s) => trim_str(s),
        None => trim_str(""),
    };
    proof {
        reveal_strlit("");
    }
    if q.as_str().unicode_len() == 0 {
        Err(to_string("query(회사명)가 비었습니다."))
    } else {
        Ok(q)
    }
}

/// How a listed company's stock code reads: trimmed, or "비상장" (unlisted)
/// when blank.
pub open spec fn stock_label(stock: Seq<char>) -> Seq<char> {
    if trim(stock).len() == 0 {
        "비상장"@
    } else {
        trim(stock)
    }
}

/// One listed company: "\n{code} · {name} ({stock})".
pub open spec fn corp_line(c: (Seq<char>, Seq<char>, Seq<char>)) -> Seq<char> {
    "\n"@ + c.0 + " · "@ + c.1 + " ("@ + stock_label(c.2) + ")"@
}

pub open spec fn corp_lines(cs: Seq<(Seq<char>, Seq<char>, Seq<char>)>) -> Seq<char>
    decreases cs.len(),
{
    if cs.len() == 0 {
        Seq::empty()
    } else {
        corp_lines(cs.drop_last()) + corp_line(cs.last())
    }
}

/// The answer to a company search for `q` that found `cs`: "none found", or
/// the count and the first [`SHOWN_CORPS`] companies, one per line.
pub open spec fn search_text(q: Seq<char>, cs: Seq<(Seq<char>, Seq<char>, Seq<char>)>) -> Seq<char> {
    if cs.len() == 0 {
        "'"@ + q + "' 검색 결과 없음."@
    } else {
        "회사 검색 '"@ + q + "' → "@ + nat_text(cs.len()) + "건:"@ + corp_lines(
            cs.take(
                if cs.len() < SHOWN_CORPS {
                    cs.len() as int
                } else {
                    SHOWN_CORPS as int
                },
            ),
        )
    }
}

fn stock_of(stock: &str) -> (r: String)
    ensures
        r@ == stock_label(stock@),
{
    let t = trim_str(stock);
    if t.as_str().unicode_len() == 0 {
        to_string("비상장")
    } else {
        t
    }
}

/// The tool's answer to a company search for `q` (already trimmed), given
/// what the search returned: the list (see [`search_text`]), or the error
/// "회사 검색 실패: {e}". The flag says whether the tool succeeded.
pub fn company_answer(q: &str, found: &Result<Vec<Corp>, String>) -> (r: (String, bool))
    ensures
        match found {
            Ok(list) => r.1 && r.0@ == search_text(q@, corps_view(list@)),
            Err(e) => !r.1 && r.0@ == "회사 검색 실패: "@ + e@,
        },
{
    match found {
        Err(e) => {
            let mut s = to_string("회사 검색 실패: ");
            push_str(&mut s, e.as_str());
            (s, false)
        },
        Ok(list) => {
            if list.len() == 0 {
                let mut s = to_string("'");
                push_str(&mut s, q);
                push_str(&mut s, "' 검색 결과 없음.");
                return (s, true);
            }
            let ghost cs = corps_view(list@);
            let mut s = to_string("회사 검색 '");
            push_str(&mut s, q);
            push_str(&mut s, "' → ");
            let n = u64_text(list.len() as u64);
            push_str(&mut s, n.as_str());
            push_str(&mut s, "건:");
            let ghost head = s@;
            let shown = if list.len() < SHOWN_CORPS {
                list.len()
            } else {
                SHOWN_CORPS
            };
            let mut i: usize = 0;
            while i < shown
                invariant
                    i <= shown <= list@.len(),
                    cs == corps_view(list@),
                    s@ == head + corp_lines(cs.take(i as int)),
                decreases shown - i,
            {
                let c = &list[i];
                proof {
                    assert(cs.take(i + 1).drop_last() =~= cs.take(i as int));
                    assert(cs.take(i + 1).last() == cs[i as int]);
                }
                push_str(&mut s, "\n");
                push_str(&mut s, c.code.as_str());
                push_str(&mut s, " · ");
                push_str(&mut s, c.name.as_str());
                push_str(&mut s, " (");
                let st = stock_of(c.stock.as_str());
                push_str(&mut s, st.as_str());
                push_str(&mut s, ")");
                i += 1;
                assert(s@ =~= head + corp_lines(cs.take(i as int)));
            }
            (s, true)
        },
    }
}

/// A statement load the daemon asked for: the company code (trimmed), the
/// years, the basis and report kind as given, and the company name for the
/// answer.
pub struct LoadRequest {
    pub corp_code: String,
    pub start: i32,
    pub end: i32,
    pub basis: Option<String>,
    pub reprt: Option<String>,
    pub corp_name: String,
}

/// The load request from the tool's arguments. The company code is
/// trimmed and required; both years are required (taken as `i32`, as the
/// daemon's integers are converted); the name defaults to empty.
pub fn load_request(
    corp_code: Option<&str>,
    start: Option<i64>,
    end: Option<i64>,
    basis: Option<String>,
    reprt: Option<String>,
    corp_name: Option<&str>,
) -> (r: Result<LoadRequest, String>)
    ensures
        trim(opt_text(corp_code)).len() == 0 ==> r is Err && r->Err_0@
            == "corp_code 가 필요합니다 (search_company 로 먼저 찾으세요)."@,
        trim(opt_text(corp_code)).len() > 0 && (start is None || end is None) ==> r is Err
            && r->Err_0@ == "start·end(연도)가 필요합니다."@,
        trim(opt_text(corp_code)).len() > 0 && start is Some && end is Some ==> r is Ok && {
            let q = r->Ok_0;
            &&& q.corp_code@ == trim(opt_text(corp_code))
            &&& q.start == start->0 as i32
            &&& q.end == end->0 as i32
            &&& q.basis == basis
            &&& q.reprt == reprt
            &&& q.corp_name@ == opt_text(corp_name)
        },
{
    let code = match corp_code {
        Some(s) => trim_str(s),
        None => trim_str(""),
    };
    proof {
        reveal_strlit("");
    }
    if code.as_str().unicode_len() == 0 {
        return Err(to_string("corp_code 가 필요합니다 (search_company 로 먼저 찾으세요)."));
    }
    let (s, e) = match (start, end) {
        (Some(s), Some(e)) => (s, e),
        _ => return Err(to_string("start·end(연도)가 필요합니다.")),
    };
    let name = match corp_name {
        Some(n) => to_string(n),
        None => to_string(""),
    };
    Ok(LoadRequest { corp_code: code, start: s as i32, end: e as i32, basis, reprt, corp_name: name })
}

/// "[{corp_code} {start}~{end}] 조회된 데이터가 없습니다." — nothing was
/// found for the period.
pub open spec fn no_data_text(q: LoadRequest) -> Seq<char> {
    "["@ + q.corp_code@ + " "@ + int_text(q.start as int) + "~"@ + int_text(q.end as int)
        + "] 조회된 데이터가 없습니다."@
}

/// Who was loaded: "{name}({code})", or the code alone without a name.
pub open spec fn who_text(q: LoadRequest) -> Seq<char> {
    if q.corp_name@.len() == 0 {
        q.corp_code@
    } else {
        q.corp_name@ + "("@ + q.corp_code@ + ")"@
    }
}

/// The answer after a load of `rows` accounts.
pub open spec fn loaded_text(q: LoadRequest, rows: nat) -> Seq<char> {
    "["@ + who_text(q) + " "@ + int_text(q.start as int) + "~"@ + int_text(q.end as int)
        + "] 재무제표 "@ + nat_text(rows) + "개 계정 로드 완료 — 화면에 표시했고 분석 대상으로 설정했습니다."@
}

/// The outcome of a load: the table to show and the analysis target to set
/// (both only when something was found), the answer, and whether the tool
/// succeeded.
pub struct LoadAnswer {
    pub table: Option<Table>,
    pub target: Option<FinQuery>,
    pub message: String,
    pub ok: bool,
}

fn copy_opt(o: &Option<String>) -> (r: Option<String>)
    ensures
        match o {
            Some(s) => r is Some && r->0@ == s@,
            None => r is None,
        },
{
    match o {
        Some(s) => Some(s.clone()),
        None => None,
    }
}

/// The tool's answer to a load, given what the fetch returned: its error
/// ("재무제표 조회 실패: {e}"); "no data" when no fact came back; else the
/// account × year table of the facts, the request as the new analysis
/// target, and the number of accounts loaded.
pub fn load_answer(q: &LoadRequest, fetched: Result<Vec<Fact>, String>) -> (r: LoadAnswer)
    ensures
        match fetched {
            Err(e) => !r.ok && r.table is None && r.target is None && r.message@ == "재무제표 조회 실패: "@
                + e@,
            Ok(facts) => if facts@.len() == 0 {
                r.ok && r.table is None && r.target is None && r.message@ == no_data_text(*q)
            } else {
                &&& r.ok
                &&& r.table matches Some(t) && is_pivot(facts@, t) && r.message@ == loaded_text(
                    *q,
                    t.rows@.len(),
                )
                &&& r.target matches Some(tg) && tg.corp_code@ == q.corp_code@ && tg.start
                    == q.start && tg.end == q.end && opt_strings(tg.basis) == opt_strings(q.basis)
                    && opt_strings(tg.reprt) == opt_strings(q.reprt)
            },
        },
{
    match fetched {
        Err(e) => {
            let mut s = to_string("재무제표 조회 실패: ");
            push_str(&mut s, e.as_str());
            LoadAnswer { table: None, target: None, message: s, ok: false }
        },
        Ok(facts) => {
            if facts.len() == 0 {
                let mut s = to_string("[");
                push_str(&mut s, q.corp_code.as_str());
                push_str(&mut s, " ");
                let a = i32_text(q.start);
                push_str(&mut s, a.as_str());
                push_str(&mut s, "~");
                let b = i32_text(q.end);
                push_str(&mut s, b.as_str());
                push_str(&mut s, "] 조회된 데이터가 없습니다.");
                return LoadAnswer { table: None, target: None, message: s, ok: true };
            }
            let table = Table::pivot(facts.as_slice());
            let mut s = to_string("[");
            if q.corp_name.as_str().unicode_len() == 0 {
                push_str(&mut s, q.corp_code.as_str());
            } else {
                push_str(&mut s, q.corp_name.as_str());
                push_str(&mut s, "(");
                push_str(&mut s, q.corp_code.as_str());
                push_str(&mut s, ")");
            }
            push_str(&mut s, " ");
            let a = i32_text(q.start);
            push_str(&mut s, a.as_str());
            push_str(&mut s, "~");
            let b = i32_text(q.end);
            push_str(&mut s, b.as_str());
            push_str(&mut s, "] 재무제표 ");
            let n = u64_text(table.rows.len() as u64);
            push_str(&mut s, n.as_str());
            push_str(&mut s, "개 계정 로드 완료 — 화면에 표시했고 분석 대상으로 설정했습니다.");
            let target = FinQuery {
                corp_code: q.corp_code.clone(),
                start: q.start,
                end: q.end,
                basis: copy_opt(&q.basis),
                reprt: copy_opt(&q.reprt),
            };
            LoadAnswer { table: Some(table), target: Some(target), message: s, ok: true }
        },
    }
}

pub open spec fn opt_strings(o: Option<String>) -> Option<Seq<char>> {
    match o {
        Some(s) => Some(s@),
        None => None,
    }
}

} // verus!
