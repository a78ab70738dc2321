//! Audit working-paper tools the daemon delegates: deterministic output on
//! the analysis target. The footing report is the text the daemon turns
//! into a working paper.

use vstd::prelude::*;
use crate::daemon::fin_context::FinQuery;
use crate::domain::decimal::decimal_difference;
use crate::domain::footing::{FootingCheck, check_text};
use crate::domain::table::checks_displayable;
use crate::seqs::{keep, lemma_keep_push};
use crate::text::{i32_text, int_text, nat_text, push_str, to_string, u64_text};

verus! {

broadcast use vstd::string::group_string_axioms;

/// One check's line: period, name and the outcome (the difference when it
/// fails).
pub open spec fn check_line(c: FootingCheck) -> Seq<char> {
    "\n"@ + int_text(c.period as int) + " · "@ + c.name@ + " → "@ + if c.ok {
        "일치"@
    } else {
        "불일치 (차이 "@ + check_text(c) + ")"@
    }
}

pub open spec fn check_lines(cs: Seq<FootingCheck>) -> Seq<char>
    decreases cs.len(),
{
    if cs.len() == 0 {
        Seq::empty()
    } else {
        check_lines(cs.drop_last()) + check_line(cs.last())
    }
}

/// The checks that hold.
pub open spec fn passed(cs: Seq<FootingCheck>) -> Seq<FootingCheck> {
    keep(cs, |c: FootingCheck| c.ok)
}

/// The footing report: a header with the company and period, one line per
/// check, and how many of them hold; a note when nothing could be checked.
pub open spec fn footing_report(cs: Seq<FootingCheck>, q: FinQuery) -> Seq<char> {
    "[합계검증 · "@ + q.corp_code@ + " · "@ + int_text(q.start as int) + "~"@ + int_text(q.end as int)
        + "]"@ + if cs.len() == 0 {
        "\n검증 가능한 항목이 없습니다 (필요 계정 누락)."@
    } else {
        check_lines(cs) + "\n\n검증 "@ + nat_text(cs.len()) + "건 중 "@ + nat_text(passed(cs).len())
            + "건 일치."@
    }
}

/// The footing report (see [`footing_report`]).
pub fn render_footing(checks: &[FootingCheck], q: &FinQuery) -> (r: String)
    requires
        checks_displayable(checks@),
    ensures
        r@ == footing_report(checks@, *q),
{
    let mut s = to_string("[합계검증 · ");
    push_str(&mut s, q.corp_code.as_str());
    push_str(&mut s, " · ");
    let a = i32_text(q.start);
    push_str(&mut s, a.as_str());
    push_str(&mut s, "~");
    let b = i32_text(q.end);
    push_str(&mut s, b.as_str());
    push_str(&mut s, "]");
    if checks.len() == 0 {
        push_str(&mut s, "\n검증 가능한 항목이 없습니다 (필요 계정 누락).");
        return s;
    }
    let ghost head = s@;
    let mut pass: usize = 0;
    let mut i: usize = 0;
    while i < checks.len()
        invariant
            i <= checks@.len(),
            checks_displayable(checks@),
            s@ == head + check_lines(checks@.take(i as int)),
            pass == passed(checks@.take(i as int)).len(),
            pass <= i,
        decreases checks@.len() - i,
    {
        let c = &checks[i];
        proof {
            assert(checks@.take(i + 1).drop_last() =~= checks@.take(i as int));
            assert(checks@.take(i + 1).last() == checks@[i as int]);
            lemma_keep_push(checks@.take(i as int), checks@[i as int], |c: FootingCheck| c.ok);
        }
        push_str(&mut s, "\n");
        let p = i32_text(c.period);
        push_str(&mut s, p.as_str());
        push_str(&mut s, " · ");
        push_str(&mut s, c.name);
        push_str(&mut s, " → ");
        if c.ok {
            push_str(&mut s, "일치");
            pass += 1;
        } else {
            assert(!checks@[i as int].ok ==> decimal_difference(
                checks@[i as int].computed.0@,
                checks@[i as int].expected.0@,
            ) is Some);
            push_str(&mut s, "불일치 (차이 ");
            let d = c.display();
            push_str(&mut s, d.as_str());
            push_str(&mut s, ")");
        }
        i += 1;
        assert(s@ =~= head + check_lines(checks@.take(i as int)));
    }
    assert(checks@.take(checks@.len() as int) =~= checks@);
    push_str(&mut s, "\n\n검증 ");
    let n = u64_text(checks.len() as u64);
    push_str(&mut s, n.as_str());
    push_str(&mut s, "건 중 ");
    let m = u64_text(pass as u64);
    push_str(&mut s, m.as_str());
    push_str(&mut s, "건 일치.");
    s
}

/// The report when no analysis target is set.
pub fn no_target() -> (r: String)
    ensures
        r@ == "분석 대상이 없습니다 — 먼저 회사·기간으로 재무제표를 조회하세요."@,
{
    to_string("분석 대상이 없습니다 — 먼저 회사·기간으로 재무제표를 조회하세요.")
}

} // verus!
