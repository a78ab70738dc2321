//! OpenDART single-company statements (`fnlttSinglAcntAll`): request
//! parameters, the response status, and the rows melted into facts.

use vstd::prelude::*;
use crate::domain::fact::{Fact, melt_concept};
use crate::domain::money::{Money, parsed_amount};
use crate::domain::statement::{Statement, sj_div_of};
use crate::seqs::{keep, lemma_keep_push};
use crate::text::{chars_of, push_str, str_eq, to_string};

verus! {

broadcast use vstd::string::group_string_axioms;

/// One response row; a missing field reads as empty.
pub struct DartItem {
    /// Statement code (BS/IS/CIS/CF/SCE).
    pub sj_div: String,
    /// XBRL standard account id (empty for a non-standard account).
    pub account_id: String,
    pub account_nm: String,
    /// This period's amount.
    pub thstrm_amount: String,
    /// This period's cumulative amount (quarterly and half-year reports).
    pub thstrm_add_amount: String,
    /// Last period's amount.
    pub frmtrm_amount: String,
    /// The amount of the period before.
    pub bfefrmtrm_amount: String,
}

/// Statement basis: "OFS" (separate) stays; anything else, or none, is
/// "CFS" (consolidated).
pub fn norm_basis(basis: Option<String>) -> (r: &'static str)
    ensures
        r@ == if basis is Some && basis->0@ == "OFS"@ {
            "OFS"@
        } else {
            "CFS"@
        },
{
    match basis {
        Some(b) => if str_eq(b.as_str(), "OFS") {
            "OFS"
        } else {
            "CFS"
        },
        None => "CFS",
    }
}

/// Report kind: 11012 (half year), 11013 (first quarter), 11014 (third
/// quarter) stay; anything else, or none, is 11011 (annual report).
pub fn norm_reprt(reprt: Option<String>) -> (r: &'static str)
    ensures
        r@ == match reprt {
            Some(s) => if s@ == "11012"@ {
                "11012"@
            } else if s@ == "11013"@ {
                "11013"@
            } else if s@ == "11014"@ {
                "11014"@
            } else {
                "11011"@
            },
            None => "11011"@,
        },
{
    match reprt {
        Some(s) => if str_eq(s.as_str(), "11012") {
            "11012"
        } else if str_eq(s.as_str(), "11013") {
            "11013"
        } else if str_eq(s.as_str(), "11014") {
            "11014"
        } else {
            "11011"
        },
        None => "11011",
    }
}

pub open spec fn is_digit(c: char) -> bool {
    '0' <= c && c <= '9'
}

/// Value of a run of decimal digits.
pub open spec fn digits_value(d: Seq<char>) -> int
    decreases d.len(),
{
    if d.len() == 0 {
        0
    } else {
        digits_value(d.drop_last()) * 10 + (d.last() as int - '0' as int)
    }
}

/// The integer a text writes (`str::parse::<i32>` before the range check):
/// an optional sign, then one or more ASCII digits.
pub open spec fn int_of(s: Seq<char>) -> Option<int> {
    if s.len() > 0 && (s[0] == '-' || s[0] == '+') {
        let d = s.skip(1);
        if d.len() > 0 && forall|i: int| 0 <= i < d.len() ==> is_digit(#[trigger] d[i]) {
            Some(if s[0] == '-' { -digits_value(d) } else { digits_value(d) })
        } else {
            None
        }
    } else if s.len() > 0 && forall|i: int| 0 <= i < s.len() ==> is_digit(#[trigger] s[i]) {
        Some(digits_value(s))
    } else {
        None
    }
}

/// `str::parse::<i32>`: the written integer when it fits an `i32`.
pub open spec fn i32_of(s: Seq<char>) -> Option<i32> {
    match int_of(s) {
        Some(v) => if i32::MIN <= v <= i32::MAX {
            Some(v as i32)
        } else {
            None
        },
        None => None,
    }
}

pub proof fn lemma_digits_grow(d: Seq<char>, k: int)
    requires
        0 <= k <= d.len(),
        forall|i: int| 0 <= i < d.len() ==> is_digit(#[trigger] d[i]),
    ensures
        digits_value(d) >= digits_value(d.take(k)),
        digits_value(d.take(k)) >= 0,
    decreases d.len() - k,
{
    if k < d.len() {
        lemma_digits_grow(d, k + 1);
        assert(d.take(k + 1).drop_last() =~= d.take(k));
        assert(is_digit(d[k]));
    } else {
        assert(d.take(k) =~= d);
        lemma_digits_nonneg(d);
    }
}

pub proof fn lemma_digits_nonneg(d: Seq<char>)
    requires
        forall|i: int| 0 <= i < d.len() ==> is_digit(#[trigger] d[i]),
    ensures
        digits_value(d) >= 0,
    decreases d.len(),
{
    if d.len() > 0 {
        assert(is_digit(d[d.len() - 1]));
        lemma_digits_nonneg(d.drop_last());
    }
}

/// Parses a decimal `i32` (`str::parse::<i32>`).
pub fn parse_i32(s: &str) -> (r: Option<i32>)
    ensures
        r == i32_of(s@),
{
    let cs = chars_of(s);
    let n = cs.len();
    if n == 0 {
        return None;
    }
    let signed = cs[0] == '-' || cs[0] == '+';
    let neg = cs[0] == '-';
    let start: usize = if signed {
        1
    } else {
        0
    };
    if start == n {
        return None;
    }
    let ghost d = cs@.skip(start as int);
    assert(!signed ==> d =~= s@);
    let mut v: i64 = 0;
    let mut i: usize = start;
    assert(d.take(0) =~= Seq::<char>::empty());
    while i < n
        invariant
            n == cs@.len(),
            cs@ == s@,
            start <= i <= n,
            start < n,
            d == cs@.skip(start as int),
            d.len() == n - start,
            signed == (s@[0] == '-' || s@[0] == '+'),
            neg == (s@[0] == '-'),
            signed ==> start == 1,
            !signed ==> start == 0 && d == s@,
            forall|q: int| 0 <= q < i - start ==> is_digit(#[trigger] d[q]),
            v == digits_value(d.take(i - start)),
            0 <= v <= 0x8000_0000,
        decreases n - i,
    {
        let c = cs[i];
        assert(d[i - start] == c);
        if !('0' <= c && c <= '9') {
            assert(!is_digit(d[i - start]));
            assert(!(forall|q: int| 0 <= q < d.len() ==> is_digit(#[trigger] d[q])));
            return None;
        }
        let dv = (c as u32 - '0' as u32) as i64;
        proof {
            assert(d.take(i - start + 1).drop_last() =~= d.take(i - start));
        }
        v = v * 10 + dv;
        i += 1;
        if v > 0x8000_0000 {
            proof {
                if forall|q: int| 0 <= q < d.len() ==> is_digit(#[trigger] d[q]) {
                    lemma_digits_grow(d, i - start);
                }
            }
            return None;
        }
    }
    assert(d.take(n - start) =~= d);
    assert(forall|q: int| 0 <= q < d.len() ==> is_digit(#[trigger] d[q]));
    assert(int_of(s@) == Some(if neg { -digits_value(d) } else { digits_value(d) }));
    if neg {
        Some((-v) as i32)
    } else if v > 0x7fff_ffff {
        None
    } else {
        Some(v as i32)
    }
}

/// What a response status means: `Ok(true)` for data ("000"), `Ok(false)`
/// for no data ("013", an empty year, not an error), else the error shown
/// to the user.
pub open spec fn status_reason(status: Seq<char>) -> Option<Seq<char>> {
    if status == "010"@ {
        Some("등록되지 않은 인증키입니다."@)
    } else if status == "011"@ {
        Some("사용할 수 없는 키입니다(OpenDART 이용 등록 필요)."@)
    } else if status == "012"@ {
        Some("접근할 수 없는 IP입니다."@)
    } else if status == "020"@ {
        Some("요청 제한을 초과했습니다."@)
    } else if status == "021"@ {
        Some("조회 가능한 회사 개수를 초과했습니다."@)
    } else if status == "100"@ || status == "101"@ {
        Some("요청 값이 부적절합니다."@)
    } else if status == "800"@ {
        Some("OpenDART 시스템 점검 중입니다."@)
    } else if status == "901"@ {
        Some("사용자 계정이 만료되었습니다."@)
    } else {
        None
    }
}

fn reason_of(status: &str) -> (r: Option<&'static str>)
    ensures
        match r {
            Some(x) => status_reason(status@) == Some(x@),
            None => status_reason(status@) is None,
        },
{
    if str_eq(status, "010") {
        Some("등록되지 않은 인증키입니다.")
    } else if str_eq(status, "011") {
        Some("사용할 수 없는 키입니다(OpenDART 이용 등록 필요).")
    } else if str_eq(status, "012") {
        Some("접근할 수 없는 IP입니다.")
    } else if str_eq(status, "020") {
        Some("요청 제한을 초과했습니다.")
    } else if str_eq(status, "021") {
        Some("조회 가능한 회사 개수를 초과했습니다.")
    } else if str_eq(status, "100") || str_eq(status, "101") {
        Some("요청 값이 부적절합니다.")
    } else if str_eq(status, "800") {
        Some("OpenDART 시스템 점검 중입니다.")
    } else if str_eq(status, "901") {
        Some("사용자 계정이 만료되었습니다.")
    } else {
        None
    }
}

/// The meaning of a response status (see [`status_reason`]): a known code
/// gives `[status] reason`, an unknown one `OpenDART 오류 [status]: message`.
pub fn check_status(status: &str, message: &str) -> (r: Result<bool, String>)
    ensures
        status@ == "000"@ ==> r == Ok::<bool, String>(true),
        status@ == "013"@ ==> r == Ok::<bool, String>(false),
        status@ != "000"@ && status@ != "013"@ ==> r is Err && r->Err_0@ == match status_reason(
            status@,
        ) {
            Some(reason) => "["@ + status@ + "] "@ + reason,
            None => "OpenDART 오류 ["@ + status@ + "]: "@ + message@,
        },
{
    proof {
        reveal_strlit("000");
        reveal_strlit("013");
        assert("000"@[1] != "013"@[1]);
    }
    if str_eq(status, "000") {
        return Ok(true);
    }
    if str_eq(status, "013") {
        return Ok(false);
    }
    match reason_of(status) {
        Some(reason) => {
            let mut e = to_string("[");
            push_str(&mut e, status);
            push_str(&mut e, "] ");
            push_str(&mut e, reason);
            Err(e)
        },
        None => {
            let mut e = to_string("OpenDART 오류 [");
            push_str(&mut e, status);
            push_str(&mut e, "]: ");
            push_str(&mut e, message);
            Err(e)
        },
    }
}

/// The rows whose statement code is known.
pub open spec fn known_rows(items: Seq<DartItem>) -> Seq<DartItem> {
    keep(items, |d: DartItem| sj_div_of(d.sj_div@) is Some)
}

/// The base year: the requested year as a number, 0 when it is none.
pub open spec fn base_year_of(year: Seq<char>) -> i32 {
    match i32_of(year) {
        Some(y) => y,
        None => 0,
    }
}

/// This period's amount text: a quarterly or half-year report (`reprt`
/// other than 11011) takes the cumulative amount of a flow statement when
/// there is one.
pub open spec fn current_text(d: DartItem, reprt: Seq<char>) -> Seq<char> {
    let stmt = sj_div_of(d.sj_div@)->0;
    if reprt != "11011"@ && (stmt == Statement::Is || stmt == Statement::Cis || stmt
        == Statement::Cf) && d.thstrm_add_amount@.len() > 0 {
        d.thstrm_add_amount@
    } else {
        d.thstrm_amount@
    }
}

/// The amount text of period `j` back (0 = this period).
pub open spec fn amount_text(d: DartItem, reprt: Seq<char>, j: int) -> Seq<char> {
    if j == 0 {
        current_text(d, reprt)
    } else if j == 1 {
        d.frmtrm_amount@
    } else {
        d.bfefrmtrm_amount@
    }
}

/// Fact `f` is period `j` back of row `d`.
pub open spec fn fact_of_row(f: Fact, d: DartItem, base: i32, reprt: Seq<char>, j: int) -> bool {
    &&& f.statement == sj_div_of(d.sj_div@)->0
    &&& f.concept_id@ == melt_concept(d.account_id@, d.account_nm@)
    &&& f.account_nm@ == d.account_nm@
    &&& f.period == base - j
    &&& f.value.0@ == parsed_amount(amount_text(d, reprt, j))
}

/// Response rows → facts: every row with a known statement code melts into
/// three facts (this period, the last, the one before), in row order; rows
/// of an unknown code are skipped.
pub fn facts_of(items: &Vec<DartItem>, year: &str, reprt: &str) -> (r: Vec<Fact>)
    requires
        base_year_of(year@) >= i32::MIN + 2,
    ensures
        r@.len() == 3 * known_rows(items@).len(),
        forall|k: int, j: int|
            0 <= k < known_rows(items@).len() && 0 <= j < 3 ==> fact_of_row(
                #[trigger] r@[3 * k + j],
                known_rows(items@)[k],
                base_year_of(year@),
                reprt@,
                j,
            ),
{
    let base_year: i32 = match parse_i32(year) {
        Some(y) => y,
        None => 0,
    };
    let cumulative = !str_eq(reprt, "11011");
    let ghost p = |d: DartItem| sj_div_of(d.sj_div@) is Some;
    let mut out: Vec<Fact> = Vec::new();
    let mut i: usize = 0;
    while i < items.len()
        invariant
            i <= items@.len(),
            base_year == base_year_of(year@),
            base_year >= i32::MIN + 2,
            cumulative == (reprt@ != "11011"@),
            p == (|d: DartItem| sj_div_of(d.sj_div@) is Some),
            out@.len() == 3 * keep(items@.take(i as int), p).len(),
            forall|k: int, j: int|
                0 <= k < keep(items@.take(i as int), p).len() && 0 <= j < 3 ==> fact_of_row(
                    #[trigger] out@[3 * k + j],
                    keep(items@.take(i as int), p)[k],
                    base_year,
                    reprt@,
                    j,
                ),
        decreases items@.len() - i,
    {
        proof {
            assert(items@.take(i + 1) =~= items@.take(i as int).push(items@[i as int]));
            lemma_keep_push(items@.take(i as int), items@[i as int], p);
        }
        let d = &items[i];
        match Statement::from_sj_div(d.sj_div.as_str()) {
            Some(stmt) => {
                let current = if cumulative && stmt.is_flow()
                    && d.thstrm_add_amount.as_str().unicode_len() > 0 {
                    Money::parse(d.thstrm_add_amount.as_str())
                } else {
                    Money::parse(d.thstrm_amount.as_str())
                };
                let prev = Money::parse(d.frmtrm_amount.as_str());
                let prev2 = Money::parse(d.bfefrmtrm_amount.as_str());
                let mut three = Fact::melt(
                    stmt,
                    d.account_id.as_str(),
                    d.account_nm.as_str(),
                    base_year,
                    [current, prev, prev2],
                );
                let ghost before = out@;
                let ghost tv = three@;
                let ghost kb = keep(items@.take(i as int), p);
                out.append(&mut three);
                proof {
                    let kn = keep(items@.take(i + 1), p);
                    assert(kn == kb.push(*d));
                    assert forall|k: int, j: int|
                        0 <= k < kn.len() && 0 <= j < 3 implies fact_of_row(
                        #[trigger] out@[3 * k + j],
                        kn[k],
                        base_year,
                        reprt@,
                        j,
                    ) by {
                        if k < kb.len() {
                            assert(out@[3 * k + j] == before[3 * k + j]);
                            assert(kn[k] == kb[k]);
                        } else {
                            assert(out@[3 * k + j] == tv[j]);
                            assert(kn[k] == *d);
                        }
                    }
                }
            },
            None => {},
        }
        i += 1;
    }
    assert(items@.take(items@.len() as int) =~= items@);
    out
}

/// The base years a year range is fetched by: each request returns three
/// years, so `end`, `end − 3`, `end − 6`, … down to `start`.
pub fn range_bases(start: i32, end: i32) -> (r: Result<Vec<i32>, String>)
    requires
        start >= i32::MIN + 3,
    ensures
        end < start ==> r is Err && r->Err_0@ == "연도 범위가 잘못되었습니다."@,
        end >= start ==> r is Ok && r->Ok_0@.len() == (end - start) / 3 + 1 && forall|k: int|
            0 <= k < r->Ok_0@.len() ==> #[trigger] r->Ok_0@[k] == end - 3 * k,
{
    if end < start {
        return Err(to_string("연도 범위가 잘못되었습니다."));
    }
    let mut bases: Vec<i32> = Vec::new();
    let mut y = end;
    while y >= start
        invariant
            start >= i32::MIN + 3,
            start <= end,
            y <= end,
            (end - y) % 3 == 0,
            y >= start - 3,
            bases@.len() == (end - y) / 3,
            forall|k: int| 0 <= k < bases@.len() ==> #[trigger] bases@[k] == end - 3 * k,
        decreases y - start + 3,
    {
        bases.push(y);
        y -= 3;
    }
    Ok(bases)
}

/// The amount each melted fact takes: the periods count back from the base
/// year; for this period, a quarterly or half-year report (every report
/// code but the annual 11011) takes a flow statement's (IS, CIS, CF)
/// cumulative amount when the row has one, and the annual report, a balance
/// sheet or change-in-equity row, or a row without a cumulative amount takes
/// this period's amount; the two earlier periods take their own columns.
pub proof fn law_melted_amounts(d: DartItem, base: i32, reprt: Seq<char>, f: Fact, j: int)
    requires
        fact_of_row(f, d, base, reprt, j),
        0 <= j < 3,
    ensures
        f.period == base - j,
        j == 0 && reprt != "11011"@ && (d.sj_div@ == "IS"@ || d.sj_div@ == "CIS"@ || d.sj_div@
            == "CF"@) && d.thstrm_add_amount@.len() > 0 ==> f.value.0@ == parsed_amount(
            d.thstrm_add_amount@,
        ),
        j == 0 && (reprt == "11011"@ || d.sj_div@ == "BS"@ || d.sj_div@ == "SCE"@
            || d.thstrm_add_amount@.len() == 0) ==> f.value.0@ == parsed_amount(d.thstrm_amount@),
        j == 1 ==> f.value.0@ == parsed_amount(d.frmtrm_amount@),
        j == 2 ==> f.value.0@ == parsed_amount(d.bfefrmtrm_amount@),
{
    reveal_strlit("BS");
    reveal_strlit("IS");
    reveal_strlit("CIS");
    reveal_strlit("CF");
    reveal_strlit("SCE");
    assert("BS"@.len() == 2 && "BS"@[0] == 'B');
    assert("IS"@.len() == 2 && "IS"@[0] == 'I');
    assert("CIS"@.len() == 3 && "CIS"@[0] == 'C');
    assert("CF"@.len() == 2 && "CF"@[0] == 'C');
    assert("SCE"@.len() == 3 && "SCE"@[0] == 'S');
}

} // verus!
