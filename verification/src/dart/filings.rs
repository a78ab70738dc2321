//! OpenDART downloads: the XBRL filing behind a company's statement
//! hierarchy — which business report to take (it is filed in the first half
//! of the following year) and the calculation linkbase (`*_cal.xml`) inside
//! the filing's ZIP — and the company list inside `corpCode.xml`'s ZIP.

use vstd::prelude::*;
use std::io::Read;
use crate::text::{chars_of, i32_text, int_text, push_str, str_eq, to_string};

verus! {

broadcast use vstd::string::group_string_axioms;

/// The filing window of the business report for fiscal `year`: January 1st
/// to June 30th of the next year, as `yyyymmdd`.
pub fn report_window(year: i32) -> (r: (String, String))
    requires
        year < i32::MAX,
    ensures
        r.0@ == int_text(year + 1) + "0101"@,
        r.1@ == int_text(year + 1) + "0630"@,
{
    let y = i32_text(year + 1);
    let mut from = y.clone();
    push_str(&mut from, "0101");
    let mut to = y;
    push_str(&mut to, "0630");
    (from, to)
}

/// The first non-empty receipt number of a filing list.
pub open spec fn first_filed(list: Seq<Seq<char>>) -> Option<Seq<char>>
    decreases list.len(),
{
    if list.len() == 0 {
        None
    } else if list[0].len() > 0 {
        Some(list[0])
    } else {
        first_filed(list.drop_first())
    }
}

/// The receipt number of the business report, from the filing search's
/// answer: an error "공시 조회 실패 [{status}] {message}" unless the status is
/// "000"; else the first non-empty receipt number listed, or the error
/// "{year} 사업보고서를 찾지 못했습니다." when there is none.
pub fn pick_rcept(status: &str, message: &str, list: &Vec<String>, year: i32) -> (r: Result<
    String,
    String,
>)
    ensures
        status@ != "000"@ ==> r is Err && r->Err_0@ == "공시 조회 실패 ["@ + status@ + "] "@ + message@,
        status@ == "000"@ ==> match first_filed(list@.map_values(|s: String| s@)) {
            Some(no) => r is Ok && r->Ok_0@ == no,
            None => r is Err && r->Err_0@ == int_text(year as int) + " 사업보고서를 찾지 못했습니다."@,
        },
{
    if !str_eq(status, "000") {
        let mut e = to_string("공시 조회 실패 [");
        push_str(&mut e, status);
        push_str(&mut e, "] ");
        push_str(&mut e, message);
        return Err(e);
    }
    let ghost names = list@.map_values(|s: String| s@);
    let mut i: usize = 0;
    assert(names.skip(0) =~= names);
    while i < list.len()
        invariant
            i <= list@.len(),
            names == list@.map_values(|s: String| s@),
            status@ == "000"@,
            first_filed(names) == first_filed(names.skip(i as int)),
        decreases list@.len() - i,
    {
        assert(names.skip(i as int)[0] == list@[i as int]@);
        assert(names.skip(i as int).drop_first() =~= names.skip(i + 1));
        if list[i].as_str().unicode_len() > 0 {
            return Ok(list[i].clone());
        }
        i += 1;
    }
    assert(names.skip(i as int).len() == 0);
    let mut e = i32_text(year);
    push_str(&mut e, " 사업보고서를 찾지 못했습니다.");
    Err(e)
}

/// What `zip::ZipArchive::new` makes of the bytes: the number of entries,
/// or its error message.
pub uninterp spec fn zip_count(bytes: Seq<u8>) -> Result<nat, Seq<char>>;

/// The name of entry `i` (`ZipArchive::by_index`, `ZipFile::name`), or the
/// error message of either.
pub uninterp spec fn zip_name(bytes: Seq<u8>, i: nat) -> Result<Seq<char>, Seq<char>>;

/// The text of entry `i` (`ZipArchive::by_index`, then `read_to_string`),
/// or the error message.
pub uninterp spec fn zip_text(bytes: Seq<u8>, i: nat) -> Result<Seq<char>, Seq<char>>;

/// Opens a ZIP archive (`zip::ZipArchive::new`) and counts its entries. Only
/// the result is named; the format itself is the `zip` crate's.
#[verifier::external_body]
fn zip_entries(bytes: &[u8]) -> (r: Result<usize, String>)
    ensures
        match r {
            Ok(n) => zip_count(bytes@) == Ok::<nat, Seq<char>>(n as nat),
            Err(e) => zip_count(bytes@) == Err::<nat, Seq<char>>(e@),
        },
{
    zip::ZipArchive::new(std::io::Cursor::new(bytes)).map(|a| a.len()).map_err(|e| e.to_string())
}

/// The name of entry `i` of a ZIP archive (`by_index`, then `name`).
#[verifier::external_body]
fn zip_entry_name(bytes: &[u8], i: usize) -> (r: Result<String, String>)
    ensures
        match r {
            Ok(n) => zip_name(bytes@, i as nat) == Ok::<Seq<char>, Seq<char>>(n@),
            Err(e) => zip_name(bytes@, i as nat) == Err::<Seq<char>, Seq<char>>(e@),
        },
{
    let mut a = zip::ZipArchive::new(std::io::Cursor::new(bytes)).map_err(|e| e.to_string())?;
    let f = a.by_index(i).map_err(|e| e.to_string())?;
    f.name().map(|n| n.into_owned()).map_err(|e| e.to_string())
}

/// The text of entry `i` of a ZIP archive (`by_index`, then
/// `read_to_string`).
#[verifier::external_body]
fn zip_entry_text(bytes: &[u8], i: usize) -> (r: Result<String, String>)
    ensures
        match r {
            Ok(t) => zip_text(bytes@, i as nat) == Ok::<Seq<char>, Seq<char>>(t@),
            Err(e) => zip_text(bytes@, i as nat) == Err::<Seq<char>, Seq<char>>(e@),
        },
{
    let mut a = zip::ZipArchive::new(std::io::Cursor::new(bytes)).map_err(|e| e.to_string())?;
    let mut f = a.by_index(i).map_err(|e| e.to_string())?;
    let mut s = String::new();
    f.read_to_string(&mut s).map_err(|e| e.to_string())?;
    Ok(s)
}

/// `s` ends with `suffix`.
pub open spec fn ends_with(s: Seq<char>, suffix: Seq<char>) -> bool {
    s.len() >= suffix.len() && s.skip(s.len() - suffix.len()) == suffix
}

fn ends_with_text(s: &str, suffix: &str) -> (r: bool)
    ensures
        r == ends_with(s@, suffix@),
{
    let cs = chars_of(s);
    let xs = chars_of(suffix);
    if cs.len() < xs.len() {
        return false;
    }
    let cl = cs.len();
    let off = cs.len() - xs.len();
    let mut k: usize = 0;
    while k < xs.len()
        invariant
            cl == cs@.len(),
            cs@ == s@,
            xs@ == suffix@,
            off + xs@.len() == cs@.len(),
            k <= xs@.len(),
            forall|q: int| 0 <= q < k ==> cs@[off + q] == xs@[q],
        decreases xs@.len() - k,
    {
        if cs[off + k] != xs[k] {
            assert(cs@.skip(off as int)[k as int] != xs@[k as int]);
            return false;
        }
        k += 1;
    }
    assert(cs@.skip(off as int) =~= xs@);
    true
}

/// The calculation linkbase among entries `i..n`: the text of the first
/// entry whose name ends with "_cal.xml"; an entry that cannot be read on
/// the way is an error.
pub open spec fn cal_from(bytes: Seq<u8>, n: nat, i: nat) -> Result<Seq<char>, Seq<char>>
    decreases n - i,
{
    if i >= n {
        Err("XBRL 에 calculation linkbase(_cal.xml)가 없습니다."@)
    } else {
        match zip_name(bytes, i) {
            Err(e) => Err(e),
            Ok(name) => if ends_with(name, "_cal.xml"@) {
                zip_text(bytes, i)
            } else {
                cal_from(bytes, n, i + 1)
            },
        }
    }
}

/// The calculation linkbase of a filing's XBRL ZIP (see [`cal_from`]); an
/// archive that does not open is "XBRL ZIP 해제 실패: {e}".
pub open spec fn cal_of(bytes: Seq<u8>) -> Result<Seq<char>, Seq<char>> {
    match zip_count(bytes) {
        Err(e) => Err("XBRL ZIP 해제 실패: "@ + e),
        Ok(n) => cal_from(bytes, n, 0),
    }
}

/// The calculation linkbase (`*_cal.xml`) of a filing's XBRL ZIP.
pub fn extract_cal_xml(bytes: &[u8]) -> (r: Result<String, String>)
    ensures
        match r {
            Ok(t) => cal_of(bytes@) == Ok::<Seq<char>, Seq<char>>(t@),
            Err(e) => cal_of(bytes@) == Err::<Seq<char>, Seq<char>>(e@),
        },
{
    let n = match zip_entries(bytes) {
        Ok(n) => n,
        Err(e) => {
            let mut m = to_string("XBRL ZIP 해제 실패: ");
            push_str(&mut m, e.as_str());
            return Err(m);
        },
    };
    let mut i: usize = 0;
    while i < n
        invariant
            i <= n,
            zip_count(bytes@) == Ok::<nat, Seq<char>>(n as nat),
            cal_of(bytes@) == cal_from(bytes@, n as nat, i as nat),
        decreases n - i,
    {
        let name = match zip_entry_name(bytes, i) {
            Ok(name) => name,
            Err(e) => return Err(e),
        };
        if ends_with_text(name.as_str(), "_cal.xml") {
            return zip_entry_text(bytes, i);
        }
        i += 1;
    }
    Err(to_string("XBRL 에 calculation linkbase(_cal.xml)가 없습니다."))
}

/// The cache file of a filing's linkbase: "{rcept_no}_cal.xml".
pub fn cal_cache_name(rcept_no: &str) -> (r: String)
    ensures
        r@ == rcept_no@ + "_cal.xml"@,
{
    let mut s = to_string(rcept_no);
    push_str(&mut s, "_cal.xml");
    s
}

/// The company list of OpenDART's `corpCode.xml` download: the text of the
/// first entry of its ZIP.
pub fn corp_list_xml(bytes: &[u8]) -> (r: Result<String, String>)
    ensures
        match r {
            Ok(t) => zip_text(bytes@, 0) == Ok::<Seq<char>, Seq<char>>(t@),
            Err(e) => zip_text(bytes@, 0) == Err::<Seq<char>, Seq<char>>(e@),
        },
{
    zip_entry_text(bytes, 0)
}

} // verus!
