//! OpenDART's XBRL taxonomy (`xbrlTaxonomy.json`) → the domain taxonomy:
//! statement keys, the representative `sj_div` of each statement, and the
//! rows turned into standard concepts.

use vstd::prelude::*;
use crate::domain::statement::Statement;
use crate::domain::taxonomy::{Taxonomy, TaxonomyConcept};
use crate::seqs::{keep, lemma_keep_push};
use crate::text::{chars_of, push_char, push_str, str_eq, string_of, to_string, trim, trim_chars, trim_str};

verus! {

broadcast use vstd::string::group_string_axioms;

/// One taxonomy row; a missing field reads as empty.
pub struct TaxonomyItem {
    pub account_id: String,
    pub account_nm: String,
    pub label_kor: String,
    pub label_eng: String,
    /// K-IFRS paragraph reference (sometimes only blanks).
    pub ifrs_ref: String,
}

/// The taxonomy's representative `sj_div` for a statement (the taxonomy
/// splits statements into variants; one is used per statement).
pub fn repr_sj_div(stmt: Statement) -> (r: &'static str)
    ensures
        r@ == match stmt {
            Statement::Bs => "BS1"@,
            Statement::Is => "IS1"@,
            Statement::Cis => "CIS1"@,
            Statement::Cf => "CF1"@,
            Statement::Sce => "SCE1"@,
        },
{
    match stmt {
        Statement::Bs => "BS1",
        Statement::Is => "IS1",
        Statement::Cis => "CIS1",
        Statement::Cf => "CF1",
        Statement::Sce => "SCE1",
    }
}

/// The statement a front-end key names (`bs`, `is`, `cis`, `cf`, `sce`).
pub open spec fn stmt_of_key(key: Seq<char>) -> Option<Statement> {
    if key == "bs"@ {
        Some(Statement::Bs)
    } else if key == "is"@ {
        Some(Statement::Is)
    } else if key == "cis"@ {
        Some(Statement::Cis)
    } else if key == "cf"@ {
        Some(Statement::Cf)
    } else if key == "sce"@ {
        Some(Statement::Sce)
    } else {
        None
    }
}

/// Front-end key → statement.
pub fn stmt_from_key(key: &str) -> (r: Option<Statement>)
    ensures
        r == stmt_of_key(key@),
{
    if str_eq(key, "bs") {
        Some(Statement::Bs)
    } else if str_eq(key, "is") {
        Some(Statement::Is)
    } else if str_eq(key, "cis") {
        Some(Statement::Cis)
    } else if str_eq(key, "cf") {
        Some(Statement::Cf)
    } else if str_eq(key, "sce") {
        Some(Statement::Sce)
    } else {
        None
    }
}

/// The taxonomy's concept id (`ifrs_*`) in the statements' form
/// (`ifrs-full_*`); `dart_*` and other ids stay as they are.
pub open spec fn canon(id: Seq<char>) -> Seq<char> {
    if id.len() >= 5 && id.take(5) == "ifrs_"@ {
        "ifrs-full_"@ + id.skip(5)
    } else {
        id
    }
}

/// Taxonomy concept id → statement concept id (see [`canon`]).
pub fn canon_id(id: &str) -> (r: String)
    ensures
        r@ == canon(id@),
{
    let cs = chars_of(id);
    proof {
        reveal_strlit("ifrs_");
    }
    if cs.len() >= 5 && cs[0] == 'i' && cs[1] == 'f' && cs[2] == 'r' && cs[3] == 's' && cs[4] == '_' {
        assert(cs@.take(5) =~= "ifrs_"@);
        let mut r = to_string("ifrs-full_");
        let rest = crate::text::string_from(&cs, 5, cs.len());
        push_str(&mut r, rest.as_str());
        assert(cs@.subrange(5, cs@.len() as int) =~= cs@.skip(5));
        r
    } else {
        assert(!(cs@.len() >= 5 && cs@.take(5) == "ifrs_"@)) by {
            if cs@.len() >= 5 && cs@.take(5) == "ifrs_"@ {
                assert(cs@.take(5)[0] == 'i' && cs@.take(5)[1] == 'f' && cs@.take(5)[2] == 'r'
                    && cs@.take(5)[3] == 's' && cs@.take(5)[4] == '_');
            }
        }
        to_string(id)
    }
}

/// `s` with every occurrence of `pat` removed, scanning left to right
/// (`str::replace(pat, "")`).
pub open spec fn remove_all(s: Seq<char>, pat: Seq<char>) -> Seq<char>
    decreases s.len(),
{
    if s.len() == 0 {
        Seq::empty()
    } else if pat.len() > 0 && pat.len() <= s.len() && s.take(pat.len() as int) == pat {
        remove_all(s.skip(pat.len() as int), pat)
    } else {
        seq![s[0]] + remove_all(s.skip(1), pat)
    }
}

/// The tag that marks a group header's label.
pub open spec fn abstract_tag() -> Seq<char> {
    seq!['[', 'a', 'b', 's', 't', 'r', 'a', 'c', 't', ']']
}

/// A label without its `[abstract]` tag, trimmed.
pub open spec fn clean_label(label: Seq<char>) -> Seq<char> {
    trim(remove_all(label, abstract_tag()))
}

/// Removes the `[abstract]` tag from a label and trims it.
pub fn strip_abstract(label: &str) -> (r: String)
    ensures
        r@ == clean_label(label@),
{
    let cs = chars_of(label);
    let pat: Vec<char> = vec!['[', 'a', 'b', 's', 't', 'r', 'a', 'c', 't', ']'];
    assert(pat@ =~= abstract_tag());
    let mut out: Vec<char> = Vec::new();
    let n = cs.len();
    let mut i: usize = 0;
    assert(cs@.skip(0) =~= cs@);
    while i < n
        invariant
            n == cs@.len(),
            i <= cs@.len(),
            pat@ == abstract_tag(),
            out@ + remove_all(cs@.skip(i as int), pat@) == remove_all(cs@, pat@),
        decreases cs@.len() - i,
    {
        let ghost rest = cs@.skip(i as int);
        let mut hit = n - i >= pat.len();
        let mut k: usize = 0;
        while hit && k < pat.len()
            invariant
                n == cs@.len(),
                k <= pat@.len(),
                pat@ == abstract_tag(),
                i < cs@.len(),
                hit ==> i + pat@.len() <= cs@.len(),
                hit ==> forall|q: int| 0 <= q < k ==> cs@[i + q] == pat@[q],
                !hit ==> !(pat@.len() <= rest.len() && rest.take(pat@.len() as int) == pat@),
                rest == cs@.skip(i as int),
            decreases pat@.len() - k,
        {
            if cs[i + k] != pat[k] {
                hit = false;
                assert(rest.take(pat@.len() as int)[k as int] == cs@[i + k]);
            }
            k += 1;
        }
        if hit {
            assert(rest.take(pat@.len() as int) =~= pat@) by {
                assert forall|q: int| 0 <= q < pat@.len() implies rest.take(pat@.len() as int)[q]
                    == pat@[q] by {
                    assert(rest[q] == cs@[i + q]);
                }
            }
            assert(rest.skip(pat@.len() as int) =~= cs@.skip(i + pat@.len()));
            i = i + pat.len();
        } else {
            let ghost before = out@;
            out.push(cs[i]);
            assert(rest.skip(1) =~= cs@.skip(i + 1));
            assert(out@ + remove_all(cs@.skip(i + 1), pat@) =~= before + (seq![rest[0]]
                + remove_all(rest.skip(1), pat@)));
            i += 1;
        }
    }
    assert(cs@.skip(i as int) =~= Seq::<char>::empty());
    assert(out@ =~= remove_all(cs@, pat@));
    let t = trim_chars(&out);
    string_of(&t)
}

/// `s` ends with `Abstract`: a group header concept.
pub open spec fn ends_abstract(s: Seq<char>) -> bool {
    s.len() >= 8 && s.skip(s.len() - 8) == seq!['A', 'b', 's', 't', 'r', 'a', 'c', 't']
}

fn ends_with_abstract(s: &str) -> (r: bool)
    ensures
        r == ends_abstract(s@),
{
    let cs = chars_of(s);
    let tail: Vec<char> = vec!['A', 'b', 's', 't', 'r', 'a', 'c', 't'];
    if cs.len() < 8 {
        return false;
    }
    let n = cs.len();
    let base = n - 8;
    let mut k: usize = 0;
    while k < 8
        invariant
            n == cs@.len(),
            cs@ == s@,
            k <= 8,
            base == cs@.len() - 8,
            tail@ == seq!['A', 'b', 's', 't', 'r', 'a', 'c', 't'],
            forall|q: int| 0 <= q < k ==> cs@[base + q] == tail@[q],
        decreases 8 - k,
    {
        if cs[base + k] != tail[k] {
            assert(cs@.skip(base as int)[k as int] == cs@[base + k]);
            assert(cs@.skip(base as int) != tail@);
            return false;
        }
        k += 1;
    }
    assert(cs@.skip(base as int) =~= tail@);
    true
}

/// The indices of the rows that carry a concept id.
pub open spec fn kept_rows(items: Seq<TaxonomyItem>) -> Seq<int> {
    keep(Seq::new(items.len(), |i: int| i), |i: int| items[i].account_id@.len() > 0)
}

/// The concept made of row `i`: id in statement form, the standard Korean
/// label (the account name when there is none) and the English label
/// without the `[abstract]` tag, the reference trimmed, abstract when the id
/// ends in `Abstract`, no parent (the taxonomy has no calculation links),
/// and the row's position as display order.
pub open spec fn concept_of(c: TaxonomyConcept, it: TaxonomyItem, i: int) -> bool {
    &&& c.concept_id@ == canon(it.account_id@)
    &&& c.label_ko@ == clean_label(
        if it.label_kor@.len() == 0 {
            it.account_nm@
        } else {
            it.label_kor@
        },
    )
    &&& c.label_en@ == clean_label(it.label_eng@)
    &&& c.ifrs_ref@ == trim(it.ifrs_ref@)
    &&& c.is_abstract == ends_abstract(it.account_id@)
    &&& c.parent is None
    &&& c.ord == i as i32
}

/// Taxonomy rows → domain taxonomy; rows without a concept id are dropped
/// (standard accounts only).
pub fn to_taxonomy(stmt: Statement, items: &Vec<TaxonomyItem>) -> (r: Taxonomy)
    ensures
        r.statement == stmt,
        r.concepts@.len() == kept_rows(items@).len(),
        forall|k: int|
            0 <= k < r.concepts@.len() ==> concept_of(
                #[trigger] r.concepts@[k],
                items@[kept_rows(items@)[k]],
                kept_rows(items@)[k],
            ),
{
    let ghost idx = Seq::new(items@.len(), |i: int| i);
    let ghost p = |i: int| items@[i].account_id@.len() > 0;
    let mut concepts: Vec<TaxonomyConcept> = Vec::new();
    let mut i: usize = 0;
    while i < items.len()
        invariant
            i <= items@.len(),
            idx == Seq::new(items@.len(), |i: int| i),
            p == (|i: int| items@[i].account_id@.len() > 0),
            concepts@.len() == keep(idx.take(i as int), p).len(),
            forall|k: int|
                0 <= k < concepts@.len() ==> concept_of(
                    #[trigger] concepts@[k],
                    items@[keep(idx.take(i as int), p)[k]],
                    keep(idx.take(i as int), p)[k],
                ),
        decreases items@.len() - i,
    {
        proof {
            assert(idx.take(i + 1) =~= idx.take(i as int).push(i as int));
            lemma_keep_push(idx.take(i as int), i as int, p);
        }
        let it = &items[i];
        if it.account_id.as_str().unicode_len() > 0 {
            let raw = if it.label_kor.as_str().unicode_len() == 0 {
                it.account_nm.as_str()
            } else {
                it.label_kor.as_str()
            };
            let c = TaxonomyConcept {
                concept_id: canon_id(it.account_id.as_str()),
                label_ko: strip_abstract(raw),
                label_en: strip_abstract(it.label_eng.as_str()),
                ifrs_ref: trim_str(it.ifrs_ref.as_str()),
                is_abstract: ends_with_abstract(it.account_id.as_str()),
                parent: None,
                ord: i as i32,
            };
            concepts.push(c);
        }
        i += 1;
    }
    assert(idx.take(items@.len() as int) =~= idx);
    Taxonomy { statement: stmt, concepts }
}

/// The error for a response whose status is not `000`: `[status] message`.
pub fn status_error(status: &str, message: &str) -> (r: Option<String>)
    ensures
        status@ == "000"@ ==> r is None,
        status@ != "000"@ ==> r is Some && r->0@ == "["@ + status@ + "] "@ + message@,
{
    if str_eq(status, "000") {
        None
    } else {
        let mut s = to_string("[");
        push_str(&mut s, status);
        push_str(&mut s, "] ");
        push_str(&mut s, message);
        Some(s)
    }
}

} // verus!
