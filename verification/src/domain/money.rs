//! Money — an amount of money as an exact decimal (never a float).

use vstd::prelude::*;
use crate::domain::decimal::{Dec, is_digit_char, dec_parse, dec_add, dec_sub, dec_eq, dec_to_string, decimal_parse,
    decimal_sum, decimal_difference, decimal_text, same_value};
use crate::seqs::{keep, lemma_keep_all, lemma_keep_concat, lemma_keep_push};
use crate::text::{is_ws, is_whitespace, chars_of, push_char, string_of, str_eq};

verus! {

broadcast use vstd::string::group_string_axioms;

#[derive(Debug, Clone, Copy)]
pub struct Money(pub Dec);

/// Characters that survive cleaning: neither a comma nor white space.
pub open spec fn kept_in_amount() -> spec_fn(char) -> bool {
    |c: char| c != ',' && !is_ws(c)
}

/// The value `Money::parse` gives: commas and white space dropped; an empty
/// text or a lone `-` is zero; otherwise the decimal the text spells, or zero
/// when it spells none.
pub open spec fn parsed_amount(raw: Seq<char>) -> (int, int, bool) {
    let c = keep(raw, kept_in_amount());
    if c.len() == 0 || c == "-"@ {
        (0, 0, false)
    } else {
        match decimal_parse(c) {
            Some(d) => d,
            None => (0, 0, false),
        }
    }
}

/// Index of the first `c` in `s`, or `s.len()` when there is none.
pub open spec fn first_index_of(s: Seq<char>, c: char) -> int
    decreases s.len(),
{
    if s.len() == 0 {
        0
    } else if s[0] == c {
        0
    } else {
        1 + first_index_of(s.drop_first(), c)
    }
}

/// The first `i` digits of `d`, with a comma before every digit whose
/// distance from the end of `d` is a positive multiple of three.
pub open spec fn grouped(d: Seq<char>, i: int) -> Seq<char>
    decreases i,
{
    if i <= 0 {
        Seq::empty()
    } else {
        grouped(d, i - 1) + if i - 1 > 0 && (d.len() - (i - 1)) % 3 == 0 {
            seq![',', d[i - 1]]
        } else {
            seq![d[i - 1]]
        }
    }
}

/// Thousands grouping of a decimal text: the sign stays in front, the
/// integer part gets a comma every three digits from the right, and the
/// fractional part (if not empty) follows after a `.`.
pub open spec fn with_commas(t: Seq<char>) -> Seq<char> {
    let neg = t.len() > 0 && t[0] == '-';
    let rest = if neg {
        t.drop_first()
    } else {
        t
    };
    let k = first_index_of(rest, '.');
    let int_part = rest.take(k);
    let frac = if k < rest.len() {
        rest.skip(k + 1)
    } else {
        Seq::empty()
    };
    (if neg {
        seq!['-']
    } else {
        Seq::empty()
    }) + grouped(int_part, int_part.len() as int) + (if frac.len() > 0 {
        seq!['.'] + frac
    } else {
        Seq::empty()
    })
}

proof fn lemma_first_index(s: Seq<char>, c: char, i: int)
    requires
        0 <= i <= s.len(),
        forall|j: int| 0 <= j < i ==> s[j] != c,
        i < s.len() ==> s[i] == c,
    ensures
        first_index_of(s, c) == i,
    decreases s.len(),
{
    if s.len() > 0 && i > 0 {
        assert forall|j: int| 0 <= j < i - 1 implies s.drop_first()[j] != c by {
            assert(s.drop_first()[j] == s[j + 1]);
        }
        lemma_first_index(s.drop_first(), c, i - 1);
    }
}

impl Money {
    /// Zero.
    pub fn zero() -> (r: Money)
        ensures
            r.0@ == (0int, 0int, false),
    {
        Money(Dec::zero())
    }

    /// Parses an accounting amount: commas and white space are dropped, an
    /// empty text or "-" is zero, and a text that is no decimal is zero too.
    /// (OpenDART gives amounts as strings like "1,234,567".)
    pub fn parse(raw: &str) -> (r: Money)
        ensures
            r.0@ == parsed_amount(raw@),
    {
        let cs = chars_of(raw);
        let mut kept: Vec<char> = Vec::new();
        let mut i: usize = 0;
        while i < cs.len()
            invariant
                cs@ == raw@,
                i <= cs.len(),
                kept@ == keep(raw@.take(i as int), kept_in_amount()),
            decreases cs.len() - i,
        {
            proof {
                assert(raw@.take(i + 1) =~= raw@.take(i as int).push(cs@[i as int]));
                lemma_keep_push(raw@.take(i as int), cs@[i as int], kept_in_amount());
            }
            if cs[i] != ',' && !is_whitespace(cs[i]) {
                kept.push(cs[i]);
            }
            i += 1;
        }
        assert(raw@.take(raw@.len() as int) =~= raw@);
        let cleaned = string_of(&kept);
        if kept.len() == 0 || str_eq(cleaned.as_str(), "-") {
            return Money::zero();
        }
        match dec_parse(cleaned.as_str()) {
            Some(d) => Money(d),
            None => Money::zero(),
        }
    }

    /// Thousands-separated text (455905980000000 → "455,905,980,000,000"),
    /// keeping the sign and the fractional part.
    pub fn fmt_comma(&self) -> (r: String)
        ensures
            r@ == with_commas(decimal_text(self.0@)),
            parsed_amount(r@) == (self.0@.0, self.0@.1, self.0@.0 < 0),
    {
        let s = dec_to_string(self.0);
        let t = chars_of(s.as_str());
        let neg = t.len() > 0 && t[0] == '-';
        let start: usize = if neg {
            1
        } else {
            0
        };
        let ghost rest = if neg {
            t@.drop_first()
        } else {
            t@
        };
        assert(rest =~= t@.skip(start as int));
        let mut k = start;
        while k < t.len() && t[k] != '.'
            invariant
                start <= k <= t.len(),
                rest =~= t@.skip(start as int),
                forall|j: int| start <= j < k ==> t@[j] != '.',
            decreases t.len() - k,
        {
            k += 1;
        }
        proof {
            assert forall|j: int| 0 <= j < k - start implies rest[j] != '.' by {
                assert(rest[j] == t@[j + start]);
            }
            lemma_first_index(rest, '.', (k - start) as int);
        }
        let ghost int_part = rest.take(k - start);
        let mut out = String::new();
        if neg {
            push_char(&mut out, '-');
        }
        let ghost head = out@;
        let len = k - start;
        let mut i: usize = 0;
        while i < len
            invariant
                start <= k <= t.len(),
                len == k - start,
                i <= len,
                int_part == rest.take(len as int),
                rest =~= t@.skip(start as int),
                out@ == head + grouped(int_part, i as int),
            decreases len - i,
        {
            let c = t[start + i];
            assert(int_part[i as int] == c);
            if i > 0 && (len - i) % 3 == 0 {
                push_char(&mut out, ',');
            }
            push_char(&mut out, c);
            i += 1;
            assert(out@ =~= head + grouped(int_part, i as int));
        }
        if k < t.len() && t.len() - k > 1 {
            push_char(&mut out, '.');
            let mut j = k + 1;
            let ghost mid = out@;
            while j < t.len()
                invariant
                    k + 1 <= j <= t.len(),
                    out@ == mid + t@.subrange(k + 1, j as int),
                decreases t.len() - j,
            {
                push_char(&mut out, t[j]);
                j += 1;
                assert(out@ =~= mid + t@.subrange(k + 1, j as int));
            }
            assert(rest.skip(k - start + 1) =~= t@.subrange(k + 1, t@.len() as int));
        }
        proof {
            let frac = if k - start < rest.len() {
                rest.skip(k - start + 1)
            } else {
                Seq::<char>::empty()
            };
            if k < t.len() && t.len() - k > 1 {
            } else {
                assert(frac.len() == 0);
            }
            assert(out@ =~= with_commas(decimal_text(self.0@)));
            let t0 = decimal_text(self.0@);
            assert forall|j: int| 0 <= j < t0.len() implies #[trigger] kept_in_amount()(t0[j]) by {
                assert(is_digit_char(t0[j]) || t0[j] == '-' || t0[j] == '.');
            }
            assert(t0.last() == t0[t0.len() - 1]);
            law_commas_parse_back(t0);
            lemma_keep_all(t0, kept_in_amount());
            reveal_strlit("-");
            assert(t0 != "-"@) by {
                if t0 == "-"@ {
                    assert(t0.last() == '-');
                }
            }
        }
        out
    }

    /// `self + rhs`, or `None` when the decimal sum overflows.
    pub fn checked_add(&self, rhs: Money) -> (r: Option<Money>)
        ensures
            match r {
                Some(m) => decimal_sum(self.0@, rhs.0@) == Some(m.0@),
                None => decimal_sum(self.0@, rhs.0@) is None,
            },
    {
        match dec_add(self.0, rhs.0) {
            Some(d) => Some(Money(d)),
            None => None,
        }
    }

    /// `self - rhs`, or `None` when the decimal difference overflows.
    pub fn checked_sub(&self, rhs: Money) -> (r: Option<Money>)
        ensures
            match r {
                Some(m) => decimal_difference(self.0@, rhs.0@) == Some(m.0@),
                None => decimal_difference(self.0@, rhs.0@) is None,
            },
    {
        match dec_sub(self.0, rhs.0) {
            Some(d) => Some(Money(d)),
            None => None,
        }
    }
}

impl PartialEq for Money {
    fn eq(&self, other: &Money) -> (r: bool) {
        dec_eq(self.0, other.0)
    }
}

impl vstd::std_specs::cmp::PartialEqSpecImpl for Money {
    open spec fn obeys_eq_spec() -> bool {
        true
    }

    open spec fn eq_spec(&self, other: &Money) -> bool {
        same_value(self.0@, other.0@)
    }
}

proof fn lemma_keep_grouped(d: Seq<char>, i: int)
    requires
        0 <= i <= d.len(),
        forall|j: int| 0 <= j < d.len() ==> #[trigger] kept_in_amount()(d[j]),
    ensures
        keep(grouped(d, i), kept_in_amount()) == d.take(i),
    decreases i,
{
    if i > 0 {
        lemma_keep_grouped(d, i - 1);
        let piece = if i - 1 > 0 && (d.len() - (i - 1)) % 3 == 0 {
            seq![',', d[i - 1]]
        } else {
            seq![d[i - 1]]
        };
        lemma_keep_concat(grouped(d, i - 1), piece, kept_in_amount());
        assert(kept_in_amount()(d[i - 1]));
        assert(!kept_in_amount()(','));
        reveal_with_fuel(keep, 3);
        if i - 1 > 0 && (d.len() - (i - 1)) % 3 == 0 {
            assert(piece.drop_last() =~= seq![',']);
            assert(seq![','].drop_last() =~= Seq::<char>::empty());
            assert(keep(piece, kept_in_amount()) =~= seq![d[i - 1]]);
        } else {
            assert(piece.drop_last() =~= Seq::<char>::empty());
            assert(keep(piece, kept_in_amount()) =~= seq![d[i - 1]]);
        }
        assert(d.take(i) =~= d.take(i - 1) + seq![d[i - 1]]);
    }
}

/// Amounts shown with thousands separators read back as the same amount:
/// the commas `fmt_comma` inserts are exactly what `parse` drops (for a
/// decimal text without commas or white space that does not end in `.`,
/// as decimal texts are written).
pub proof fn law_commas_parse_back(t: Seq<char>)
    requires
        forall|j: int| 0 <= j < t.len() ==> #[trigger] kept_in_amount()(t[j]),
        t.len() == 0 || t.last() != '.',
    ensures
        parsed_amount(with_commas(t)) == parsed_amount(t),
{
    let neg = t.len() > 0 && t[0] == '-';
    let rest = if neg {
        t.drop_first()
    } else {
        t
    };
    let k = first_index_of(rest, '.');
    lemma_first_index_bound(rest, '.');
    let int_part = rest.take(k);
    let frac = if k < rest.len() {
        rest.skip(k + 1)
    } else {
        Seq::<char>::empty()
    };
    let sign = if neg {
        seq!['-']
    } else {
        Seq::<char>::empty()
    };
    let tail = if frac.len() > 0 {
        seq!['.'] + frac
    } else {
        Seq::<char>::empty()
    };
    assert(forall|j: int| 0 <= j < rest.len() ==> rest[j] == t[if neg { j + 1 } else { j }]);
    assert(forall|j: int| 0 <= j < int_part.len() ==> #[trigger] kept_in_amount()(int_part[j])) by {
        assert forall|j: int| 0 <= j < int_part.len() implies #[trigger] kept_in_amount()(int_part[j]) by {
            assert(int_part[j] == t[if neg { j + 1 } else { j }]);
        }
    }
    lemma_keep_grouped(int_part, int_part.len() as int);
    assert(int_part.take(int_part.len() as int) =~= int_part);
    assert(with_commas(t) == sign + grouped(int_part, int_part.len() as int) + tail);
    lemma_keep_concat(sign + grouped(int_part, int_part.len() as int), tail, kept_in_amount());
    lemma_keep_concat(sign, grouped(int_part, int_part.len() as int), kept_in_amount());
    lemma_keep_all(sign, kept_in_amount());
    assert forall|j: int| 0 <= j < tail.len() implies #[trigger] kept_in_amount()(tail[j]) by {
        if j > 0 {
            assert(tail[j] == t[if neg { k + j + 1 } else { k + j }]);
        }
    }
    lemma_keep_all(tail, kept_in_amount());
    if k < rest.len() {
        assert(rest[k] == '.');
        if frac.len() == 0 {
            assert(rest.last() == '.');
            assert(t.last() == rest.last());
        }
        assert(rest =~= int_part + seq!['.'] + frac);
    } else {
        assert(rest =~= int_part);
    }
    assert(t =~= sign + rest);
    assert(keep(with_commas(t), kept_in_amount()) =~= t);
    lemma_keep_all(t, kept_in_amount());
}

proof fn lemma_first_index_bound(s: Seq<char>, c: char)
    ensures
        0 <= first_index_of(s, c) <= s.len(),
        first_index_of(s, c) < s.len() ==> s[first_index_of(s, c)] == c,
    decreases s.len(),
{
    if s.len() > 0 && s[0] != c {
        lemma_first_index_bound(s.drop_first(), c);
    }
}

} // verus!
