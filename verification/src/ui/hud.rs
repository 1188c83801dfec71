//! Texts of the in-game display: score, combo and elapsed time.

use vstd::prelude::*;
use crate::numtext::{decimal, decimal_chars, digit_char};
use crate::map::text::string_from_chars;

verus! {

/// Digits with a comma after each digit that is followed by a positive multiple of
/// three digits (`1234567` gives `1,234,567`).
pub open spec fn group_thousands(x: Seq<char>) -> Seq<char>
    decreases x.len(),
{
    if x.len() == 0 {
        Seq::empty()
    } else {
        let rest = x.drop_first();
        let head = if rest.len() > 0 && rest.len() % 3 == 0 {
            seq![x[0], ',']
        } else {
            seq![x[0]]
        };
        head + group_thousands(rest)
    }
}

/// `|n|` as an integer.
pub open spec fn abs(n: int) -> nat {
    if n < 0 {
        (-n) as nat
    } else {
        n as nat
    }
}

/// A score as displayed: a minus sign when negative, then the digits of its
/// magnitude grouped by thousands.
pub open spec fn score_text(score: int) -> Seq<char> {
    (if score < 0 {
        seq!['-']
    } else {
        Seq::empty()
    }) + group_thousands(decimal(abs(score)))
}

fn group_chars(d: &Vec<char>) -> (r: Vec<char>)
    ensures
        r@ == group_thousands(d@),
{
    let len = d.len();
    let mut out: Vec<char> = Vec::new();
    let mut j: usize = 0;
    assert(d@.skip(0) =~= d@);
    while j < len
        invariant
            len == d@.len(),
            j <= len,
            out@ + group_thousands(d@.skip(j as int)) == group_thousands(d@),
        decreases len - j,
    {
        let ghost x = d@.skip(j as int);
        assert(x.drop_first() =~= d@.skip(j + 1));
        assert(x[0] == d@[j as int]);
        out.push(d[j]);
        let remaining = len - 1 - j;
        if remaining > 0 && remaining % 3 == 0 {
            out.push(',');
        }
        assert(out@ + group_thousands(d@.skip(j + 1)) =~= group_thousands(d@));
        j = j + 1;
    }
    assert(d@.skip(len as int) =~= Seq::<char>::empty());
    assert(out@ =~= group_thousands(d@));
    out
}

/// A score with thousands separators (`-1234567` gives `-1,234,567`).
pub fn format_score(score: i64) -> (r: String)
    requires
        score > i64::MIN,
    ensures
        r@ == score_text(score as int),
{
    let magnitude: u64 = if score < 0 {
        (-score) as u64
    } else {
        score as u64
    };
    let digits = decimal_chars(magnitude);
    let grouped = group_chars(&digits);
    let mut text: Vec<char> = Vec::new();
    if score < 0 {
        text.push('-');
    }
    let mut i: usize = 0;
    let ghost prefix = text@;
    while i < grouped.len()
        invariant
            i <= grouped@.len(),
            text@ == prefix + grouped@.take(i as int),
        decreases grouped@.len() - i,
    {
        text.push(grouped[i]);
        assert(text@ =~= prefix + grouped@.take(i + 1));
        i = i + 1;
    }
    assert(grouped@.take(grouped@.len() as int) =~= grouped@);
    assert(text@ =~= score_text(score as int));
    string_from_chars(text.as_slice())
}

/// The combo display: `"<combo>x"` from a combo of 2 on, empty below.
pub open spec fn combo_text_of(combo: u32) -> Seq<char> {
    if combo >= 2 {
        decimal(combo as nat).push('x')
    } else {
        Seq::empty()
    }
}

pub fn combo_text(combo: u32) -> (r: String)
    ensures
        r@ == combo_text_of(combo),
{
    if combo >= 2 {
        let mut d = decimal_chars(combo as u64);
        d.push('x');
        string_from_chars(d.as_slice())
    } else {
        String::new()
    }
}

/// Elapsed time `m:ss`: whole minutes, then the seconds on two digits.
pub open spec fn clock_text_of(total_secs: u32) -> Seq<char> {
    let m = total_secs / 60;
    let s = total_secs % 60;
    decimal(m as nat) + seq![':', digit_char((s / 10) as int), digit_char((s % 10) as int)]
}

pub fn clock_text(total_secs: u32) -> (r: String)
    ensures
        r@ == clock_text_of(total_secs),
{
    let mut d = decimal_chars((total_secs / 60) as u64);
    let s = total_secs % 60;
    d.push(':');
    let tens = decimal_chars((s / 10) as u64);
    let units = decimal_chars((s % 10) as u64);
    assert(tens@ == seq![digit_char((s / 10) as int)]);
    assert(units@ == seq![digit_char((s % 10) as int)]);
    d.push(tens[0]);
    d.push(units[0]);
    assert(d@ =~= clock_text_of(total_secs));
    string_from_chars(d.as_slice())
}


/// `s` without its commas.
pub open spec fn without_commas(s: Seq<char>) -> Seq<char>
    decreases s.len(),
{
    if s.len() == 0 {
        Seq::empty()
    } else if s.last() == ',' {
        without_commas(s.drop_last())
    } else {
        without_commas(s.drop_last()).push(s.last())
    }
}

proof fn lemma_without_commas_concat(a: Seq<char>, b: Seq<char>)
    ensures
        without_commas(a + b) == without_commas(a) + without_commas(b),
    decreases b.len(),
{
    if b.len() == 0 {
        assert(a + b =~= a);
        assert(without_commas(b) =~= Seq::<char>::empty());
        assert(without_commas(a) + without_commas(b) =~= without_commas(a));
    } else {
        lemma_without_commas_concat(a, b.drop_last());
        assert((a + b).drop_last() =~= a + b.drop_last());
        assert((a + b).last() == b.last());
        if b.last() == ',' {
        } else {
            assert(without_commas(a) + without_commas(b.drop_last()).push(b.last()) =~= (
            without_commas(a) + without_commas(b.drop_last())).push(b.last()));
        }
    }
}

/// The separators are all that grouping adds: without its commas, a grouped
/// number is its digits again.
pub proof fn lemma_grouping_only_adds_commas(d: Seq<char>)
    requires
        forall|i: int| 0 <= i < d.len() ==> #[trigger] d[i] != ',',
    ensures
        without_commas(group_thousands(d)) == d,
    decreases d.len(),
{
    if d.len() > 0 {
        let rest = d.drop_first();
        assert forall|i: int| 0 <= i < rest.len() implies #[trigger] rest[i] != ',' by {
            assert(rest[i] == d[i + 1]);
        }
        lemma_grouping_only_adds_commas(rest);
        let head = if rest.len() > 0 && rest.len() % 3 == 0 {
            seq![d[0], ',']
        } else {
            seq![d[0]]
        };
        lemma_without_commas_concat(head, group_thousands(rest));
        assert(d[0] != ',');
        assert(without_commas(Seq::<char>::empty()) =~= Seq::<char>::empty());
        assert(seq![d[0]].drop_last() =~= Seq::<char>::empty());
        assert(without_commas(seq![d[0]]) =~= seq![d[0]]);
        if rest.len() > 0 && rest.len() % 3 == 0 {
            assert(head.drop_last() =~= seq![d[0]]);
        }
        assert(d =~= seq![d[0]] + rest);
    }
}

/// A displayed score is its sign and its decimal digits, with commas added.
pub proof fn lemma_score_text_digits(score: int)
    ensures
        without_commas(score_text(score)) == (if score < 0 {
            seq!['-']
        } else {
            Seq::empty()
        }) + decimal(abs(score)),
{
    lemma_decimal_has_no_comma(abs(score));
    lemma_grouping_only_adds_commas(decimal(abs(score)));
    let sign = if score < 0 {
        seq!['-']
    } else {
        Seq::<char>::empty()
    };
    lemma_without_commas_concat(sign, group_thousands(decimal(abs(score))));
    assert(without_commas(Seq::<char>::empty()) =~= Seq::<char>::empty());
    if score < 0 {
        assert(sign.drop_last() =~= Seq::<char>::empty());
        assert(without_commas(sign) =~= sign);
    } else {
        assert(without_commas(sign) =~= sign);
    }
}

proof fn lemma_decimal_has_no_comma(n: nat)
    ensures
        forall|i: int| 0 <= i < decimal(n).len() ==> #[trigger] decimal(n)[i] != ',',
    decreases n,
{
    if n >= 10 {
        lemma_decimal_has_no_comma(n / 10);
        assert(decimal(n) == decimal(n / 10).push(digit_char((n % 10) as int)));
    }
}

} // verus!
