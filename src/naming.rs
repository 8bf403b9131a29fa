//! Deterministic artifact names: `page_0001.png`, `page_0001.md`, and back.

use vstd::prelude::*;
use crate::text::{chars_of, decimal, has_prefix, has_suffix, push_decimal, push_str, string_of, starts_with, ends_with};

verus! {

pub open spec fn is_digit(c: char) -> bool {
    '0' <= c && c <= '9'
}

pub open spec fn all_digits(s: Seq<char>) -> bool {
    forall|i: int| 0 <= i < s.len() ==> is_digit(#[trigger] s[i])
}

/// The number written by the decimal digits `s`.
pub open spec fn digits_value(s: Seq<char>) -> nat
    decreases s.len(),
{
    if s.len() == 0 {
        0
    } else {
        digits_value(s.drop_last()) * 10 + ((s.last() as u32) - 48) as nat
    }
}

/// What `usize`'s `FromStr` accepts: an optional `+`, then one or more
/// decimal digits whose value fits in a `usize`.
pub open spec fn parse_usize(s: Seq<char>) -> Option<nat> {
    let d = if s.len() > 0 && s[0] == '+' {
        s.drop_first()
    } else {
        s
    };
    if d.len() > 0 && all_digits(d) && digits_value(d) <= usize::MAX {
        Some(digits_value(d))
    } else {
        None
    }
}

proof fn lemma_digits_monotone(s: Seq<char>, i: int, j: int)
    requires
        0 <= i <= j <= s.len(),
        all_digits(s),
    ensures
        digits_value(s.take(i)) <= digits_value(s.take(j)),
    decreases j - i,
{
    if i < j {
        lemma_digits_monotone(s, i, j - 1);
        assert(s.take(j).drop_last() =~= s.take(j - 1));
    }
}

/// Parses `s[lo..hi]` as `usize`'s `FromStr` does.
pub fn parse_usize_range(s: &Vec<char>, lo: usize, hi: usize) -> (r: Option<usize>)
    requires
        lo <= hi <= s.len(),
    ensures
        match parse_usize(s@.subrange(lo as int, hi as int)) {
            Some(v) => r == Some(v as usize),
            None => r is None,
        },
{
    let ghost whole = s@.subrange(lo as int, hi as int);
    let mut start = lo;
    if lo < hi && s[lo] == '+' {
        start = lo + 1;
    }
    let ghost d = s@.subrange(start as int, hi as int);
    assert(d =~= (if whole.len() > 0 && whole[0] == '+' {
        whole.drop_first()
    } else {
        whole
    }));
    if start == hi {
        return None;
    }
    let mut acc: usize = 0;
    let mut k: usize = start;
    while k < hi
        invariant
            lo <= start <= k <= hi <= s.len(),
            d == s@.subrange(start as int, hi as int),
            whole == s@.subrange(lo as int, hi as int),
            d == (if whole.len() > 0 && whole[0] == '+' {
                whole.drop_first()
            } else {
                whole
            }),
            d.len() > 0,
            all_digits(d.take(k - start)),
            acc as nat == digits_value(d.take(k - start)),
        decreases hi - k,
    {
        let c = s[k];
        if !('0' <= c && c <= '9') {
            assert(!is_digit(d[k - start]));
            return None;
        }
        let dv: usize = ((c as u32) - 48) as usize;
        assert(d.take(k + 1 - start).drop_last() =~= d.take(k - start));
        assert(all_digits(d.take(k + 1 - start)));
        if acc > (usize::MAX - dv) / 10 {
            assert(digits_value(d.take(k + 1 - start)) > usize::MAX) by (nonlinear_arith)
                requires
                    digits_value(d.take(k + 1 - start)) == acc * 10 + dv,
                    acc > (usize::MAX - dv) / 10,
                    dv <= 9,
            ;
            proof {
                if all_digits(d) {
                    lemma_digits_monotone(d, k + 1 - start, d.len() as int);
                    assert(d.take(d.len() as int) =~= d);
                }
            }
            return None;
        }
        acc = acc * 10 + dv;
        k = k + 1;
    }
    assert(d.take(k - start) =~= d);
    Some(acc)
}

/// The page number embedded in a transcript name `page_<digits>.md`.
pub open spec fn transcript_page(name: Seq<char>) -> Option<nat> {
    if has_prefix(name, "page_"@) && has_suffix(name, ".md"@) && name.len() >= 8 {
        parse_usize(name.subrange(5, name.len() - 3))
    } else {
        None
    }
}

/// The page number of a transcript file name, or `None` when the name does not
/// follow the `page_<number>.md` pattern.
pub fn parse_page_number(name: &str) -> (r: Option<usize>)
    ensures
        match transcript_page(name@) {
            Some(v) => r == Some(v as usize),
            None => r is None,
        },
{
    let s = chars_of(name);
    proof {
        reveal_strlit("page_");
        reveal_strlit(".md");
    }
    if starts_with(&s, "page_") && ends_with(&s, ".md") && s.len() >= 8 {
        parse_usize_range(&s, 5, s.len() - 3)
    } else {
        None
    }
}

/// The decimal digits of `n`, left-padded with zeros to at least four digits.
pub open spec fn padded4(n: nat) -> Seq<char> {
    let d = decimal(n);
    if d.len() < 4 {
        Seq::new((4 - d.len()) as nat, |i: int| '0') + d
    } else {
        d
    }
}

/// The file name of page number `page` (1-based) with extension `ext`:
/// `page_` followed by the number padded to four digits.
pub open spec fn page_file_name(page: nat, ext: Seq<char>) -> Seq<char> {
    "page_"@ + padded4(page) + ext
}

/// The characters of `page_file_name(page, ext)`.
pub fn page_file_chars(page: usize, ext: &str) -> (r: Vec<char>)
    ensures
        r@ == page_file_name(page as nat, ext@),
{
    let mut digits: Vec<char> = Vec::new();
    push_decimal(&mut digits, page);
    assert(digits@ =~= decimal(page as nat));
    let mut out: Vec<char> = Vec::new();
    push_str(&mut out, "page_");
    let mut k: usize = digits.len();
    while k < 4
        invariant
            digits.len() <= k <= 4 || (k == digits.len() && k >= 4),
            out@ == "page_"@ + Seq::new((k - digits.len()) as nat, |i: int| '0'),
        decreases 4 - k,
    {
        out.push('0');
        assert(out@ =~= "page_"@ + Seq::new((k + 1 - digits.len()) as nat, |i: int| '0'));
        k = k + 1;
    }
    let mut i: usize = 0;
    while i < digits.len()
        invariant
            i <= digits.len(),
            out@ == "page_"@ + Seq::new((k - digits.len()) as nat, |i: int| '0')
                + digits@.subrange(0, i as int),
            digits.len() <= k,
            digits.len() < 4 ==> k == 4,
            digits.len() >= 4 ==> k == digits.len(),
            digits@ == decimal(page as nat),
        decreases digits.len() - i,
    {
        out.push(digits[i]);
        assert(digits@.subrange(0, i + 1) =~= digits@.subrange(0, i as int).push(digits@[i as int]));
        i = i + 1;
    }
    assert(digits@.subrange(0, i as int) =~= digits@);
    let ghost zeros = Seq::new((k - digits.len()) as nat, |i: int| '0');
    assert(digits.len() >= 4 ==> zeros =~= Seq::<char>::empty());
    assert(padded4(page as nat) =~= zeros + digits@);
    push_str(&mut out, ext);
    assert(out@ =~= page_file_name(page as nat, ext@));
    out
}

/// File name of the image of the page at 0-based `index`: `page_%04d.png`, 1-based.
pub fn page_image_name(index: usize) -> (r: String)
    requires
        index < usize::MAX,
    ensures
        r@ == page_file_name((index + 1) as nat, ".png"@),
{
    string_of(&page_file_chars(index + 1, ".png"))
}

} // verus!
