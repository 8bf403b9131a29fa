//! Anchor slugs for table-of-contents entries.

use vstd::prelude::*;
use crate::markdown::views;
use crate::text::{chars_of, decimal, push_decimal, subvec};

verus! {

/// What `str::to_lowercase` returns for a string.
pub uninterp spec fn lowercase_of(s: Seq<char>) -> Seq<char>;

/// What `char::is_alphanumeric` says of a character.
pub uninterp spec fn alphanumeric(c: char) -> bool;

pub open spec fn is_ascii_alnum(c: char) -> bool {
    ('a' <= c && c <= 'z') || ('A' <= c && c <= 'Z') || ('0' <= c && c <= '9')
}

/// Relies on `str::to_lowercase`: the Unicode lowercase mapping of the string.
#[verifier::external_body]
fn to_lowercase(s: &str) -> (r: String)
    ensures
        r@ == lowercase_of(s@),
{
    s.to_lowercase()
}

/// Relies on `char::is_alphanumeric`: alphabetic or numeric; on ASCII that is
/// exactly the letters and the digits.
#[verifier::external_body]
fn is_alphanumeric(c: char) -> (r: bool)
    ensures
        r == alphanumeric(c),
        (c as u32) < 128 ==> r == is_ascii_alnum(c),
{
    c.is_alphanumeric()
}

pub open spec fn dash_for_space(c: char) -> char {
    if c == ' ' {
        '-'
    } else {
        c
    }
}

/// Kept in a slug: `-`, and alphanumeric characters (on ASCII, the letters and digits).
pub open spec fn slug_char(c: char) -> bool {
    c == '-' || if (c as u32) < 128 {
        is_ascii_alnum(c)
    } else {
        alphanumeric(c)
    }
}

/// Spaces turned into `-`, then only alphanumeric characters and `-` kept.
pub open spec fn slug_chars(s: Seq<char>) -> Seq<char>
    decreases s.len(),
{
    if s.len() == 0 {
        Seq::empty()
    } else {
        let k = slug_chars(s.drop_last());
        let c = dash_for_space(s.last());
        if slug_char(c) {
            k.push(c)
        } else {
            k
        }
    }
}

/// The slug of a title before disambiguation.
pub open spec fn slug_base(title: Seq<char>) -> Seq<char> {
    slug_chars(lowercase_of(title))
}

/// The undisambiguated slug of an already lowercased title.
pub fn slug_from_lowercase(lower: &str) -> (r: Vec<char>)
    ensures
        r@ == slug_chars(lower@),
{
    let s = chars_of(lower);
    let mut out: Vec<char> = Vec::new();
    let mut i: usize = 0;
    while i < s.len()
        invariant
            i <= s.len(),
            s@ == lower@,
            out@ == slug_chars(s@.take(i as int)),
        decreases s.len() - i,
    {
        assert(s@.take(i + 1).drop_last() =~= s@.take(i as int));
        let c = if s[i] == ' ' {
            '-'
        } else {
            s[i]
        };
        if c == '-' || is_alphanumeric(c) {
            out.push(c);
        }
        i = i + 1;
    }
    assert(s@.take(i as int) =~= s@);
    out
}

/// The undisambiguated slug of `title`.
pub fn slug_base_of(title: &str) -> (r: Vec<char>)
    ensures
        r@ == slug_base(title@),
{
    let lower = to_lowercase(title);
    slug_from_lowercase(lower.as_str())
}

pub fn eq_chars(a: &Vec<char>, b: &Vec<char>) -> (r: bool)
    ensures
        r == (a@ == b@),
{
    if a.len() != b.len() {
        return false;
    }
    let mut i: usize = 0;
    while i < a.len()
        invariant
            a.len() == b.len(),
            i <= a.len(),
            forall|k: int| 0 <= k < i ==> a@[k] == b@[k],
        decreases a.len() - i,
    {
        if a[i] != b[i] {
            return false;
        }
        i = i + 1;
    }
    assert(a@ =~= b@);
    true
}

/// A base slug with counter `c`: `base-c`.
pub open spec fn suffixed(b: Seq<char>, c: nat) -> Seq<char> {
    b + "-"@ + decimal(c)
}

/// `c` is the least counter from 1 on whose suffixed slug is not in `used`.
pub open spec fn is_least_free(used: Seq<Seq<char>>, b: Seq<char>, c: nat) -> bool {
    &&& c >= 1
    &&& !used.contains(suffixed(b, c))
    &&& forall|d: nat| 1 <= d < c ==> used.contains(#[trigger] suffixed(b, d))
}

/// The slug handed out for base `b` once `used` have been handed out: the base
/// itself while free, else the base with the least free counter.
pub open spec fn pick_slug(used: Seq<Seq<char>>, b: Seq<char>) -> Seq<char> {
    if !used.contains(b) {
        b
    } else {
        suffixed(b, choose|c: nat| is_least_free(used, b, c))
    }
}

/// The slugs handed out, in order, for a document's base slugs.
pub open spec fn slugs(bases: Seq<Seq<char>>) -> Seq<Seq<char>>
    decreases bases.len(),
{
    if bases.len() == 0 {
        Seq::empty()
    } else {
        let prev = slugs(bases.drop_last());
        prev.push(pick_slug(prev, bases.last()))
    }
}

proof fn lemma_decimal_shape(n: nat)
    ensures
        decimal(n).len() >= 1,
        n >= 10 ==> decimal(n).len() >= 2,
        n < 10 ==> decimal(n).len() == 1,
    decreases n,
{
    if n >= 10 {
        lemma_decimal_shape(n / 10);
    }
}

proof fn lemma_decimal_injective(a: nat, b: nat)
    requires
        decimal(a) == decimal(b),
    ensures
        a == b,
    decreases a,
{
    lemma_decimal_shape(a);
    lemma_decimal_shape(b);
    if a < 10 && b < 10 {
        assert(decimal(a)[0] == decimal(b)[0]);
        assert((decimal(a)[0] as u32) == a + 48);
        assert((decimal(b)[0] as u32) == b + 48);
    } else if a >= 10 && b >= 10 {
        assert(decimal(a).last() == decimal(b).last());
        assert((decimal(a).last() as u32) == a % 10 + 48);
        assert((decimal(b).last() as u32) == b % 10 + 48);
        assert(decimal(a).drop_last() =~= decimal(a / 10));
        assert(decimal(b).drop_last() =~= decimal(b / 10));
        lemma_decimal_injective(a / 10, b / 10);
    } else {
        assert(decimal(a).len() != decimal(b).len());
    }
}

proof fn lemma_suffixed_injective(b: Seq<char>, c: nat, d: nat)
    requires
        suffixed(b, c) == suffixed(b, d),
    ensures
        c == d,
{
    reveal_strlit("-");
    let sc = suffixed(b, c);
    let sd = suffixed(b, d);
    assert(sc.subrange(b.len() as int + 1, sc.len() as int) =~= decimal(c));
    assert(sd.subrange(b.len() as int + 1, sd.len() as int) =~= decimal(d));
    lemma_decimal_injective(c, d);
}

/// At most `used.len()` counters in a row can be taken.
proof fn lemma_counters_bounded(used: Seq<Seq<char>>, b: Seq<char>, c: nat)
    requires
        forall|d: nat| 1 <= d <= c ==> used.contains(#[trigger] suffixed(b, d)),
    ensures
        c <= used.len(),
{
    let s = Seq::new(c, |i: int| suffixed(b, (i + 1) as nat));
    assert(s.no_duplicates()) by {
        assert forall|i: int, j: int| 0 <= i < s.len() && 0 <= j < s.len() && i != j implies s[i]
            != s[j] by {
            if s[i] == s[j] {
                lemma_suffixed_injective(b, (i + 1) as nat, (j + 1) as nat);
            }
        }
    }
    s.unique_seq_to_set();
    used.lemma_cardinality_of_set();
    assert(s.to_set().subset_of(used.to_set())) by {
        assert forall|x: Seq<char>| s.to_set().contains(x) implies used.to_set().contains(x) by {
            let i = choose|i: int| 0 <= i < s.len() && s[i] == x;
            assert(used.contains(suffixed(b, (i + 1) as nat)));
        }
    }
    vstd::seq_lib::seq_to_set_is_finite(used);
    vstd::set_lib::lemma_len_subset(s.to_set(), used.to_set());
}

proof fn lemma_least_from(used: Seq<Seq<char>>, b: Seq<char>, c: nat)
    requires
        c >= 1,
        forall|d: nat| 1 <= d < c ==> used.contains(#[trigger] suffixed(b, d)),
    ensures
        exists|e: nat| is_least_free(used, b, e),
    decreases used.len() + 1 - c,
{
    if !used.contains(suffixed(b, c)) {
        assert(is_least_free(used, b, c));
    } else {
        assert forall|d: nat| 1 <= d <= c implies used.contains(#[trigger] suffixed(b, d)) by {}
        lemma_counters_bounded(used, b, c);
        lemma_least_from(used, b, c + 1);
    }
}

proof fn lemma_least_unique(used: Seq<Seq<char>>, b: Seq<char>, c: nat, e: nat)
    requires
        is_least_free(used, b, c),
        is_least_free(used, b, e),
    ensures
        c == e,
{
    if c < e {
        assert(used.contains(suffixed(b, c)));
    } else if e < c {
        assert(used.contains(suffixed(b, e)));
    }
}

proof fn lemma_pick_is_new(used: Seq<Seq<char>>, b: Seq<char>)
    ensures
        !used.contains(pick_slug(used, b)),
{
    if used.contains(b) {
        lemma_least_from(used, b, 1);
    }
}

/// Slug uniqueness: the slugs handed out for a document are pairwise
/// distinct, whatever its headers.
pub proof fn lemma_slugs_distinct(bases: Seq<Seq<char>>)
    ensures
        slugs(bases).no_duplicates(),
        slugs(bases).len() == bases.len(),
    decreases bases.len(),
{
    if bases.len() > 0 {
        let prev = slugs(bases.drop_last());
        lemma_slugs_distinct(bases.drop_last());
        lemma_pick_is_new(prev, bases.last());
        let t = prev.push(pick_slug(prev, bases.last()));
        assert forall|i: int, j: int| 0 <= i < t.len() && 0 <= j < t.len() && i != j implies t[i]
            != t[j] by {
            if i == prev.len() {
                assert(prev.contains(t[j]));
            } else if j == prev.len() {
                assert(prev.contains(t[i]));
            }
        }
    }
}

/// Handing out slugs one base at a time gives, at each step, the slug that
/// the whole document's sequence holds there.
pub proof fn lemma_slugs_prefix(bases: Seq<Seq<char>>, m: int)
    requires
        0 <= m <= bases.len(),
    ensures
        slugs(bases.take(m)) == slugs(bases).take(m),
    decreases bases.len() - m,
{
    lemma_slugs_distinct(bases);
    lemma_slugs_distinct(bases.take(m));
    if m < bases.len() {
        lemma_slugs_prefix(bases, m + 1);
        assert(bases.take(m + 1).drop_last() =~= bases.take(m));
        lemma_slugs_distinct(bases.take(m + 1));
        assert(slugs(bases).take(m + 1).drop_last() =~= slugs(bases).take(m));
    } else {
        assert(bases.take(m) =~= bases);
        assert(slugs(bases).take(m) =~= slugs(bases));
    }
}

fn contains_chars(used: &Vec<Vec<char>>, x: &Vec<char>) -> (r: bool)
    ensures
        r == views(used@).contains(x@),
{
    let mut k: usize = 0;
    while k < used.len()
        invariant
            k <= used.len(),
            forall|j: int| 0 <= j < k ==> used@[j]@ != x@,
        decreases used.len() - k,
    {
        if eq_chars(&used[k], x) {
            assert(views(used@)[k as int] == x@);
            return true;
        }
        k = k + 1;
    }
    assert forall|j: int| 0 <= j < views(used@).len() implies views(used@)[j] != x@ by {
        assert(views(used@)[j] == used@[j]@);
    }
    false
}

fn suffixed_chars(b: &Vec<char>, c: usize) -> (r: Vec<char>)
    ensures
        r@ == suffixed(b@, c as nat),
{
    let mut r = subvec(b, 0, b.len());
    assert(b@.subrange(0, b.len() as int) =~= b@);
    r.push('-');
    push_decimal(&mut r, c);
    assert(r@ =~= suffixed(b@, c as nat)) by {
        reveal_strlit("-");
    }
    r
}

/// Hands out the slugs of one document: a base slug that was already handed
/// out, bare or with a counter, gets the least counter that is still free.
pub struct SlugTable {
    used: Vec<Vec<char>>,
    seen: Ghost<Seq<Seq<char>>>,
}

impl SlugTable {
    /// The bases handed in so far, in order.
    pub closed spec fn history(&self) -> Seq<Seq<char>> {
        self.seen@
    }

    pub closed spec fn wf(&self) -> bool {
        views(self.used@) == slugs(self.seen@)
    }

    pub fn new() -> (r: Self)
        ensures
            r.wf(),
            r.history() == Seq::<Seq<char>>::empty(),
    {
        let r = SlugTable { used: Vec::new(), seen: Ghost(Seq::empty()) };
        assert(views(r.used@) =~= Seq::<Seq<char>>::empty());
        r
    }

    /// The slug for the next header, whose base slug is `base`.
    pub fn next_slug(&mut self, base: Vec<char>) -> (r: Vec<char>)
        requires
            old(self).wf(),
            old(self).history().len() < usize::MAX,
        ensures
            final(self).wf(),
            final(self).history() == old(self).history().push(base@),
            r@ == slugs(final(self).history())[old(self).history().len() as int],
    {
        let ghost h = self.seen@;
        let ghost h2 = h.push(base@);
        let ghost prev = slugs(h);
        assert(h2.drop_last() =~= h);
        proof {
            lemma_slugs_distinct(h);
        }
        let r = if !contains_chars(&self.used, &base) {
            base
        } else {
            let mut c: usize = 1;
            let mut cand = suffixed_chars(&base, c);
            while contains_chars(&self.used, &cand)
                invariant
                    1 <= c <= self.used.len() + 1,
                    self.used.len() == prev.len(),
                    prev.len() == h.len(),
                    h.len() < usize::MAX,
                    views(self.used@) == prev,
                    cand@ == suffixed(base@, c as nat),
                    forall|d: nat| 1 <= d < c ==> prev.contains(#[trigger] suffixed(base@, d)),
                decreases self.used.len() + 1 - c,
            {
                proof {
                    assert forall|d: nat| 1 <= d <= c implies prev.contains(
                        #[trigger] suffixed(base@, d),
                    ) by {}
                    lemma_counters_bounded(prev, base@, c as nat);
                }
                c = c + 1;
                cand = suffixed_chars(&base, c);
            }
            proof {
                assert(is_least_free(prev, base@, c as nat));
                let e = choose|e: nat| is_least_free(prev, base@, e);
                lemma_least_unique(prev, base@, c as nat, e);
            }
            cand
        };
        let copy = subvec(&r, 0, r.len());
        assert(r@.subrange(0, r.len() as int) =~= r@);
        self.used.push(copy);
        self.seen = Ghost(h2);
        assert(views(self.used@) =~= prev.push(r@));
        r
    }
}

} // verus!
