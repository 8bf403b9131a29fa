//! The Markdown grammar that the merge relies on: inline image links into an
//! `img/` directory, line splitting, and ATX headers.

use vstd::prelude::*;
use crate::text::{is_whitespace, is_ws, subvec, trim, trim_chars};

verus! {

/// Index of the first `)` at or after `i`.
pub open spec fn first_close(s: Seq<char>, i: int) -> Option<int>
    decreases s.len() - i,
{
    if i < 0 || i >= s.len() {
        None
    } else if s[i] == ')' {
        Some(i)
    } else {
        first_close(s, i + 1)
    }
}

/// Whether `img/` occurs inside `s[lo..hi]`.
pub open spec fn has_img_dir(s: Seq<char>, lo: int, hi: int) -> bool {
    exists|k: int| lo <= k && k + 4 <= hi && #[trigger] s.subrange(k, k + 4) == "img/"@
}

/// Scanning the alternative text of a link from `q`: the end (exclusive) of the
/// first `](target)` whose target holds `img/` and no `)`, where the
/// alternative text holds no line break.
pub open spec fn link_close_from(s: Seq<char>, q: int) -> Option<int>
    decreases s.len() - q,
{
    if q < 0 || q + 1 >= s.len() {
        None
    } else if s[q] == ']' && s[q + 1] == '(' && first_close(s, q + 2) is Some && has_img_dir(
        s,
        q + 2,
        first_close(s, q + 2)->0,
    ) {
        Some(first_close(s, q + 2)->0 + 1)
    } else if s[q] == '\n' {
        None
    } else {
        link_close_from(s, q + 1)
    }
}

/// End (exclusive) of the image link `![alt](…img/…)` that starts at `p`, if one does.
pub open spec fn image_link_at(s: Seq<char>, p: int) -> Option<int> {
    if 0 <= p && p + 1 < s.len() && s[p] == '!' && s[p + 1] == '[' {
        link_close_from(s, p + 2)
    } else {
        None
    }
}

/// `s[i..]` with every image link into an `img/` directory removed, matches
/// taken leftmost first and without overlap.
pub open spec fn strip_links_from(s: Seq<char>, i: int) -> Seq<char>
    decreases s.len() - i,
{
    if i < 0 || i >= s.len() {
        Seq::empty()
    } else if image_link_at(s, i) is Some && i < image_link_at(s, i)->0 <= s.len() {
        strip_links_from(s, image_link_at(s, i)->0)
    } else {
        seq![s[i]] + strip_links_from(s, i + 1)
    }
}

pub open spec fn strip_links(s: Seq<char>) -> Seq<char> {
    strip_links_from(s, 0)
}

fn find_close(s: &Vec<char>, i: usize) -> (r: Option<usize>)
    ensures
        r is Some <==> first_close(s@, i as int) is Some,
        r is Some ==> r->0 as int == first_close(s@, i as int)->0,
        r is Some ==> i <= r->0 < s.len(),
{
    let mut k: usize = i;
    while k < s.len()
        invariant
            i <= k,
            first_close(s@, i as int) == first_close(s@, k as int),
        decreases s.len() - k,
    {
        if s[k] == ')' {
            return Some(k);
        }
        k = k + 1;
    }
    None
}

fn find_img_dir(s: &Vec<char>, lo: usize, hi: usize) -> (r: bool)
    requires
        lo <= hi <= s.len(),
    ensures
        r == has_img_dir(s@, lo as int, hi as int),
{
    proof {
        reveal_strlit("img/");
    }
    let mut k: usize = lo;
    while hi >= 4 && k <= hi - 4
        invariant
            lo <= k,
            hi <= s.len(),
            forall|j: int| lo <= j < k ==> #[trigger] s@.subrange(j, j + 4) != "img/"@ || j + 4 > hi,
        decreases hi - k,
    {
        if s[k] == 'i' && s[k + 1] == 'm' && s[k + 2] == 'g' && s[k + 3] == '/' {
            proof {
                reveal_strlit("img/");
            }
            assert(s@.subrange(k as int, k + 4) =~= "img/"@);
            return true;
        }
        proof {
            reveal_strlit("img/");
        }
        assert(s@.subrange(k as int, k + 4)[0] == s@[k as int]);
        assert(s@.subrange(k as int, k + 4)[1] == s@[k + 1]);
        assert(s@.subrange(k as int, k + 4)[2] == s@[k + 2]);
        assert(s@.subrange(k as int, k + 4)[3] == s@[k + 3]);
        k = k + 1;
    }
    false
}

fn image_link_end(s: &Vec<char>, p: usize) -> (r: Option<usize>)
    requires
        p < s.len(),
    ensures
        r is Some <==> image_link_at(s@, p as int) is Some,
        r is Some ==> r->0 as int == image_link_at(s@, p as int)->0,
        r is Some ==> p < r->0 <= s.len(),
{
    if !(s.len() - p > 1 && s[p] == '!' && s[p + 1] == '[') {
        return None;
    }
    let mut q: usize = p + 2;
    while q < s.len() - 1
        invariant
            p + 2 <= q <= s.len(),
            s.len() >= 2,
            image_link_at(s@, p as int) == link_close_from(s@, q as int),
        decreases s.len() - q,
    {
        let mut hit: Option<usize> = None;
        if s[q] == ']' && s[q + 1] == '(' {
            match find_close(s, q + 2) {
                Some(c) => {
                    if find_img_dir(s, q + 2, c) {
                        hit = Some(c + 1);
                    }
                },
                None => {},
            }
        }
        assert(hit is Some <==> (s@[q as int] == ']' && s@[q + 1] == '(' && first_close(
            s@,
            q + 2,
        ) is Some && has_img_dir(s@, q + 2, first_close(s@, q + 2)->0)));
        if let Some(e) = hit {
            assert(link_close_from(s@, q as int) == Some(e as int));
            return Some(e);
        }
        if s[q] == '\n' {
            assert(link_close_from(s@, q as int) is None);
            return None;
        }
        assert(link_close_from(s@, q as int) == link_close_from(s@, q + 1));
        q = q + 1;
    }
    assert(link_close_from(s@, q as int) is None);
    None
}

/// Removes every image link into an `img/` directory from `s`.
pub fn strip_links_chars(s: &Vec<char>) -> (r: Vec<char>)
    ensures
        r@ == strip_links(s@),
{
    let mut out: Vec<char> = Vec::new();
    let mut i: usize = 0;
    while i < s.len()
        invariant
            i <= s.len(),
            out@ + strip_links_from(s@, i as int) == strip_links(s@),
        decreases s.len() - i,
    {
        match image_link_end(s, i) {
            Some(e) => {
                assert(strip_links_from(s@, i as int) == strip_links_from(s@, e as int));
                i = e;
            },
            None => {
                assert(strip_links_from(s@, i as int) == seq![s@[i as int]] + strip_links_from(
                    s@,
                    i + 1,
                ));
                let ghost before = out@;
                out.push(s[i]);
                assert(out@ + strip_links_from(s@, i + 1) =~= before + (seq![s@[i as int]]
                    + strip_links_from(s@, i + 1)));
                i = i + 1;
            },
        }
    }
    assert(out@ + strip_links_from(s@, i as int) =~= out@);
    out
}

} // verus!

verus! {

pub open spec fn drop_cr(l: Seq<char>) -> Seq<char> {
    if l.len() > 0 && l.last() == '\r' {
        l.drop_last()
    } else {
        l
    }
}

/// The lines of `s` from line start `start`, scanning at `i`: split at `\n`,
/// a `\r` before the `\n` dropped, no empty line after a final `\n`.
pub open spec fn lines_from(s: Seq<char>, start: int, i: int) -> Seq<Seq<char>>
    decreases s.len() - i,
{
    if i < 0 || start < 0 || start > i {
        Seq::empty()
    } else if i >= s.len() {
        if start < s.len() {
            seq![s.subrange(start, s.len() as int)]
        } else {
            Seq::empty()
        }
    } else if s[i] == '\n' {
        seq![drop_cr(s.subrange(start, i))] + lines_from(s, i + 1, i + 1)
    } else {
        lines_from(s, start, i + 1)
    }
}

pub open spec fn lines(s: Seq<char>) -> Seq<Seq<char>> {
    lines_from(s, 0, 0)
}

pub open spec fn views(v: Seq<Vec<char>>) -> Seq<Seq<char>> {
    v.map_values(|l: Vec<char>| l@)
}

fn without_cr(l: Vec<char>) -> (r: Vec<char>)
    ensures
        r@ == drop_cr(l@),
{
    let mut l = l;
    if l.len() > 0 && l[l.len() - 1] == '\r' {
        l.pop();
    }
    l
}

/// Splits `s` into lines.
pub fn split_lines(s: &Vec<char>) -> (r: Vec<Vec<char>>)
    ensures
        views(r@) == lines(s@),
{
    let mut out: Vec<Vec<char>> = Vec::new();
    let mut start: usize = 0;
    let mut i: usize = 0;
    while i < s.len()
        invariant
            start <= i <= s.len(),
            views(out@) + lines_from(s@, start as int, i as int) == lines(s@),
        decreases s.len() - i,
    {
        if s[i] == '\n' {
            let l = without_cr(subvec(s, start, i));
            let ghost before = views(out@);
            out.push(l);
            assert(views(out@) =~= before.push(l@));
            assert(views(out@) + lines_from(s@, i + 1, i + 1) =~= before + lines_from(
                s@,
                start as int,
                i as int,
            ));
            start = i + 1;
        } else {
            assert(lines_from(s@, start as int, i as int) == lines_from(s@, start as int, i + 1));
        }
        i = i + 1;
    }
    if start < s.len() {
        let l = subvec(s, start, s.len());
        let ghost before = views(out@);
        out.push(l);
        assert(views(out@) =~= before.push(l@));
        assert(views(out@) =~= before + lines_from(s@, start as int, i as int));
    } else {
        assert(views(out@) =~= views(out@) + lines_from(s@, start as int, i as int));
    }
    out
}

/// Number of `#` characters that open `l`.
pub open spec fn hashes(l: Seq<char>) -> nat
    decreases l.len(),
{
    if l.len() > 0 && l[0] == '#' {
        1 + hashes(l.drop_first())
    } else {
        0
    }
}

/// An ATX header `#… title`: one or more `#`, whitespace, then at least one
/// more character. Gives the number of `#` and the trimmed title.
pub open spec fn header(l: Seq<char>) -> Option<(nat, Seq<char>)> {
    let h = hashes(l);
    if h >= 1 && l.len() >= h + 2 && is_ws(l[h as int]) {
        Some((h, trim(l.subrange(h as int, l.len() as int))))
    } else {
        None
    }
}

/// The headers among `ls`, in order.
pub open spec fn headers_of(ls: Seq<Seq<char>>) -> Seq<(nat, Seq<char>)>
    decreases ls.len(),
{
    if ls.len() == 0 {
        Seq::empty()
    } else {
        let h = headers_of(ls.drop_last());
        match header(ls.last()) {
            Some(x) => h.push(x),
            None => h,
        }
    }
}

fn count_hashes(l: &Vec<char>) -> (h: usize)
    ensures
        h as nat == hashes(l@),
        h <= l.len(),
{
    let mut i: usize = 0;
    assert(l@.subrange(0, l.len() as int) =~= l@);
    while i < l.len() && l[i] == '#'
        invariant
            i <= l.len(),
            hashes(l@) == i + hashes(l@.subrange(i as int, l.len() as int)),
        decreases l.len() - i,
    {
        assert(l@.subrange(i as int, l.len() as int).drop_first() =~= l@.subrange(
            i + 1,
            l.len() as int,
        ));
        i = i + 1;
    }
    i
}

/// Recognises an ATX header line.
pub fn parse_header(l: &Vec<char>) -> (r: Option<(usize, Vec<char>)>)
    ensures
        match r {
            Some((h, t)) => header(l@) == Some((h as nat, t@)),
            None => header(l@) is None,
        },
{
    let h = count_hashes(l);
    if h >= 1 && l.len() - h >= 2 && is_whitespace(l[h]) {
        let rest = subvec(l, h, l.len());
        Some((h, trim_chars(&rest)))
    } else {
        None
    }
}

} // verus!
