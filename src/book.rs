//! Assembly of the combined book: cleaned pages behind page anchors, and a
//! table of contents built from their headers.

use vstd::prelude::*;
use crate::markdown::{headers_of, lines, parse_header, split_lines, strip_links, strip_links_chars, views};
use crate::slug::{lemma_slugs_distinct, lemma_slugs_prefix, slug_base, slug_base_of, slugs, SlugTable};
use crate::text::{chars_of, decimal, push_all, push_decimal, push_str, string_of, trim, trim_chars};

verus! {

/// A page's text once image links are removed and surrounding whitespace trimmed.
pub open spec fn clean_page(raw: Seq<char>) -> Seq<char> {
    trim(strip_links(raw))
}

pub open spec fn with_page(hs: Seq<(nat, Seq<char>)>, page: nat) -> Seq<(nat, Seq<char>, nat)> {
    hs.map_values(|h: (nat, Seq<char>)| (h.0, h.1, page))
}

/// The headers of one page as `(level, title, page)`.
pub open spec fn page_headings(page: nat, raw: Seq<char>) -> Seq<(nat, Seq<char>, nat)> {
    with_page(headers_of(lines(clean_page(raw))), page)
}

/// The pages as `(page number, text)`.
pub open spec fn pages_view(p: Seq<(usize, String)>) -> Seq<(nat, Seq<char>)> {
    p.map_values(|e: (usize, String)| (e.0 as nat, e.1@))
}

/// All headers of the book, page after page.
pub open spec fn book_headings(ps: Seq<(nat, Seq<char>)>) -> Seq<(nat, Seq<char>, nat)>
    decreases ps.len(),
{
    if ps.len() == 0 {
        Seq::empty()
    } else {
        book_headings(ps.drop_last()) + page_headings(ps.last().0, ps.last().1)
    }
}

/// One page in the book: its anchor, its cleaned text, a rule.
pub open spec fn page_block(page: nat, raw: Seq<char>) -> Seq<char> {
    "\n<a id='page_"@ + decimal(page) + "'></a>\n"@ + clean_page(raw) + "\n\n---\n\n"@
}

pub open spec fn book_body(ps: Seq<(nat, Seq<char>)>) -> Seq<char>
    decreases ps.len(),
{
    if ps.len() == 0 {
        Seq::empty()
    } else {
        book_body(ps.drop_last()) + page_block(ps.last().0, ps.last().1)
    }
}

pub open spec fn heading_bases(hs: Seq<(nat, Seq<char>, nat)>) -> Seq<Seq<char>> {
    hs.map_values(|h: (nat, Seq<char>, nat)| slug_base(h.1))
}

/// Two spaces per header level below the first.
pub open spec fn indent(level: nat) -> Seq<char> {
    Seq::new((2 * (level - 1)) as nat, |i: int| ' ')
}

/// `- [title](slug) *(Page n)*`, indented by header depth.
pub open spec fn toc_line(h: (nat, Seq<char>, nat), slug: Seq<char>) -> Seq<char> {
    indent(h.0) + "- ["@ + h.1 + "]("@ + slug + ") *(Page "@ + decimal(h.2) + ")*"@
}

pub open spec fn toc_lines(hs: Seq<(nat, Seq<char>, nat)>) -> Seq<Seq<char>> {
    Seq::new(hs.len(), |i: int| toc_line(hs[i], slugs(heading_bases(hs))[i]))
}

/// The lines joined with `\n`.
pub open spec fn join_lines(ls: Seq<Seq<char>>) -> Seq<char>
    decreases ls.len(),
{
    if ls.len() == 0 {
        Seq::empty()
    } else if ls.len() == 1 {
        ls[0]
    } else {
        join_lines(ls.drop_last()) + "\n"@ + ls.last()
    }
}

pub open spec fn spaces_for_underscores(s: Seq<char>) -> Seq<char> {
    s.map_values(|c: char|
        if c == '_' {
            ' '
        } else {
            c
        })
}

/// The combined book: title, table of contents, then every page in the order given.
pub open spec fn book(name: Seq<char>, ps: Seq<(nat, Seq<char>)>) -> Seq<char> {
    "# "@ + spaces_for_underscores(name) + "\n\n## Table of Contents\n\n"@ + join_lines(
        toc_lines(book_headings(ps)),
    ) + "\n\n---\n\n"@ + book_body(ps)
}

pub open spec fn headings_view(hs: Seq<(usize, Vec<char>, usize)>) -> Seq<(nat, Seq<char>, nat)> {
    hs.map_values(|h: (usize, Vec<char>, usize)| (h.0 as nat, h.1@, h.2 as nat))
}

fn push_page_block(out: &mut Vec<char>, page: usize, clean: &Vec<char>)
    ensures
        final(out)@ == old(out)@ + "\n<a id='page_"@ + decimal(page as nat) + "'></a>\n"@ + clean@
            + "\n\n---\n\n"@,
{
    push_str(out, "\n<a id='page_");
    push_decimal(out, page);
    push_str(out, "'></a>\n");
    push_all(out, clean);
    push_str(out, "\n\n---\n\n");
}

fn collect_headings(hs: &mut Vec<(usize, Vec<char>, usize)>, page: usize, clean: &Vec<char>)
    requires
        forall|m: int| 0 <= m < old(hs).len() ==> (#[trigger] old(hs)@[m]).0 >= 1,
    ensures
        forall|m: int| 0 <= m < final(hs).len() ==> (#[trigger] final(hs)@[m]).0 >= 1,
        headings_view(final(hs)@) == headings_view(old(hs)@) + with_page(headers_of(lines(clean@)), page as nat),
{
    let ls = split_lines(clean);
    let mut j: usize = 0;
    while j < ls.len()
        invariant
            j <= ls.len(),
            views(ls@) == lines(clean@),
            forall|m: int| 0 <= m < hs.len() ==> (#[trigger] hs@[m]).0 >= 1,
            headings_view(hs@) == headings_view(old(hs)@) + with_page(headers_of(views(ls@).take(j as int)), page as nat),
        decreases ls.len() - j,
    {
        let ghost before = headings_view(hs@);
        assert(views(ls@).take(j + 1).drop_last() =~= views(ls@).take(j as int));
        assert(views(ls@).take(j + 1).last() == ls@[j as int]@);
        match parse_header(&ls[j]) {
            Some((lvl, title)) => {
                hs.push((lvl, title, page));
                assert(headings_view(hs@) =~= before.push((lvl as nat, title@, page as nat)));
                assert(headers_of(views(ls@).take(j + 1)) == headers_of(views(ls@).take(j as int)).push((lvl as nat, title@)));
                let ghost a = headers_of(views(ls@).take(j as int));
                assert(with_page(a.push((lvl as nat, title@)), page as nat) =~= with_page(a, page as nat).push((lvl as nat, title@, page as nat)));
                assert(headings_view(hs@) =~= headings_view(old(hs)@) + with_page(headers_of(views(ls@).take(j + 1)), page as nat));
            },
            None => {
                assert(headers_of(views(ls@).take(j + 1)) == headers_of(views(ls@).take(j as int)));
            },
        }
        j = j + 1;
    }
    assert(views(ls@).take(j as int) =~= views(ls@));
}

} // verus!

verus! {

fn push_toc_line(out: &mut Vec<char>, level: usize, title: &Vec<char>, slug: &Vec<char>, page: usize)
    requires
        level >= 1,
    ensures
        final(out)@ == old(out)@ + toc_line((level as nat, title@, page as nat), slug@),
{
    let ghost start = old(out)@;
    let mut k: usize = 0;
    while k < level - 1
        invariant
            level >= 1,
            k <= level - 1,
            out@ == start + Seq::new(2 * k as nat, |i: int| ' '),
        decreases level - 1 - k,
    {
        out.push(' ');
        out.push(' ');
        assert(out@ =~= start + Seq::new(2 * (k + 1) as nat, |i: int| ' '));
        k = k + 1;
    }
    assert(Seq::new(2 * k as nat, |i: int| ' ') =~= indent(level as nat));
    push_str(out, "- [");
    push_all(out, title);
    push_str(out, "](");
    push_all(out, slug);
    push_str(out, ") *(Page ");
    push_decimal(out, page);
    push_str(out, ")*");
    assert(out@ =~= start + toc_line((level as nat, title@, page as nat), slug@));
}

/// Writes the combined book: a title from `book_name` (underscores shown as
/// spaces), a table of contents over the headers of all pages with unique
/// slugs, then each page's cleaned text behind its anchor, in the order given.
pub fn build_book(book_name: &str, pages: &Vec<(usize, String)>) -> (r: String)
    ensures
        r@ == book(book_name@, pages_view(pages@)),
{
    let ghost pv = pages_view(pages@);
    let mut body: Vec<char> = Vec::new();
    let mut hs: Vec<(usize, Vec<char>, usize)> = Vec::new();
    let mut i: usize = 0;
    while i < pages.len()
        invariant
            i <= pages.len(),
            pv == pages_view(pages@),
            body@ == book_body(pv.take(i as int)),
            headings_view(hs@) == book_headings(pv.take(i as int)),
            forall|m: int| 0 <= m < hs.len() ==> (#[trigger] hs@[m]).0 >= 1,
        decreases pages.len() - i,
    {
        let page = pages[i].0;
        let raw = chars_of(pages[i].1.as_str());
        let clean = trim_chars(&strip_links_chars(&raw));
        assert(pv.take(i + 1).drop_last() =~= pv.take(i as int));
        assert(pv.take(i + 1).last() == (page as nat, raw@));
        push_page_block(&mut body, page, &clean);
        collect_headings(&mut hs, page, &clean);
        i = i + 1;
    }
    assert(pv.take(i as int) =~= pv);
    let ghost hv = headings_view(hs@);
    let ghost bases = heading_bases(hv);
    let ghost tl = toc_lines(hv);
    let mut table = SlugTable::new();
    let mut toc: Vec<char> = Vec::new();
    let mut k: usize = 0;
    while k < hs.len()
        invariant
            k <= hs.len(),
            hv == headings_view(hs@),
            bases == heading_bases(hv),
            tl == toc_lines(hv),
            table.wf(),
            table.history() == bases.take(k as int),
            toc@ == join_lines(tl.take(k as int)),
            forall|m: int| 0 <= m < hs.len() ==> (#[trigger] hs@[m]).0 >= 1,
        decreases hs.len() - k,
    {
        let ghost before = toc@;
        if k > 0 {
            toc.push('\n');
        }
        let title = string_of(&hs[k].1);
        let base = slug_base_of(title.as_str());
        assert(bases.take(k as int).push(base@) =~= bases.take(k + 1));
        let slug = table.next_slug(base);
        proof {
            lemma_slugs_prefix(bases, k + 1);
            lemma_slugs_distinct(bases);
            lemma_slugs_distinct(bases.take(k + 1));
            assert(table.history() == bases.take(k + 1));
            assert(slug@ == slugs(bases.take(k + 1))[k as int]);
            assert(slugs(bases).take(k + 1)[k as int] == slugs(bases)[k as int]);
            assert(tl[k as int] == toc_line(hv[k as int], slug@));
        }
        push_toc_line(&mut toc, hs[k].0, &hs[k].1, &slug, hs[k].2);
        assert(tl.take(k + 1).drop_last() =~= tl.take(k as int));
        proof {
            reveal_strlit("\n");
        }
        assert(toc@ =~= join_lines(tl.take(k + 1)));
        k = k + 1;
    }
    assert(tl.take(k as int) =~= tl);
    let name = chars_of(book_name);
    let mut out: Vec<char> = Vec::new();
    push_str(&mut out, "# ");
    let mut j: usize = 0;
    while j < name.len()
        invariant
            j <= name.len(),
            out@ == "# "@ + spaces_for_underscores(name@.take(j as int)),
        decreases name.len() - j,
    {
        let c = if name[j] == '_' {
            ' '
        } else {
            name[j]
        };
        out.push(c);
        assert(spaces_for_underscores(name@.take(j + 1)) =~= spaces_for_underscores(
            name@.take(j as int),
        ).push(c));
        j = j + 1;
    }
    assert(name@.take(j as int) =~= book_name@);
    push_str(&mut out, "\n\n## Table of Contents\n\n");
    push_all(&mut out, &toc);
    push_str(&mut out, "\n\n---\n\n");
    push_all(&mut out, &body);
    string_of(&out)
}

} // verus!

verus! {

/// Slug uniqueness in a book: the anchors of its table of contents are
/// pairwise distinct, one for each header.
pub proof fn lemma_book_slugs_distinct(ps: Seq<(nat, Seq<char>)>)
    ensures
        slugs(heading_bases(book_headings(ps))).no_duplicates(),
        slugs(heading_bases(book_headings(ps))).len() == book_headings(ps).len(),
{
    lemma_slugs_distinct(heading_bases(book_headings(ps)));
}

} // verus!
