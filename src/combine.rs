//! The merge stage's decisions: which transcripts take part, in which order,
//! and whether they match the page images.

use vstd::prelude::*;
use crate::naming::{parse_page_number, transcript_page};
use crate::text::{chars_of, ends_with, has_prefix, has_suffix, starts_with};

verus! {

pub open spec fn names_view(names: Seq<String>) -> Seq<Seq<char>> {
    names.map_values(|s: String| s@)
}

/// The transcripts among `names` as `(page number, position in names)`, in
/// listing order.
pub open spec fn transcript_refs(names: Seq<Seq<char>>) -> Seq<(usize, usize)>
    decreases names.len(),
{
    if names.len() == 0 {
        Seq::empty()
    } else {
        let prev = transcript_refs(names.drop_last());
        match transcript_page(names.last()) {
            Some(p) => prev.push((p as usize, (names.len() - 1) as usize)),
            None => prev,
        }
    }
}

/// Page order, ties broken by listing order.
pub open spec fn ref_lt(a: (usize, usize), b: (usize, usize)) -> bool {
    a.0 < b.0 || (a.0 == b.0 && a.1 < b.1)
}

pub open spec fn strictly_ordered(r: Seq<(usize, usize)>) -> bool {
    forall|i: int, j: int| 0 <= i < j < r.len() ==> ref_lt(r[i], r[j])
}

/// `r` holds exactly the transcripts of `names`, in ascending page order.
pub open spec fn is_page_order(r: Seq<(usize, usize)>, names: Seq<Seq<char>>) -> bool {
    &&& strictly_ordered(r)
    &&& forall|e: (usize, usize)| r.contains(e) <==> transcript_refs(names).contains(e)
}

proof fn lemma_refs_bounded(names: Seq<Seq<char>>)
    ensures
        forall|k: int|
            0 <= k < transcript_refs(names).len() ==> (#[trigger] transcript_refs(names)[k]).1
                < names.len(),
        transcript_refs(names).len() <= names.len(),
    decreases names.len(),
{
    if names.len() > 0 {
        lemma_refs_bounded(names.drop_last());
    }
}

/// The transcripts among the file names `names` (`page_<number>.md`), as
/// `(page number, position in names)`, sorted by page number; names with the
/// same page number keep their listing order.
pub fn order_transcripts(names: &Vec<String>) -> (r: Vec<(usize, usize)>)
    ensures
        is_page_order(r@, names_view(names@)),
{
    let ghost nv = names_view(names@);
    let mut r: Vec<(usize, usize)> = Vec::new();
    let mut i: usize = 0;
    while i < names.len()
        invariant
            i <= names.len(),
            nv == names_view(names@),
            strictly_ordered(r@),
            forall|k: int| 0 <= k < r.len() ==> (#[trigger] r@[k]).1 < i,
            forall|e: (usize, usize)| r@.contains(e) <==> transcript_refs(nv.take(i as int)).contains(e),
        decreases names.len() - i,
    {
        assert(nv.take(i + 1).drop_last() =~= nv.take(i as int));
        assert(nv.take(i + 1).last() == names@[i as int]@);
        match parse_page_number(names[i].as_str()) {
            Some(p) => {
                let mut pos: usize = r.len();
                while pos > 0 && r[pos - 1].0 > p
                    invariant
                        pos <= r.len(),
                        forall|k: int| pos <= k < r.len() ==> (#[trigger] r@[k]).0 > p,
                    decreases pos,
                {
                    pos = pos - 1;
                }
                let ghost old_r = r@;
                r.insert(pos, (p, i));
                proof {
                    old_r.insert_ensures(pos as int, (p, i));
                    assert forall|a: int, b: int| 0 <= a < b < r.len() implies ref_lt(r@[a], r@[b]) by {
                        if b < pos {
                        } else if a > pos {
                            assert(r@[a] == old_r[a - 1]);
                            assert(r@[b] == old_r[b - 1]);
                        } else if a == pos {
                            assert(r@[b] == old_r[b - 1]);
                        } else {
                            assert(b == pos || r@[b] == old_r[b - 1]);
                            if b == pos {
                                if pos > 0 {
                                    assert(old_r[pos - 1].0 <= p);
                                    if a < pos - 1 {
                                        assert(ref_lt(old_r[a], old_r[pos - 1]));
                                    }
                                }
                            } else {
                                assert(ref_lt(old_r[a], old_r[b - 1]));
                            }
                        }
                    }
                    let t = transcript_refs(nv.take(i as int));
                    assert(transcript_refs(nv.take(i + 1)) == t.push((p, i)));
                    assert forall|e: (usize, usize)| r@.contains(e) <==> transcript_refs(nv.take(i + 1)).contains(e) by {
                        if r@.contains(e) {
                            let k = choose|k: int| 0 <= k < r.len() && r@[k] == e;
                            if k < pos {
                                assert(old_r[k] == e);
                                assert(old_r.contains(e));
                                assert(t.contains(e));
                                let k2 = choose|k2: int| 0 <= k2 < t.len() && t[k2] == e;
                                assert(t.push((p, i))[k2] == e);
                            } else if k > pos {
                                assert(old_r[k - 1] == e);
                                assert(old_r.contains(e));
                                assert(t.contains(e));
                                let k2 = choose|k2: int| 0 <= k2 < t.len() && t[k2] == e;
                                assert(t.push((p, i))[k2] == e);
                            } else {
                                assert(t.push((p, i))[t.len() as int] == e);
                            }
                        }
                        if t.push((p, i)).contains(e) {
                            let k = choose|k: int| 0 <= k < t.len() + 1 && t.push((p, i))[k] == e;
                            if k < t.len() {
                                assert(t[k] == e);
                                assert(old_r.contains(e));
                                let k2 = choose|k2: int| 0 <= k2 < old_r.len() && old_r[k2] == e;
                                if k2 < pos {
                                    assert(r@[k2] == e);
                                } else {
                                    assert(r@[k2 + 1] == e);
                                }
                            } else {
                                assert(r@[pos as int] == e);
                            }
                        }
                    }
                }
            },
            None => {
                assert(transcript_refs(nv.take(i + 1)) == transcript_refs(nv.take(i as int)));
            },
        }
        i = i + 1;
    }
    assert(nv.take(i as int) =~= nv);
    r
}

proof fn lemma_refs_no_dup(names: Seq<Seq<char>>)
    requires
        names.len() <= usize::MAX,
    ensures
        transcript_refs(names).no_duplicates(),
    decreases names.len(),
{
    if names.len() > 0 {
        let prev = transcript_refs(names.drop_last());
        lemma_refs_no_dup(names.drop_last());
        lemma_refs_bounded(names.drop_last());
        if let Some(p) = transcript_page(names.last()) {
            let x = (p as usize, (names.len() - 1) as usize);
            let t = prev.push(x);
            assert(t == transcript_refs(names));
            assert forall|a: int, b: int| 0 <= a < t.len() && 0 <= b < t.len() && a != b implies t[a]
                != t[b] by {
                if b == prev.len() {
                    assert(prev[a].1 < names.len() - 1);
                } else if a == prev.len() {
                    assert(prev[b].1 < names.len() - 1);
                } else {
                    assert(t[a] == prev[a] && t[b] == prev[b]);
                }
            }
        }
    }
}

proof fn lemma_no_dup_len(r: Seq<(usize, usize)>, names: Seq<Seq<char>>)
    requires
        is_page_order(r, names),
        names.len() <= usize::MAX,
    ensures
        r.len() == transcript_refs(names).len(),
{
    let t = transcript_refs(names);
    lemma_refs_no_dup(names);
    assert(r.no_duplicates()) by {
        assert forall|i: int, j: int| 0 <= i < r.len() && 0 <= j < r.len() && i != j implies r[i] != r[j] by {
            if i < j {
                assert(ref_lt(r[i], r[j]));
            } else {
                assert(ref_lt(r[j], r[i]));
            }
        }
    }
    assert(r.to_set() =~= t.to_set());
    r.unique_seq_to_set();
    t.unique_seq_to_set();
}

/// A page image name: `page_…png`.
pub open spec fn is_page_image_name(n: Seq<char>) -> bool {
    has_prefix(n, "page_"@) && has_suffix(n, ".png"@)
}

/// How many of `names` are page images.
pub open spec fn image_count(names: Seq<Seq<char>>) -> nat
    decreases names.len(),
{
    if names.len() == 0 {
        0
    } else {
        image_count(names.drop_last()) + if is_page_image_name(names.last()) {
            1nat
        } else {
            0nat
        }
    }
}

/// Counts the page images (`page_*.png`) among `names`.
pub fn count_page_images(names: &Vec<String>) -> (r: usize)
    ensures
        r as nat == image_count(names_view(names@)),
{
    let ghost nv = names_view(names@);
    let mut c: usize = 0;
    let mut i: usize = 0;
    while i < names.len()
        invariant
            i <= names.len(),
            nv == names_view(names@),
            c as nat == image_count(nv.take(i as int)),
            c <= i,
        decreases names.len() - i,
    {
        assert(nv.take(i + 1).drop_last() =~= nv.take(i as int));
        let s = chars_of(names[i].as_str());
        if starts_with(&s, "page_") && ends_with(&s, ".png") {
            c = c + 1;
        }
        i = i + 1;
    }
    assert(nv.take(i as int) =~= nv);
    c
}

/// Why the merge refuses to run.
#[derive(Debug, Clone, Copy, PartialEq, Eq, Structural)]
pub enum CombineError {
    /// The number of transcripts differs from the number of page images.
    PageCountMismatch { transcripts: usize, images: usize },
}

/// Chooses and orders the transcripts to merge. With the listing of the sibling
/// image directory, fails when the transcript count differs from the image
/// count; without it, validation is skipped.
pub fn plan_combine(transcripts: &Vec<String>, images: Option<&Vec<String>>) -> (r: Result<
    Vec<(usize, usize)>,
    CombineError,
>)
    ensures
        match images {
            Some(imgs) => match r {
                Ok(order) => transcript_refs(names_view(transcripts@)).len() == image_count(
                    names_view(imgs@),
                ) && is_page_order(order@, names_view(transcripts@)),
                Err(e) => transcript_refs(names_view(transcripts@)).len() != image_count(
                    names_view(imgs@),
                ) && e == CombineError::PageCountMismatch {
                    transcripts: transcript_refs(names_view(transcripts@)).len() as usize,
                    images: image_count(names_view(imgs@)) as usize,
                },
            },
            None => r is Ok && is_page_order(r->Ok_0@, names_view(transcripts@)),
        },
{
    let order = order_transcripts(transcripts);
    proof {
        assert(names_view(transcripts@).len() == transcripts.len());
        lemma_no_dup_len(order@, names_view(transcripts@));
    }
    match images {
        Some(imgs) => {
            let n = count_page_images(imgs);
            if order.len() != n {
                Err(CombineError::PageCountMismatch { transcripts: order.len(), images: n })
            } else {
                Ok(order)
            }
        },
        None => Ok(order),
    }
}

} // verus!

verus! {

/// Ordering: whatever order the directory lists them in, transcripts whose
/// page numbers differ are merged in strictly ascending page order.
pub proof fn lemma_pages_strictly_ascending(r: Seq<(usize, usize)>, names: Seq<Seq<char>>)
    requires
        is_page_order(r, names),
        forall|a: (usize, usize), b: (usize, usize)|
            transcript_refs(names).contains(a) && transcript_refs(names).contains(b) && a.0 == b.0
                ==> a == b,
    ensures
        forall|i: int, j: int| 0 <= i < j < r.len() ==> r[i].0 < r[j].0,
{
    assert forall|i: int, j: int| 0 <= i < j < r.len() implies r[i].0 < r[j].0 by {
        assert(ref_lt(r[i], r[j]));
        assert(r.contains(r[i]) && r.contains(r[j]));
    }
}

} // verus!
