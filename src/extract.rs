//! The extraction stage's decisions: how many pages, and which of them still
//! need rendering.

use vstd::prelude::*;
use crate::combine::names_view;
use crate::naming::{page_file_name, page_image_name};

verus! {

/// The number of pages to extract: all of them, or at most `limit`.
pub fn pages_to_extract(total_pages: usize, limit: Option<usize>) -> (r: usize)
    ensures
        r == match limit {
            Some(l) => if l < total_pages {
                l
            } else {
                total_pages
            },
            None => total_pages,
        },
{
    match limit {
        Some(l) => if l < total_pages {
            l
        } else {
            total_pages
        },
        None => total_pages,
    }
}

/// Image file name of the page at 0-based index `i`.
pub open spec fn image_name_of(i: nat) -> Seq<char> {
    page_file_name(i + 1, ".png"@)
}

/// The page indices below `n` whose image is not among `existing`, ascending.
pub open spec fn missing_pages(n: nat, existing: Seq<Seq<char>>) -> Seq<usize>
    decreases n,
{
    if n == 0 {
        Seq::empty()
    } else if existing.contains(image_name_of((n - 1) as nat)) {
        missing_pages((n - 1) as nat, existing)
    } else {
        missing_pages((n - 1) as nat, existing).push((n - 1) as usize)
    }
}

fn contains_name(names: &Vec<String>, target: &String) -> (r: bool)
    ensures
        r == names_view(names@).contains(target@),
{
    let ghost nv = names_view(names@);
    let mut k: usize = 0;
    while k < names.len()
        invariant
            k <= names.len(),
            nv == names_view(names@),
            forall|j: int| 0 <= j < k ==> nv[j] != target@,
        decreases names.len() - k,
    {
        if names[k] == *target {
            assert(nv[k as int] == target@);
            return true;
        }
        k = k + 1;
    }
    false
}

/// The pages among the first `num_pages` that still need rendering: those
/// whose image name is not in the listing `existing` of the output directory.
pub fn extraction_plan(num_pages: usize, existing: &Vec<String>) -> (r: Vec<usize>)
    ensures
        r@ == missing_pages(num_pages as nat, names_view(existing@)),
{
    let mut r: Vec<usize> = Vec::new();
    let mut i: usize = 0;
    while i < num_pages
        invariant
            i <= num_pages,
            r@ == missing_pages(i as nat, names_view(existing@)),
        decreases num_pages - i,
    {
        let name = page_image_name(i);
        if !contains_name(existing, &name) {
            r.push(i);
        }
        i = i + 1;
    }
    r
}

/// Extraction is idempotent: once every page the plan named has been
/// rendered, with nothing removed, a second plan over the same pages renders
/// nothing, so the files stay as they are.
pub proof fn lemma_extraction_rerun_renders_nothing(
    n: usize,
    existing: Seq<Seq<char>>,
    after: Seq<Seq<char>>,
)
    requires
        forall|x: Seq<char>| existing.contains(x) ==> after.contains(x),
        forall|k: int|
            0 <= k < missing_pages(n as nat, existing).len() ==> after.contains(
                image_name_of(#[trigger] missing_pages(n as nat, existing)[k] as nat),
            ),
    ensures
        missing_pages(n as nat, after).len() == 0,
    decreases n,
{
    if n > 0 {
        let m = (n - 1) as nat;
        let prev = missing_pages(m, existing);
        let n1 = (n - 1) as usize;
        assert forall|k: int| 0 <= k < prev.len() implies after.contains(
            image_name_of(#[trigger] prev[k] as nat),
        ) by {
            if !existing.contains(image_name_of(m)) {
                assert(missing_pages(n as nat, existing)[k] == prev[k]);
            } else {
                assert(missing_pages(n as nat, existing) == prev);
            }
        }
        lemma_extraction_rerun_renders_nothing(n1, existing, after);
        if !existing.contains(image_name_of(m)) {
            assert(missing_pages(n as nat, existing)[prev.len() as int] == m as usize);
            assert(after.contains(image_name_of(m)));
        }
        assert(missing_pages(n as nat, after) == missing_pages(m, after));
    }
}

} // verus!
