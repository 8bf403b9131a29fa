//! The driver's decisions: which inputs are documents, and what follows each stage.

use vstd::prelude::*;
use crate::text::chars_of;

verus! {

/// The extension of a file name as `Path::extension` finds it: the text after
/// the last `.`, unless that dot opens the name.
pub open spec fn extension_of(name: Seq<char>) -> Option<Seq<char>> {
    if exists|p: int| 0 < p < name.len() && name[p] == '.' {
        let p = choose|p: int|
            0 < p < name.len() && name[p] == '.' && forall|q: int| p < q < name.len() ==> name[q] != '.';
        Some(name.subrange(p + 1, name.len() as int))
    } else {
        None
    }
}

/// A document input: a name whose extension is `pdf` in any ASCII case.
pub open spec fn is_pdf(name: Seq<char>) -> bool {
    match extension_of(name) {
        Some(e) => e.len() == 3 && (e[0] == 'p' || e[0] == 'P') && (e[1] == 'd' || e[1] == 'D')
            && (e[2] == 'f' || e[2] == 'F'),
        None => false,
    }
}

pub fn is_pdf_name(name: &str) -> (r: bool)
    ensures
        r == is_pdf(name@),
{
    let s = chars_of(name);
    let mut p: usize = s.len();
    while p > 0 && s[p - 1] != '.'
        invariant
            p <= s.len(),
            forall|q: int| p <= q < s.len() ==> s@[q] != '.',
        decreases p,
    {
        p = p - 1;
    }
    if p <= 1 {
        assert(!(exists|d: int| 0 < d < s@.len() && s@[d] == '.')) by {
            if exists|d: int| 0 < d < s@.len() && s@[d] == '.' {
                let d = choose|d: int| 0 < d < s@.len() && s@[d] == '.';
                assert(d >= p);
            }
        }
        return false;
    }
    let dot: usize = p - 1;
    assert(0 < dot < s@.len() && s@[dot as int] == '.');
    let ghost c = choose|q: int|
        0 < q < s@.len() && s@[q] == '.' && forall|r: int| q < r < s@.len() ==> s@[r] != '.';
    assert(c == dot as int) by {
        if c < dot {
        } else if c > dot {
        }
    }
    let n = s.len() - p;
    n == 3 && (s[p] == 'p' || s[p] == 'P') && (s[p + 1] == 'd' || s[p + 1] == 'D') && (s[p + 2]
        == 'f' || s[p + 2] == 'F')
}

/// A stage of the pipeline for one document.
#[derive(Debug, Clone, Copy, PartialEq, Eq, Structural)]
pub enum Stage {
    Extract,
    Transcribe,
    Combine,
}

/// What the driver does next.
#[derive(Debug, Clone, Copy, PartialEq, Eq, Structural)]
pub enum Step {
    Run(Stage),
    /// This document is over; go on with the next one.
    NextDocument,
}

/// After a stage ends: a failed extraction or transcription abandons the
/// document; a merge ends it whatever its outcome, since a failed merge can
/// be run again from the files on disk.
pub fn next_step(stage: Stage, succeeded: bool) -> (r: Step)
    ensures
        r == match stage {
            Stage::Extract => if succeeded {
                Step::Run(Stage::Transcribe)
            } else {
                Step::NextDocument
            },
            Stage::Transcribe => if succeeded {
                Step::Run(Stage::Combine)
            } else {
                Step::NextDocument
            },
            Stage::Combine => Step::NextDocument,
        },
{
    match stage {
        Stage::Extract => if succeeded {
            Step::Run(Stage::Transcribe)
        } else {
            Step::NextDocument
        },
        Stage::Transcribe => if succeeded {
            Step::Run(Stage::Combine)
        } else {
            Step::NextDocument
        },
        Stage::Combine => Step::NextDocument,
    }
}

} // verus!
