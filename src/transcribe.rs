//! The transcription stage: which images to transcribe, where each transcript
//! goes, the request for each, and a run that bounds how many remote calls are
//! in flight and counts the failures.

use vstd::prelude::*;
use crate::combine::names_view;
use crate::reply::{interpret_reply, reply_outcome_ok, ItemError, Reply};
use crate::text::{chars_of, ends_with, has_prefix, has_suffix, push_str, starts_with, string_of, subvec};

verus! {

/// A page image to transcribe: a `.png` that is not an `._` metadata file.
pub open spec fn is_candidate(name: Seq<char>) -> bool {
    has_suffix(name, ".png"@) && !has_prefix(name, "._"@)
}

pub fn is_candidate_image(name: &str) -> (r: bool)
    ensures
        r == is_candidate(name@),
{
    let s = chars_of(name);
    ends_with(&s, ".png") && !starts_with(&s, "._")
}

/// Positions of the candidates among `names`, in listing order.
pub open spec fn candidates(names: Seq<Seq<char>>) -> Seq<usize>
    decreases names.len(),
{
    if names.len() == 0 {
        Seq::empty()
    } else if is_candidate(names.last()) {
        candidates(names.drop_last()).push((names.len() - 1) as usize)
    } else {
        candidates(names.drop_last())
    }
}

pub open spec fn limited(s: Seq<usize>, limit: Option<usize>) -> Seq<usize> {
    match limit {
        Some(l) => if l < s.len() {
            s.take(l as int)
        } else {
            s
        },
        None => s,
    }
}

/// The images to transcribe among the name-sorted listing `names`, as
/// positions in it: the candidates, at most `limit` of them.
pub fn select_images(names: &Vec<String>, limit: Option<usize>) -> (r: Vec<usize>)
    ensures
        r@ == limited(candidates(names_view(names@)), limit),
{
    let ghost nv = names_view(names@);
    let mut r: Vec<usize> = Vec::new();
    let mut i: usize = 0;
    while i < names.len()
        invariant
            i <= names.len(),
            nv == names_view(names@),
            r@ == candidates(nv.take(i as int)),
        decreases names.len() - i,
    {
        assert(nv.take(i + 1).drop_last() =~= nv.take(i as int));
        if is_candidate_image(names[i].as_str()) {
            r.push(i);
        }
        i = i + 1;
    }
    assert(nv.take(i as int) =~= nv);
    match limit {
        Some(l) => {
            if l < r.len() {
                r.truncate(l);
            }
        },
        None => {},
    }
    r
}

/// The file stem of an image name ending in `.png`, as `Path::file_stem` gives it.
pub open spec fn png_stem(name: Seq<char>) -> Seq<char> {
    if has_suffix(name, ".png"@) && name.len() > 4 {
        name.subrange(0, name.len() - 4)
    } else {
        name
    }
}

/// The transcript name of an image: its stem with `.md`.
pub fn transcript_name(image_name: &str) -> (r: String)
    ensures
        r@ == png_stem(image_name@) + ".md"@,
{
    let s = chars_of(image_name);
    let mut stem = if ends_with(&s, ".png") && s.len() > 4 {
        subvec(&s, 0, s.len() - 4)
    } else {
        subvec(&s, 0, s.len())
    };
    assert(s@.subrange(0, s.len() as int) =~= s@);
    push_str(&mut stem, ".md");
    string_of(&stem)
}

/// Where one page stands in a run.
#[derive(Debug, Clone, Copy, PartialEq, Eq, Structural)]
pub enum JobState {
    /// Waiting for a permit.
    Pending,
    /// Holds a permit; the remote call is under way.
    Requesting,
    /// Holds a permit; the transcript is being written and published.
    Committing,
    Done,
    Failed,
    /// Its transcript existed before the run.
    Skipped,
}

pub open spec fn holds_permit(s: JobState) -> bool {
    s == JobState::Requesting || s == JobState::Committing
}

/// How many of `s` hold a permit.
pub open spec fn permits_held(s: Seq<JobState>) -> nat
    decreases s.len(),
{
    if s.len() == 0 {
        0
    } else {
        permits_held(s.drop_last()) + if holds_permit(s.last()) {
            1nat
        } else {
            0nat
        }
    }
}

pub open spec fn failed_count(s: Seq<JobState>) -> nat
    decreases s.len(),
{
    if s.len() == 0 {
        0
    } else {
        failed_count(s.drop_last()) + if s.last() == JobState::Failed {
            1nat
        } else {
            0nat
        }
    }
}

pub open spec fn initial_states(present: Seq<bool>) -> Seq<JobState> {
    present.map_values(|b: bool|
        if b {
            JobState::Skipped
        } else {
            JobState::Pending
        })
}

proof fn lemma_counts_update(s: Seq<JobState>, i: int, v: JobState)
    requires
        0 <= i < s.len(),
    ensures
        permits_held(s.update(i, v)) + (if holds_permit(s[i]) {
            1nat
        } else {
            0nat
        }) == permits_held(s) + (if holds_permit(v) {
            1nat
        } else {
            0nat
        }),
        failed_count(s.update(i, v)) + (if s[i] == JobState::Failed {
            1nat
        } else {
            0nat
        }) == failed_count(s) + (if v == JobState::Failed {
            1nat
        } else {
            0nat
        }),
    decreases s.len(),
{
    if i < s.len() - 1 {
        lemma_counts_update(s.drop_last(), i, v);
        assert(s.update(i, v).drop_last() =~= s.drop_last().update(i, v));
    } else {
        assert(s.update(i, v).drop_last() =~= s.drop_last());
    }
}

proof fn lemma_counts_le_len(s: Seq<JobState>)
    ensures
        permits_held(s) <= s.len(),
        failed_count(s) <= s.len(),
    decreases s.len(),
{
    if s.len() > 0 {
        lemma_counts_le_len(s.drop_last());
    }
}

proof fn lemma_no_permits(s: Seq<JobState>)
    requires
        forall|i: int| 0 <= i < s.len() ==> !holds_permit(#[trigger] s[i]),
    ensures
        permits_held(s) == 0,
    decreases s.len(),
{
    if s.len() > 0 {
        lemma_no_permits(s.drop_last());
    }
}

/// One run of the stage over its selected images. A permit pool of size
/// `concurrency` gates the remote calls: a job takes a permit when it starts
/// and gives it back once it is done or has failed.
pub struct TranscriptionRun {
    states: Vec<JobState>,
    concurrency: usize,
    active: usize,
    failures: usize,
    next: usize,
}

impl TranscriptionRun {
    pub closed spec fn states(&self) -> Seq<JobState> {
        self.states@
    }

    pub closed spec fn concurrency(&self) -> nat {
        self.concurrency as nat
    }

    pub closed spec fn wf(&self) -> bool {
        &&& self.active as nat == permits_held(self.states@)
        &&& self.active <= self.concurrency
        &&& self.failures as nat == failed_count(self.states@)
        &&& self.next <= self.states.len()
        &&& forall|i: int| 0 <= i < self.next ==> self.states@[i] != JobState::Pending
    }

    /// A run over jobs whose transcripts are `present` or not; those present
    /// are skipped. With a concurrency of zero no job ever starts.
    pub fn new(present: &Vec<bool>, concurrency: usize) -> (r: Self)
        ensures
            r.wf(),
            r.states() == initial_states(present@),
            r.concurrency() == concurrency,
    {
        let mut states: Vec<JobState> = Vec::new();
        let mut i: usize = 0;
        while i < present.len()
            invariant
                i <= present.len(),
                states@ == initial_states(present@.take(i as int)),
            decreases present.len() - i,
        {
            states.push(
                if present[i] {
                    JobState::Skipped
                } else {
                    JobState::Pending
                },
            );
            assert(states@ =~= initial_states(present@.take(i + 1)));
            i = i + 1;
        }
        assert(present@.take(i as int) =~= present@);
        proof {
            lemma_no_permits(states@);
            assert(failed_count(states@) == 0) by {
                lemma_no_failures(states@);
            }
        }
        TranscriptionRun { states, concurrency, active: 0, failures: 0, next: 0 }
    }

    pub fn job_count(&self) -> (r: usize)
        ensures
            r == self.states().len(),
    {
        self.states.len()
    }

    pub fn state(&self, job: usize) -> (r: JobState)
        requires
            job < self.states().len(),
        ensures
            r == self.states()[job as int],
    {
        self.states[job]
    }

    /// Number of remote calls in flight, with their commits.
    pub fn in_flight(&self) -> (r: usize)
        requires
            self.wf(),
        ensures
            r as nat == permits_held(self.states()),
    {
        self.active
    }

    pub fn failures(&self) -> (r: usize)
        requires
            self.wf(),
        ensures
            r as nat == failed_count(self.states()),
    {
        self.failures
    }

    /// The first job still waiting, if a permit is free: it takes the permit
    /// and its remote call may begin.
    pub fn start_next(&mut self) -> (r: Option<usize>)
        requires
            old(self).wf(),
        ensures
            final(self).wf(),
            final(self).concurrency() == old(self).concurrency(),
            match r {
                Some(i) => {
                    &&& permits_held(old(self).states()) < old(self).concurrency()
                    &&& i < old(self).states().len()
                    &&& old(self).states()[i as int] == JobState::Pending
                    &&& forall|k: int| 0 <= k < i ==> old(self).states()[k] != JobState::Pending
                    &&& final(self).states() == old(self).states().update(i as int, JobState::Requesting)
                },
                None => {
                    &&& final(self).states() == old(self).states()
                    &&& (permits_held(old(self).states()) == old(self).concurrency() || forall|k: int|
                        0 <= k < old(self).states().len() ==> old(self).states()[k] != JobState::Pending)
                },
            },
    {
        if self.active >= self.concurrency {
            return None;
        }
        while self.next < self.states.len() && self.states[self.next] != JobState::Pending
            invariant
                self.wf(),
                self.states@ == old(self).states@,
                self.concurrency == old(self).concurrency,
                self.active < self.concurrency,
            decreases self.states.len() - self.next,
        {
            self.next = self.next + 1;
        }
        if self.next == self.states.len() {
            return None;
        }
        let i = self.next;
        proof {
            lemma_counts_update(self.states@, i as int, JobState::Requesting);
        }
        self.states.set(i, JobState::Requesting);
        self.active = self.active + 1;
        Some(i)
    }

    fn settle(&mut self, job: usize, to: JobState)
        requires
            old(self).wf(),
            job < old(self).states().len(),
            holds_permit(old(self).states()[job as int]),
            to == JobState::Done || to == JobState::Failed,
        ensures
            final(self).wf(),
            final(self).concurrency() == old(self).concurrency(),
            final(self).states() == old(self).states().update(job as int, to),
    {
        proof {
            lemma_counts_update(self.states@, job as int, to);
            lemma_counts_le_len(self.states@.update(job as int, to));
        }
        self.states.set(job, to);
        self.active = self.active - 1;
        if to == JobState::Failed {
            self.failures = self.failures + 1;
        }
    }

    /// A job that holds a permit failed before or outside its remote call
    /// (its image could not be read, the call could not be made, its transcript
    /// could not be written): it gives the permit back and counts as failed.
    pub fn fail(&mut self, job: usize)
        requires
            old(self).wf(),
            job < old(self).states().len(),
            holds_permit(old(self).states()[job as int]),
        ensures
            final(self).wf(),
            final(self).concurrency() == old(self).concurrency(),
            final(self).states() == old(self).states().update(job as int, JobState::Failed),
    {
        self.settle(job, JobState::Failed);
    }

    /// The reply to a job's remote call. With a transcript, the job goes on
    /// to its commit and the text is returned for it; otherwise the job fails
    /// and nothing is handed out to be written.
    pub fn receive(&mut self, job: usize, reply: Reply) -> (r: Result<String, ItemError>)
        requires
            old(self).wf(),
            job < old(self).states().len(),
            old(self).states()[job as int] == JobState::Requesting,
        ensures
            final(self).wf(),
            final(self).concurrency() == old(self).concurrency(),
            reply_outcome_ok(reply, r),
            r is Ok ==> final(self).states() == old(self).states().update(
                job as int,
                JobState::Committing,
            ),
            r is Err ==> final(self).states() == old(self).states().update(
                job as int,
                JobState::Failed,
            ),
    {
        let r = interpret_reply(reply);
        match r {
            Ok(_) => {
                proof {
                    lemma_counts_update(self.states@, job as int, JobState::Committing);
                }
                self.states.set(job, JobState::Committing);
            },
            Err(_) => {
                self.settle(job, JobState::Failed);
            },
        }
        r
    }

    /// The outcome of publishing a job's transcript.
    pub fn committed(&mut self, job: usize, ok: bool)
        requires
            old(self).wf(),
            job < old(self).states().len(),
            old(self).states()[job as int] == JobState::Committing,
        ensures
            final(self).wf(),
            final(self).concurrency() == old(self).concurrency(),
            final(self).states() == old(self).states().update(
                job as int,
                if ok {
                    JobState::Done
                } else {
                    JobState::Failed
                },
            ),
    {
        self.settle(
            job,
            if ok {
                JobState::Done
            } else {
                JobState::Failed
            },
        );
    }

    /// Whether no job waits and none holds a permit.
    pub fn is_finished(&self) -> (r: bool)
        requires
            self.wf(),
        ensures
            r == (permits_held(self.states()) == 0 && forall|k: int|
                0 <= k < self.states().len() ==> self.states()[k] != JobState::Pending),
    {
        if self.active > 0 {
            return false;
        }
        let mut k: usize = self.next;
        while k < self.states.len()
            invariant
                self.next <= k <= self.states.len(),
                forall|j: int| 0 <= j < k ==> self.states@[j] != JobState::Pending,
            decreases self.states.len() - k,
        {
            if self.states[k] == JobState::Pending {
                return false;
            }
            k = k + 1;
        }
        true
    }
}

proof fn lemma_no_failures(s: Seq<JobState>)
    requires
        forall|i: int| 0 <= i < s.len() ==> #[trigger] s[i] != JobState::Failed,
    ensures
        failed_count(s) == 0,
    decreases s.len(),
{
    if s.len() > 0 {
        lemma_no_failures(s.drop_last());
    }
}

} // verus!

verus! {

/// Concurrency bound: in every state of a run, the jobs holding a permit, and
/// with them the remote calls in flight, number at most the concurrency.
pub proof fn lemma_in_flight_bounded(run: &TranscriptionRun)
    requires
        run.wf(),
    ensures
        permits_held(run.states()) <= run.concurrency(),
{
}

proof fn lemma_zero_counts(s: Seq<JobState>)
    requires
        permits_held(s) == 0,
        failed_count(s) == 0,
    ensures
        forall|i: int|
            0 <= i < s.len() ==> !holds_permit(#[trigger] s[i]) && s[i] != JobState::Failed,
    decreases s.len(),
{
    if s.len() > 0 {
        lemma_zero_counts(s.drop_last());
        assert forall|i: int| 0 <= i < s.len() implies !holds_permit(#[trigger] s[i]) && s[i]
            != JobState::Failed by {
            if i < s.len() - 1 {
                assert(s[i] == s.drop_last()[i]);
            }
        }
    }
}

/// The transcripts present once a run is over: those it skipped or published.
pub open spec fn present_after(states: Seq<JobState>) -> Seq<bool> {
    states.map_values(|s: JobState| s == JobState::Done || s == JobState::Skipped)
}

/// Transcription is idempotent: after a finished run without failures, a run
/// over the same images finds every transcript present and has no job to
/// start, so it makes no remote call and writes nothing.
pub proof fn lemma_rerun_issues_no_calls(first: &TranscriptionRun, present: Seq<bool>)
    requires
        permits_held(first.states()) == 0,
        forall|k: int| 0 <= k < first.states().len() ==> first.states()[k] != JobState::Pending,
        failed_count(first.states()) == 0,
        present == present_after(first.states()),
    ensures
        forall|k: int|
            0 <= k < initial_states(present).len() ==> #[trigger] initial_states(present)[k]
                == JobState::Skipped,
{
    lemma_zero_counts(first.states());
    assert forall|k: int| 0 <= k < initial_states(present).len() implies #[trigger] initial_states(
        present,
    )[k] == JobState::Skipped by {
        assert(!holds_permit(first.states()[k]));
    }
}

/// The request for one page image.
pub struct TranscriptionRequest {
    pub model: String,
    pub instruction: String,
    /// The image as a `data:` URL holding its base64 text.
    pub image_url: String,
}

/// The standard base64 alphabet: `A`–`Z`, `a`–`z`, `0`–`9`, `+`, `/`.
pub open spec fn b64_digit(v: nat) -> char {
    if v < 26 {
        ((v + 65) as u32) as char
    } else if v < 52 {
        ((v + 71) as u32) as char
    } else if v < 62 {
        ((v - 4) as u32) as char
    } else if v == 62 {
        '+'
    } else {
        '/'
    }
}

/// Padded standard base64: each group of three bytes gives four digits of six
/// bits each; a last group of one or two bytes is padded with `=`.
pub open spec fn base64_of(b: Seq<u8>) -> Seq<char>
    decreases b.len(),
{
    if b.len() == 0 {
        Seq::empty()
    } else if b.len() == 1 {
        seq![b64_digit(b[0] as nat / 4), b64_digit((b[0] as nat % 4) * 16), '=', '=']
    } else if b.len() == 2 {
        seq![
            b64_digit(b[0] as nat / 4),
            b64_digit((b[0] as nat % 4) * 16 + b[1] as nat / 16),
            b64_digit((b[1] as nat % 16) * 4),
            '=',
        ]
    } else {
        seq![
            b64_digit(b[0] as nat / 4),
            b64_digit((b[0] as nat % 4) * 16 + b[1] as nat / 16),
            b64_digit((b[1] as nat % 16) * 4 + b[2] as nat / 64),
            b64_digit(b[2] as nat % 64),
        ] + base64_of(b.subrange(3, b.len() as int))
    }
}

/// Relies on base64's `general_purpose::STANDARD.encode`: the padded
/// standard-alphabet encoding; it panics only when the output length
/// overflows `usize`.
#[verifier::external_body]
fn base64_encode(b: &Vec<u8>) -> (r: String)
    requires
        b.len() < usize::MAX / 2,
    ensures
        r@ == base64_of(b@),
{
    base64::Engine::encode(&base64::engine::general_purpose::STANDARD, b)
}

/// The `data:` URL of a PNG image.
pub fn image_data_url(image: &Vec<u8>) -> (r: String)
    requires
        image.len() < usize::MAX / 2,
    ensures
        r@ == "data:image/png;base64,"@ + base64_of(image@),
{
    let mut out: Vec<char> = Vec::new();
    push_str(&mut out, "data:image/png;base64,");
    let b = base64_encode(image);
    push_str(&mut out, b.as_str());
    string_of(&out)
}

/// The fixed instruction sent with every page.
pub open spec fn instruction_text() -> Seq<char> {
    "Transcribe this page from Inside Macintosh. Output strictly formatted Markdown. Use headers, lists, and code blocks where appropriate. IMPORTANT: Transcribe ALL legible text, including page numbers, headers, footers, and captions. Do NOT wrap the entire output in a markdown block."@
}

pub fn instruction() -> (r: String)
    ensures
        r@ == instruction_text(),
{
    String::from_str(
        "Transcribe this page from Inside Macintosh. Output strictly formatted Markdown. Use headers, lists, and code blocks where appropriate. IMPORTANT: Transcribe ALL legible text, including page numbers, headers, footers, and captions. Do NOT wrap the entire output in a markdown block.",
    )
}

/// The single-turn request for one page: the model, the instruction, and the image.
pub fn build_request(model: &str, image: &Vec<u8>) -> (r: TranscriptionRequest)
    requires
        image.len() < usize::MAX / 2,
    ensures
        r.model@ == model@,
        r.instruction@ == instruction_text(),
        r.image_url@ == "data:image/png;base64,"@ + base64_of(image@),
{
    TranscriptionRequest {
        model: String::from_str(model),
        instruction: instruction(),
        image_url: image_data_url(image),
    }
}

} // verus!
