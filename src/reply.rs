//! What the remote transcription service sends back, and what the stage makes of it.

use vstd::prelude::*;
use crate::book::join_lines;
use crate::markdown::{lines, split_lines, views};
use crate::text::{chars_of, has_prefix, push_all, starts_with, string_of, subvec, trim, trim_chars, trim_end, trim_end_index};

verus! {

/// An error object in the service's reply.
pub struct ApiError {
    pub message: String,
    pub error_type: Option<String>,
}

pub struct ReplyMessage {
    pub content: Option<String>,
}

pub struct ReplyChoice {
    pub message: Option<ReplyMessage>,
}

/// The service's reply body.
pub struct ChatReply {
    pub choices: Option<Vec<ReplyChoice>>,
    pub error: Option<ApiError>,
}

/// The outcome of one remote call, as received.
pub enum Reply {
    /// A response with a non-success HTTP status, and its body.
    HttpFailure { body: String },
    /// A success status whose body could not be read as a reply.
    Unreadable { detail: String },
    Parsed(ChatReply),
}

/// Why one page could not be transcribed.
pub enum ItemError {
    Http { body: String },
    Unreadable { detail: String },
    Api { kind: String, message: String },
    NoContent,
}

/// A reply wrapped whole in one fenced block: once the text is trimmed, it has
/// at least two lines, the first opens with three backticks and the last is
/// exactly three backticks. Then the lines between the fences are kept, with
/// trailing whitespace trimmed; any other text is kept unchanged.
pub open spec fn strip_fence(t: Seq<char>) -> Seq<char> {
    let ls = lines(trim(t));
    if ls.len() >= 2 && has_prefix(ls[0], "```"@) && ls.last() == "```"@ {
        trim_end(join_lines(ls.subrange(1, ls.len() - 1)))
    } else {
        t
    }
}

fn is_fence(l: &Vec<char>) -> (r: bool)
    ensures
        r == (l@ == "```"@),
{
    proof {
        reveal_strlit("```");
    }
    let r = l.len() == 3 && l[0] == '`' && l[1] == '`' && l[2] == '`';
    if r {
        assert(l@ =~= "```"@);
    }
    r
}

/// Removes a code fence that wraps the whole reply.
pub fn strip_code_fence(text: &str) -> (r: String)
    ensures
        r@ == strip_fence(text@),
{
    let t = chars_of(text);
    let trimmed = trim_chars(&t);
    let ls = split_lines(&trimmed);
    let ghost lv = views(ls@);
    if !(ls.len() >= 2 && starts_with(&ls[0], "```") && is_fence(&ls[ls.len() - 1])) {
        proof {
            if lv.len() >= 2 {
                assert(lv[0] == ls@[0]@);
                assert(lv.last() == ls@[ls.len() - 1]@);
            }
        }
        return string_of(&t);
    }
    assert(lv[0] == ls@[0]@);
    assert(lv.last() == ls@[ls.len() - 1]@);
    let last: usize = ls.len() - 1;
    let mut out: Vec<char> = Vec::new();
    let mut i: usize = 1;
    while i < last
        invariant
            1 <= i <= last,
            last == ls.len() - 1,
            lv == views(ls@),
            out@ == join_lines(lv.subrange(1, i as int)),
        decreases last - i,
    {
        let ghost before = out@;
        if i > 1 {
            out.push('\n');
        }
        push_all(&mut out, &ls[i]);
        assert(lv.subrange(1, i + 1).drop_last() =~= lv.subrange(1, i as int));
        assert(lv.subrange(1, i + 1).last() == ls@[i as int]@);
        proof {
            reveal_strlit("\n");
        }
        assert(out@ =~= join_lines(lv.subrange(1, i + 1)));
        i = i + 1;
    }
    let e = trim_end_index(&out, 0);
    assert(out@.subrange(0, out.len() as int) =~= out@);
    string_of(&subvec(&out, 0, e))
}

/// The content of the first choice's message, when there is one.
pub open spec fn reply_content(c: ChatReply) -> Option<String> {
    match c.choices {
        Some(v) => if v.len() > 0 {
            match v[0].message {
                Some(m) => m.content,
                None => None,
            }
        } else {
            None
        },
        None => None,
    }
}

/// What a reply yields: the transcript text, or why there is none. An error
/// object wins over any content.
pub open spec fn reply_outcome_ok(reply: Reply, r: Result<String, ItemError>) -> bool {
    match reply {
        Reply::HttpFailure { body } => r == Err::<String, ItemError>(ItemError::Http { body }),
        Reply::Unreadable { detail } => r == Err::<String, ItemError>(ItemError::Unreadable { detail }),
        Reply::Parsed(c) => match c.error {
            Some(e) => r is Err && r->Err_0 is Api && r->Err_0->message == e.message && match e.error_type {
                Some(k) => r->Err_0->kind == k,
                None => r->Err_0->kind@ == "unknown"@,
            },
            None => match reply_content(c) {
                Some(s) => r is Ok && r->Ok_0@ == strip_fence(s@),
                None => r == Err::<String, ItemError>(ItemError::NoContent),
            },
        },
    }
}

/// Interprets one reply of the transcription service.
pub fn interpret_reply(reply: Reply) -> (r: Result<String, ItemError>)
    ensures
        reply_outcome_ok(reply, r),
{
    match reply {
        Reply::HttpFailure { body } => Err(ItemError::Http { body }),
        Reply::Unreadable { detail } => Err(ItemError::Unreadable { detail }),
        Reply::Parsed(c) => {
            let ghost c0 = c;
            match c.error {
                Some(e) => {
                    let kind = match e.error_type {
                        Some(k) => k,
                        None => String::from_str("unknown"),
                    };
                    Err(ItemError::Api { kind, message: e.message })
                },
                None => {
                    let content = match c.choices {
                        Some(mut v) => {
                            if v.len() > 0 {
                                match v.remove(0).message {
                                    Some(m) => m.content,
                                    None => None,
                                }
                            } else {
                                None
                            }
                        },
                        None => None,
                    };
                    assert(content == reply_content(c0));
                    match content {
                        Some(s) => Ok(strip_code_fence(s.as_str())),
                        None => Err(ItemError::NoContent),
                    }
                },
            }
        },
    }
}

} // verus!
