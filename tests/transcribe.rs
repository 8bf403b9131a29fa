use pdf2md::reply::{interpret_reply, strip_code_fence, ApiError, ChatReply, ItemError, Reply, ReplyChoice, ReplyMessage};
use pdf2md::transcribe::{build_request, is_candidate_image, select_images, transcript_name, JobState, TranscriptionRun};

fn names(v: &[&str]) -> Vec<String> {
    v.iter().map(|s| s.to_string()).collect()
}

fn content_reply(text: &str) -> Reply {
    Reply::Parsed(ChatReply {
        choices: Some(vec![ReplyChoice { message: Some(ReplyMessage { content: Some(text.to_string()) }) }]),
        error: None,
    })
}

#[test]
fn candidates_are_png_without_metadata_prefix() {
    assert!(is_candidate_image("page_0001.png"));
    assert!(!is_candidate_image("._page_0001.png"));
    assert!(!is_candidate_image("page_0001.jpg"));
    let listing = names(&["._page_0001.png", "page_0001.png", "notes.txt", "page_0002.png", "page_0003.png"]);
    assert_eq!(select_images(&listing, None), vec![1, 3, 4]);
    assert_eq!(select_images(&listing, Some(2)), vec![1, 3]);
    assert_eq!(select_images(&listing, Some(0)), Vec::<usize>::new());
}

#[test]
fn transcript_takes_the_image_stem() {
    assert_eq!(transcript_name("page_0007.png"), "page_0007.md");
    assert_eq!(transcript_name(".png"), ".png.md");
}

#[test]
fn wrapping_fence_is_stripped() {
    assert_eq!(strip_code_fence("```markdown\n# Title\nText\n```"), "# Title\nText");
    assert_eq!(strip_code_fence("  ```\nbody\n\n```\n"), "body");
    assert_eq!(strip_code_fence("plain ```x```"), "plain ```x```");
    assert_eq!(strip_code_fence("```only"), "```only");
    assert_eq!(strip_code_fence("```x"), "```x");
    assert_eq!(strip_code_fence("```\ncode\n```\nmore"), "```\ncode\n```\nmore");
    assert_eq!(strip_code_fence("```\n```"), "");
    assert_eq!(strip_code_fence("```md\r\nline  \r\n```"), "line");
}

#[test]
fn reply_outcomes() {
    assert_eq!(interpret_reply(content_reply("```\nhi\n```")).ok(), Some("hi".to_string()));
    match interpret_reply(Reply::HttpFailure { body: "bad".to_string() }) {
        Err(ItemError::Http { body }) => assert_eq!(body, "bad"),
        _ => panic!("expected an HTTP failure"),
    }
    let api = Reply::Parsed(ChatReply {
        choices: None,
        error: Some(ApiError { message: "quota".to_string(), error_type: None }),
    });
    match interpret_reply(api) {
        Err(ItemError::Api { kind, message }) => {
            assert_eq!(kind, "unknown");
            assert_eq!(message, "quota");
        }
        _ => panic!("expected an API error"),
    }
    let empty = Reply::Parsed(ChatReply { choices: Some(vec![]), error: None });
    assert!(matches!(interpret_reply(empty), Err(ItemError::NoContent)));
    let unreadable = Reply::Unreadable { detail: "eof".to_string() };
    assert!(matches!(interpret_reply(unreadable), Err(ItemError::Unreadable { .. })));
}

#[test]
fn request_carries_model_and_image() {
    let r = build_request("some/model", &vec![1u8, 2, 3, 4]);
    assert_eq!(r.model, "some/model");
    assert_eq!(r.image_url, "data:image/png;base64,AQIDBA==");
    assert!(r.instruction.starts_with("Transcribe this page"));
}

#[test]
fn at_most_concurrency_calls_in_flight() {
    let mut run = TranscriptionRun::new(&vec![false; 10], 2);
    let mut started = Vec::new();
    let mut max_seen = 0;
    loop {
        while let Some(j) = run.start_next() {
            started.push(j);
            max_seen = max_seen.max(run.in_flight());
        }
        assert!(run.in_flight() <= 2);
        let busy: Vec<usize> = (0..run.job_count()).filter(|&j| run.state(j) == JobState::Requesting).collect();
        if busy.is_empty() {
            break;
        }
        let j = busy[0];
        assert!(run.receive(j, content_reply("text")).is_ok());
        run.committed(j, true);
    }
    assert_eq!(max_seen, 2);
    assert_eq!(started, (0..10).collect::<Vec<_>>());
    assert!(run.is_finished());
    assert_eq!(run.failures(), 0);
}

#[test]
fn second_run_makes_no_calls() {
    let mut first = TranscriptionRun::new(&vec![false, true, false], 5);
    while let Some(j) = first.start_next() {
        assert!(first.receive(j, content_reply("x")).is_ok());
        first.committed(j, true);
    }
    assert!(first.is_finished());
    let present: Vec<bool> = (0..first.job_count())
        .map(|j| matches!(first.state(j), JobState::Done | JobState::Skipped))
        .collect();
    let mut second = TranscriptionRun::new(&present, 5);
    assert_eq!(second.start_next(), None);
    assert!(second.is_finished());
}

#[test]
fn failed_call_publishes_nothing() {
    let mut run = TranscriptionRun::new(&vec![false, false], 2);
    let a = run.start_next().unwrap();
    let b = run.start_next().unwrap();
    assert!(run.receive(a, Reply::HttpFailure { body: "timeout".to_string() }).is_err());
    assert_eq!(run.state(a), JobState::Failed);
    assert_eq!(run.in_flight(), 1);
    run.fail(b);
    assert_eq!(run.failures(), 2);
    assert!(run.is_finished());
}
