use pdf2md::book::build_book;
use pdf2md::combine::{count_page_images, order_transcripts, plan_combine, CombineError};
use pdf2md::markdown::strip_links_chars;
use pdf2md::naming::{page_image_name, parse_page_number};
use pdf2md::text::chars_of;

fn names(v: &[&str]) -> Vec<String> {
    v.iter().map(|s| s.to_string()).collect()
}

fn strip(s: &str) -> String {
    strip_links_chars(&chars_of(s)).into_iter().collect()
}

#[test]
fn page_numbers_parse_from_transcript_names() {
    assert_eq!(parse_page_number("page_0001.md"), Some(1));
    assert_eq!(parse_page_number("page_12.md"), Some(12));
    assert_eq!(parse_page_number("page_+7.md"), Some(7));
    assert_eq!(parse_page_number("page_.md"), None);
    assert_eq!(parse_page_number("page_x1.md"), None);
    assert_eq!(parse_page_number("page_-1.md"), None);
    assert_eq!(parse_page_number("page_0001.png"), None);
    assert_eq!(parse_page_number("chapter_0001.md"), None);
    assert_eq!(parse_page_number("page_99999999999999999999999.md"), None);
    assert_eq!(parse_page_number("page_18446744073709551615.md"), Some(usize::MAX));
}

#[test]
fn page_image_names_are_padded_and_one_based() {
    assert_eq!(page_image_name(0), "page_0001.png");
    assert_eq!(page_image_name(41), "page_0042.png");
    assert_eq!(page_image_name(12344), "page_12345.png");
}

#[test]
fn image_links_into_img_are_removed() {
    assert_eq!(strip("Intro ![alt](images/img/foo.png) outro"), "Intro  outro");
    assert_eq!(strip("a![x](img/1.png)b![y](img/2.png)c"), "abc");
}

#[test]
fn other_links_are_kept() {
    assert_eq!(strip("![alt](pics/foo.png)"), "![alt](pics/foo.png)");
    assert_eq!(strip("![al\nt](img/foo.png)"), "![al\nt](img/foo.png)");
    assert_eq!(strip("![alt](img/foo.png"), "![alt](img/foo.png");
    assert_eq!(strip("[alt](img/foo.png)"), "[alt](img/foo.png)");
}

#[test]
fn transcripts_sort_by_page_number() {
    let listing = names(&["page_0010.md", "notes.txt", "page_0002.md", "page_0001.md", "page_x.md"]);
    let order = order_transcripts(&listing);
    assert_eq!(order, vec![(1, 3), (2, 2), (10, 0)]);
}

#[test]
fn listing_order_does_not_change_page_order() {
    let a = names(&["page_0003.md", "page_0001.md", "page_0002.md"]);
    let b = names(&["page_0002.md", "page_0003.md", "page_0001.md"]);
    let pa: Vec<usize> = order_transcripts(&a).iter().map(|p| p.0).collect();
    let pb: Vec<usize> = order_transcripts(&b).iter().map(|p| p.0).collect();
    assert_eq!(pa, vec![1, 2, 3]);
    assert_eq!(pa, pb);
}

#[test]
fn image_count_only_counts_page_images() {
    let listing = names(&["page_0001.png", "page_0002.png", "cover.png", "page_0003.jpg"]);
    assert_eq!(count_page_images(&listing), 2);
}

#[test]
fn mismatch_names_both_counts() {
    let transcripts: Vec<String> = (1..=9).map(|i| format!("page_{:04}.md", i)).collect();
    let images: Vec<String> = (1..=10).map(|i| format!("page_{:04}.png", i)).collect();
    let r = plan_combine(&transcripts, Some(&images));
    assert_eq!(r, Err(CombineError::PageCountMismatch { transcripts: 9, images: 10 }));
}

#[test]
fn matching_counts_pass_validation() {
    let transcripts = names(&["page_0002.md", "page_0001.md"]);
    let images = names(&["page_0001.png", "page_0002.png"]);
    assert_eq!(plan_combine(&transcripts, Some(&images)), Ok(vec![(1, 1), (2, 0)]));
    assert_eq!(plan_combine(&transcripts, None), Ok(vec![(1, 1), (2, 0)]));
}

#[test]
fn book_layout_is_exact() {
    let pages = vec![(1usize, "  # Intro\nHello ![p](img/a.png) world\n\n".to_string())];
    let doc = build_book("my_book", &pages);
    assert_eq!(
        doc,
        "# my book\n\n## Table of Contents\n\n- [Intro](intro) *(Page 1)*\n\n---\n\n\n<a id='page_1'></a>\n# Intro\nHello  world\n\n---\n\n"
    );
}

#[test]
fn repeated_titles_get_distinct_slugs() {
    let pages = vec![
        (1usize, "# Overview\ntext".to_string()),
        (2usize, "# Overview\nmore".to_string()),
    ];
    let doc = build_book("b", &pages);
    assert!(doc.contains("- [Overview](overview) *(Page 1)*\n- [Overview](overview-1) *(Page 2)*"));
}

#[test]
fn suffix_like_titles_stay_unique() {
    let pages = vec![
        (1usize, "# Overview".to_string()),
        (2usize, "# Overview\n# Overview 1\n# Overview".to_string()),
    ];
    let doc = build_book("b", &pages);
    assert!(doc.contains(
        "- [Overview](overview) *(Page 1)*\n- [Overview](overview-1) *(Page 2)*\n- [Overview 1](overview-1-1) *(Page 2)*\n- [Overview](overview-2) *(Page 2)*\n"
    ));
}

#[test]
fn nested_headers_are_indented_and_slugged() {
    let pages = vec![(3usize, "## Memory Manager: Basics!\n###   Deep   \n#NoSpace\n####".to_string())];
    let doc = build_book("b", &pages);
    assert!(doc.contains("\n  - [Memory Manager: Basics!](memory-manager-basics) *(Page 3)*\n    - [Deep](deep) *(Page 3)*\n\n---"));
    assert!(!doc.contains("[NoSpace]"));
}

#[test]
fn anchors_follow_page_order() {
    let pages = vec![(1usize, "a".to_string()), (2usize, "b".to_string()), (10usize, "c".to_string())];
    let doc = build_book("b", &pages);
    let first = doc.find("<a id='page_1'></a>").unwrap();
    let second = doc.find("<a id='page_2'></a>").unwrap();
    let tenth = doc.find("<a id='page_10'></a>").unwrap();
    assert!(first < second && second < tenth);
}

#[test]
fn empty_book_has_empty_contents() {
    let doc = build_book("x", &Vec::new());
    assert_eq!(doc, "# x\n\n## Table of Contents\n\n\n\n---\n\n");
}
