use pdf2md::extract::{extraction_plan, pages_to_extract};
use pdf2md::naming::page_image_name;
use pdf2md::pipeline::{is_pdf_name, next_step, Stage, Step};

#[test]
fn page_limit_caps_the_count() {
    assert_eq!(pages_to_extract(10, Some(3)), 3);
    assert_eq!(pages_to_extract(10, Some(30)), 10);
    assert_eq!(pages_to_extract(10, None), 10);
}

#[test]
fn existing_images_are_skipped() {
    let existing = vec!["page_0002.png".to_string(), "other.png".to_string()];
    assert_eq!(extraction_plan(4, &existing), vec![0, 2, 3]);
}

#[test]
fn second_extraction_renders_nothing() {
    let mut existing: Vec<String> = vec!["page_0003.png".to_string()];
    let plan = extraction_plan(5, &existing);
    assert_eq!(plan, vec![0, 1, 3, 4]);
    for i in plan {
        existing.push(page_image_name(i));
    }
    assert!(extraction_plan(5, &existing).is_empty());
}

#[test]
fn pdf_inputs_are_recognised() {
    assert!(is_pdf_name("book.pdf"));
    assert!(is_pdf_name("Book.PDF"));
    assert!(is_pdf_name("a.b.Pdf"));
    assert!(!is_pdf_name(".pdf"));
    assert!(!is_pdf_name("book.pdfx"));
    assert!(!is_pdf_name("book"));
}

#[test]
fn stage_failures_move_to_the_next_document() {
    assert_eq!(next_step(Stage::Extract, true), Step::Run(Stage::Transcribe));
    assert_eq!(next_step(Stage::Extract, false), Step::NextDocument);
    assert_eq!(next_step(Stage::Transcribe, true), Step::Run(Stage::Combine));
    assert_eq!(next_step(Stage::Transcribe, false), Step::NextDocument);
    assert_eq!(next_step(Stage::Combine, false), Step::NextDocument);
}
