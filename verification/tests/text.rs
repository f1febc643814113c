use pdf_merge::filenames::{compressed_name, has_pdf_extension, output_name, with_pdf_extension};
use pdf_merge::label::{decimal_text, label};

#[test]
fn numbers_are_written_in_decimal() {
    assert_eq!(decimal_text(0), "0");
    assert_eq!(decimal_text(7), "7");
    assert_eq!(decimal_text(9), "9");
    assert_eq!(decimal_text(10), "10");
    assert_eq!(decimal_text(109), "109");
    assert_eq!(decimal_text(1234567890), "1234567890");
    assert_eq!(decimal_text(usize::MAX), usize::MAX.to_string());
}

#[test]
fn bookmarks_are_titled_by_their_rank() {
    assert_eq!(label(1), "Page_1");
    assert_eq!(label(2), "Page_2");
    assert_eq!(label(10), "Page_10");
    assert_eq!(label(321), "Page_321");
}

#[test]
fn an_ending_is_told_by_the_last_four_characters() {
    assert!(has_pdf_extension("report.pdf"));
    assert!(has_pdf_extension(".pdf"));
    assert!(has_pdf_extension("a.pdf.pdf"));
    assert!(!has_pdf_extension("report"));
    assert!(!has_pdf_extension("pdf"));
    assert!(!has_pdf_extension(""));
    assert!(!has_pdf_extension("report.PDF"));
    assert!(!has_pdf_extension("report.pdf "));
    assert!(!has_pdf_extension("reportpdf"));
    assert!(!has_pdf_extension("report.pd"));
}

#[test]
fn a_name_gets_its_ending_once() {
    assert_eq!(with_pdf_extension("report"), "report.pdf");
    assert_eq!(with_pdf_extension("report.pdf"), "report.pdf");
    assert_eq!(with_pdf_extension(""), ".pdf");
    assert_eq!(with_pdf_extension("dir/report.txt"), "dir/report.txt.pdf");
    assert_eq!(with_pdf_extension("pdf"), "pdf.pdf");
}

#[test]
fn names_in_other_scripts_are_handled_by_character() {
    assert!(has_pdf_extension("b\u{00fc}cher.pdf"));
    assert!(!has_pdf_extension("\u{6587}\u{66f8}"));
    assert_eq!(with_pdf_extension("\u{6587}\u{66f8}"), "\u{6587}\u{66f8}.pdf");
    assert_eq!(compressed_name("b\u{00fc}cher.pdf"), "b\u{00fc}cher_compressed.pdf");
    assert_eq!(compressed_name("\u{6587}\u{66f8}"), "\u{6587}\u{66f8}_compressed.pdf");
}

#[test]
fn a_compressed_copy_is_named_after_its_source() {
    assert_eq!(compressed_name("report.pdf"), "report_compressed.pdf");
    assert_eq!(compressed_name("report"), "report_compressed.pdf");
    assert_eq!(compressed_name(".pdf"), "_compressed.pdf");
    assert_eq!(compressed_name("a.b.pdf"), "a.b_compressed.pdf");
}

#[test]
fn the_output_is_named_as_asked_or_by_default() {
    assert_eq!(output_name(None), "output.pdf");
    assert_eq!(output_name(Some("merged")), "merged.pdf");
    assert_eq!(output_name(Some("merged.pdf")), "merged.pdf");
}
