//! What is read of a PDF and of an image before they are shown.

use cce_preview::document::{
    read_page_count, read_page_lines, Document, Kind, PageSize, Scalar,
};
use cce_preview::path::FilePath;
use cce_preview::pdfinfo::{
    page_count, page_entries, read_pages, size_arguments, PageEntry, PageLine,
};
use cce_preview::tool::{read_output, ToolOutput};

fn scalar(x: f64) -> Scalar {
    Scalar { bits: x.to_bits() }
}

fn size(w: f64, h: f64) -> PageSize {
    PageSize { w: scalar(w), h: scalar(h) }
}

fn path(s: &str) -> FilePath {
    FilePath { bytes: s.as_bytes().to_vec() }
}

fn ran(success: bool, stdout: &[u8], stderr: &[u8]) -> Result<ToolOutput, String> {
    Ok(ToolOutput { success, stdout: stdout.to_vec(), stderr: stderr.to_vec() })
}

fn number(word: &Option<String>) -> Option<Scalar> {
    word.as_ref().and_then(|w| w.parse::<f64>().ok()).map(scalar)
}

fn entries(text: &str) -> Vec<PageEntry> {
    let lines = read_pages(text);
    let numbers = lines
        .iter()
        .map(|line| match line {
            PageLine::Size { w, h } => (number(w), number(h)),
            PageLine::Rotation(_) => (None, None),
        })
        .collect();
    page_entries(&lines, &numbers)
}

fn pdf(count: usize, text: &str) -> Result<Vec<PageSize>, String> {
    Document::load_pdf(&path("a.pdf"), count, &entries(text)).map(|d| {
        assert_eq!(d.kind, Kind::Pdf);
        assert_eq!(d.path.bytes, b"a.pdf");
        d.pages
    })
}

#[test]
fn the_page_count_is_read() {
    assert_eq!(page_count("Title: x\nPages:          12\nPages: 3\n"), Ok(12));
    assert_eq!(page_count("Pages:+7\r\n"), Ok(7));
}

#[test]
fn a_missing_page_count_is_an_error() {
    let missing = Err("pdfinfo: no page count".to_string());
    assert_eq!(page_count(""), missing);
    assert_eq!(page_count(" Pages: 3\npages: 3"), missing);
    assert_eq!(page_count("Pages: many\nPages: 3"), missing);
    assert_eq!(page_count("Pages: -1"), missing);
    assert_eq!(page_count("Pages: 99999999999999999999999"), missing);
}

#[test]
fn a_pdf_without_pages_is_an_error() {
    assert_eq!(page_count("Pages: 0\n"), Err("empty PDF".to_string()));
}

#[test]
fn a_run_tells_the_page_count() {
    assert_eq!(read_page_count(ran(true, b"Pages: 2\n", b"")), Ok(2));
    assert_eq!(
        read_page_count(ran(false, b"Pages: 2\n", b"  Syntax Error \n")),
        Err("pdfinfo: Syntax Error".to_string())
    );
    assert_eq!(
        read_page_count(Err("not found".to_string())),
        Err("pdfinfo: not found".to_string())
    );
    assert_eq!(read_page_count(ran(true, b"", b"")), Err("pdfinfo: no page count".to_string()));
    assert_eq!(read_page_count(ran(true, b"Pages: 0", b"")), Err("empty PDF".to_string()));
}

#[test]
fn output_that_is_no_text_is_read_as_far_as_it_is() {
    assert_eq!(read_output("tool", ran(true, &[0xff, b'a'], b"")), Ok("\u{fffd}a".to_string()));
    assert_eq!(
        read_output("tool", ran(false, b"", &[b' ', 0xc3, b'\n'])),
        Err("tool: \u{fffd}".to_string())
    );
}

#[test]
fn a_run_tells_of_the_pages() {
    let lines = read_page_lines(ran(
        true,
        b"Page    1 size:  595.276 x 841.89 pts (A4)\nPage    1 rot:   90\nother\n",
        b"",
    ))
    .unwrap_or_else(|e| panic!("{}", e));
    assert_eq!(lines.len(), 2);
    assert!(matches!(&lines[0], PageLine::Size { w: Some(w), h: Some(h) }
        if w == "595.276" && h == "841.89"));
    assert!(matches!(&lines[1], PageLine::Rotation(90)));
    assert!(matches!(read_page_lines(ran(false, b"", b"no")), Err(e) if e == "pdfinfo: no"));
}

#[test]
fn all_pages_are_asked_for() {
    assert_eq!(size_arguments(120), ["-f", "1", "-l", "120"]);
}

#[test]
fn page_sizes_are_read() {
    assert_eq!(
        pdf(2, "Page    1 size: 595.276 x 841.89 pts (A4)\nPage    2 size: 612 x 792 pts\n"),
        Ok(vec![size(595.276, 841.89), size(612.0, 792.0)])
    );
}

#[test]
fn pages_on_their_side_trade_width_for_height() {
    let text = "Page 1 size: 1 x 2 pts\nPage 1 rot: 90\n\
                Page 2 size: 3 x 4 pts\nPage 2 rot: 180\n\
                Page 3 size: 5 x 6 pts\nPage 3 rot: 270\n\
                Page 4 size: 7 x 8 pts\nPage 4 rot: -90\n\
                Page 5 size: 9 x 10 pts\n";
    assert_eq!(
        pdf(5, text),
        Ok(vec![size(2.0, 1.0), size(3.0, 4.0), size(6.0, 5.0), size(7.0, 8.0), size(9.0, 10.0)])
    );
}

#[test]
fn an_unreadable_rotation_is_none() {
    assert_eq!(
        pdf(1, "Page 1 size: 1 x 2 pts\nPage 1 rot: ninety\n"),
        Ok(vec![size(1.0, 2.0)])
    );
}

#[test]
fn an_unreadable_size_is_an_error() {
    let bad = Err("pdfinfo: bad size".to_string());
    assert_eq!(pdf(1, "Page 1 size: wide x 2 pts\n"), bad);
    assert_eq!(pdf(1, "Page 1 size: 1 x\n"), bad);
    assert_eq!(pdf(1, "Page 1 size:\n"), bad);
    assert_eq!(pdf(5, "Page 1 size: 1 x 2\nPage 2 size: 1 by tall\n"), bad);
}

#[test]
fn another_number_of_sizes_is_an_error() {
    assert_eq!(
        pdf(10, "Page 1 size: 1 x 2\nPage 2 size: 1 x 2\n"),
        Err("pdfinfo: 2 sizes for 10 pages".to_string())
    );
    assert_eq!(pdf(1, ""), Err("pdfinfo: 0 sizes for 1 pages".to_string()));
}

#[test]
fn lines_take_their_own_numbers() {
    let lines = read_pages("Page 1 size: 1 x 2\nPage 1 rot: 90\nPage 2 size: 3 x\n");
    let (one, two, three) = (scalar(1.0), scalar(2.0), scalar(3.0));
    let numbers = vec![(Some(one), Some(two)), (Some(two), None), (Some(three), None)];
    assert_eq!(
        page_entries(&lines, &numbers),
        [PageEntry::Size(Some(size(1.0, 2.0))), PageEntry::Rotation(90), PageEntry::Size(None)]
    );
    assert_eq!(
        lines[0].with_numbers(Some(two), Some(one)),
        PageEntry::Size(Some(size(2.0, 1.0)))
    );
    assert_eq!(lines[0].with_numbers(None, Some(one)), PageEntry::Size(None));
}

#[test]
fn lines_of_another_form_tell_nothing() {
    assert_eq!(read_pages("Page size: 1 x 2\n Page 1 size: 1 x 2\nPage 1\nPages: 3\n").len(), 0);
    assert_eq!(read_pages("Page 1  size: 1 x 2\nPage x rot:1\nPage 1 MediaBox: 0 0\n").len(), 2);
}

#[test]
fn an_image_is_one_page() {
    let d = Document::load_image(&path("a.png"), Ok(size(640.0, 480.0)))
        .unwrap_or_else(|e| panic!("{}", e));
    assert_eq!(d.kind, Kind::Image);
    assert_eq!(d.path.bytes, b"a.png");
    assert_eq!(d.pages, [size(640.0, 480.0)]);
    let refused = Document::load_image(&path("a.png"), Err("no such file".to_string()));
    assert!(matches!(refused, Err(e) if e == "no such file"));
}

#[test]
fn odd_turns_lay_a_page_on_its_side() {
    let p = size(3.0, 4.0);
    for turns in 0..8u8 {
        let expected = if turns % 2 == 1 { size(4.0, 3.0) } else { p };
        assert_eq!(p.rotated(turns), expected);
    }
}
