//! Paths and the files that are browsed, held against the standard library.

use cce_preview::collection::{collection_for, sort};
use cce_preview::document::{Document, Kind};
use cce_preview::path::{FilePath, DOCUMENT_EXTS, IMAGE_EXTS};

use std::path::{Path, PathBuf};

const PATHS: [&str; 34] = [
    "",
    ".",
    "..",
    "/",
    "//",
    "a",
    "a/",
    "a/.",
    "a/..",
    "./a",
    "/a",
    "a.png",
    "a.PNG",
    ".png",
    "..png",
    "a.",
    "a.b.c",
    "/x/y.jpg",
    "/x//y.jpg",
    "/x/./y.jpg",
    "/x/../y.jpg",
    "x/y.jpg/",
    "x/y.tiff/.",
    "x/.hidden",
    "x/.hidden.ico",
    "é.webp",
    "日本.pdf",
    "b.Pdf",
    "a b.gif",
    "a-b",
    "a/b",
    "./",
    "./.",
    "a.png/b",
];

fn path(s: &str) -> FilePath {
    FilePath { bytes: s.as_bytes().to_vec() }
}

fn listing(names: &[&str]) -> Vec<FilePath> {
    names.iter().map(|n| path(n)).collect()
}

fn names(files: &Vec<FilePath>) -> Vec<String> {
    files.iter().map(|f| f.display()).collect()
}

#[test]
fn file_names_and_extensions_are_those_of_the_standard_library() {
    for s in PATHS {
        let p = Path::new(s);
        assert_eq!(
            path(s).file_name(),
            p.file_name().map(|n| n.as_encoded_bytes().to_vec()),
            "{}",
            s
        );
        assert_eq!(
            path(s).extension(),
            p.extension().map(|n| n.as_encoded_bytes().to_vec()),
            "{}",
            s
        );
    }
}

#[test]
fn paths_have_the_steps_of_the_standard_library() {
    for s in PATHS {
        assert_eq!(path(s).steps().len(), Path::new(s).components().count(), "{}", s);
    }
}

#[test]
fn paths_are_shown_as_text() {
    assert_eq!(path("/x/é.png").display(), "/x/é.png");
    assert_eq!(FilePath { bytes: vec![97, 0xff, 98, 0xe2, 0x82] }.display(), "a\u{fffd}b\u{fffd}");
}

#[test]
fn sorting_orders_as_the_standard_library_does() {
    let sorted = sort(listing(&PATHS));
    let mut expected: Vec<PathBuf> = PATHS.iter().map(PathBuf::from).collect();
    expected.sort();
    let expected: Vec<String> =
        expected.iter().map(|p| p.to_str().unwrap().to_string()).collect();
    assert_eq!(names(&sorted), expected);
}

#[test]
fn sorting_keeps_the_order_of_equal_paths() {
    let sorted = sort(listing(&["b", "x//a", "a", "x/a", "x/./a"]));
    assert_eq!(names(&sorted), ["a", "b", "x//a", "x/a", "x/./a"]);
}

#[test]
fn extensions_tell_images_and_pdfs_apart() {
    for ext in IMAGE_EXTS {
        let p = path(&format!("dir.d/file.{}", ext.to_ascii_uppercase()));
        assert!(p.is_image());
        assert!(!p.is_pdf());
        assert_eq!(Document::load(&p), Ok(Kind::Image));
    }
    assert_eq!(Document::load(&path("x.PdF")), Ok(Kind::Pdf));
    assert!(path("x.PdF").is_pdf());
    assert!(!path("x.pdf").is_image());
}

#[test]
fn other_files_are_refused() {
    for s in ["", "png", ".png", "x.txt", "x.pn", "x.pngg", "x.png/", "x.png/..", "x.p\u{2170}g"] {
        let expected = if s == "x.png/" { Ok(Kind::Image) } else { Err("unsupported file type".to_string()) };
        assert_eq!(Document::load(&path(s)), expected, "{}", s);
    }
}

#[test]
fn every_listed_extension_opens() {
    for ext in DOCUMENT_EXTS {
        assert!(Document::load(&path(&format!("a.{}", ext))).is_ok());
    }
    assert_eq!(DOCUMENT_EXTS.len(), IMAGE_EXTS.len() + 1);
}

#[test]
fn browsing_goes_through_the_images_in_order() {
    let (files, at) = collection_for(
        &path("/d/m.png"),
        listing(&["/d/z.jpg", "/d/a.txt", "/d/m.png", "/d/B.GIF", "/d/doc.pdf", "/d/a.webp"]),
    );
    assert_eq!(names(&files), ["/d/B.GIF", "/d/a.webp", "/d/m.png", "/d/z.jpg"]);
    assert_eq!(at, 2);
}

#[test]
fn browsing_finds_a_path_that_is_written_otherwise() {
    let (files, at) = collection_for(&path("/d//m.png"), listing(&["/d/a.png", "/d/m.png"]));
    assert_eq!(names(&files), ["/d/a.png", "/d/m.png"]);
    assert_eq!(at, 1);
}

#[test]
fn browsing_starts_at_the_front_when_the_file_is_not_listed() {
    let (files, at) = collection_for(&path("m.png"), listing(&["x.png", "b.png"]));
    assert_eq!(names(&files), ["b.png", "x.png"]);
    assert_eq!(at, 0);
}

#[test]
fn a_pdf_is_browsed_alone() {
    let (files, at) = collection_for(&path("m.pdf"), listing(&["a.png", "m.pdf"]));
    assert_eq!(names(&files), ["m.pdf"]);
    assert_eq!(at, 0);
}

#[test]
fn an_image_in_an_unreadable_directory_is_browsed_alone() {
    let (files, at) = collection_for(&path("m.png"), Vec::new());
    assert_eq!(names(&files), ["m.png"]);
    assert_eq!(at, 0);
    let (files, _) = collection_for(&path("m.png"), listing(&["a.txt"]));
    assert_eq!(names(&files), ["m.png"]);
}
