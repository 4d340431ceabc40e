//! Which pages stay resident.

use cce_preview::document::{Document, Kind, PageSize, Scalar};
use cce_preview::path::FilePath;
use cce_preview::store::{Job, PageStore, Rendered, MAX_GPU_PAGES};

fn doc(kind: Kind, pages: usize) -> Document {
    Document {
        path: FilePath { bytes: b"dir/a".to_vec() },
        kind,
        pages: (0..pages)
            .map(|i| PageSize { w: Scalar { bits: i as u64 }, h: Scalar { bits: 1 } })
            .collect(),
    }
}

fn rendered(image: u32, dpi: u32) -> Rendered {
    Rendered { image, dpi }
}

fn sorted(mut v: Vec<u32>) -> Vec<u32> {
    v.sort();
    v
}

fn asks(job: Option<Job>) -> Option<(u64, usize, u32)> {
    job.map(|j| (j.generation, j.page, j.dpi))
}

/// A store in which the pages `0..n` are resident as the images `100..100 + n`,
/// each used in a frame of its own.
fn filled(d: &Document, n: usize) -> PageStore {
    let mut store = PageStore::new();
    for page in 0..n {
        store.begin_frame();
        assert!(store.ensure(d, 0, page, 72).0.is_none());
        assert_eq!(store.complete(0, page, Some(rendered(100 + page as u32, 72))), []);
    }
    store
}

#[test]
fn a_page_is_asked_for_once() {
    let d = doc(Kind::Pdf, 3);
    let mut store = PageStore::new();
    store.begin_frame();
    let (image, job) = store.ensure(&d, 3, 2, 96);
    assert_eq!(image, None);
    let job = job.unwrap();
    assert_eq!((job.generation, job.page, job.dpi, job.quarter_turns), (0, 2, 96, 3));
    assert_eq!(job.path.bytes, b"dir/a");
    assert_eq!(job.kind, Kind::Pdf);
    assert_eq!(job.size, d.pages[2]);
    assert!(matches!(store.ensure(&d, 3, 2, 96), (None, None)));
    assert!(matches!(store.ensure(&d, 3, 2, 144), (None, None)));
}

#[test]
fn a_result_is_shown() {
    let d = doc(Kind::Image, 1);
    let mut store = PageStore::new();
    store.ensure(&d, 0, 0, 72);
    assert_eq!(store.complete(0, 0, Some(rendered(5, 72))), []);
    assert_eq!(store.ensure(&d, 0, 0, 72).0, Some(rendered(5, 72)));
}

#[test]
fn a_pdf_page_is_rendered_anew_at_another_resolution() {
    let d = doc(Kind::Pdf, 1);
    let mut store = filled(&d, 1);
    let (image, job) = store.ensure(&d, 0, 0, 144);
    assert_eq!(image, Some(rendered(100, 72)));
    assert_eq!(asks(job), Some((0, 0, 144)));
    assert!(matches!(store.ensure(&d, 0, 0, 192), (Some(_), None)));
    assert_eq!(store.complete(0, 0, Some(rendered(6, 144))), [100]);
    let (image, job) = store.ensure(&d, 0, 0, 192);
    assert_eq!(image, Some(rendered(6, 144)));
    assert_eq!(asks(job), Some((0, 0, 192)));
}

#[test]
fn an_image_is_never_rendered_anew() {
    let d = doc(Kind::Image, 1);
    let mut store = filled(&d, 1);
    assert!(matches!(store.ensure(&d, 0, 0, 576), (Some(_), None)));
}

#[test]
fn a_failed_page_is_left_alone() {
    let d = doc(Kind::Pdf, 1);
    let mut store = PageStore::new();
    store.ensure(&d, 0, 0, 72);
    assert_eq!(store.complete(0, 0, None), []);
    assert!(matches!(store.ensure(&d, 0, 0, 72), (None, None)));
}

#[test]
fn a_failed_refresh_frees_the_page() {
    let d = doc(Kind::Pdf, 1);
    let mut store = filled(&d, 1);
    store.ensure(&d, 0, 0, 144);
    assert_eq!(store.complete(0, 0, None), [100]);
    assert!(matches!(store.ensure(&d, 0, 0, 144), (None, None)));
}

#[test]
fn an_emptied_store_frees_every_image() {
    let d = doc(Kind::Pdf, 4);
    let mut store = filled(&d, 3);
    store.ensure(&d, 0, 3, 72);
    assert_eq!(sorted(store.reset()), [100, 101, 102]);
    assert_eq!(store.generation(), 1);
    assert_eq!(asks(store.ensure(&d, 0, 0, 72).1), Some((1, 0, 72)));
}

#[test]
fn a_late_result_is_freed() {
    let d = doc(Kind::Pdf, 1);
    let mut store = PageStore::new();
    let job = store.ensure(&d, 0, 0, 72).1.unwrap();
    store.reset();
    store.ensure(&d, 1, 0, 72);
    store.reset();
    store.ensure(&d, 2, 0, 72);
    assert_eq!(store.complete(job.generation, 0, Some(rendered(9, 72))), [9]);
    assert_eq!(store.complete(job.generation, 0, None), []);
    assert!(matches!(store.ensure(&d, 2, 0, 72), (None, None)));
    assert_eq!(store.complete(2, 0, Some(rendered(10, 72))), []);
    assert_eq!(store.ensure(&d, 2, 0, 72).0, Some(rendered(10, 72)));
}

#[test]
fn as_many_pages_stay_as_there_is_room_for() {
    let d = doc(Kind::Pdf, 40);
    let mut store = filled(&d, MAX_GPU_PAGES);
    store.begin_frame();
    store.ensure(&d, 0, 0, 72);
    store.ensure(&d, 0, 30, 72);
    assert_eq!(store.complete(0, 30, Some(rendered(300, 72))), [101]);
    assert_eq!(store.ensure(&d, 0, 0, 72).0, Some(rendered(100, 72)));
    assert_eq!(asks(store.ensure(&d, 0, 1, 72).1), Some((0, 1, 72)));
}

#[test]
fn pages_that_this_frame_has_used_never_leave() {
    let d = doc(Kind::Pdf, 40);
    let mut store = filled(&d, MAX_GPU_PAGES);
    store.begin_frame();
    for page in 0..MAX_GPU_PAGES {
        store.ensure(&d, 0, page, 72);
    }
    for page in MAX_GPU_PAGES..30 {
        store.ensure(&d, 0, page, 72);
        assert_eq!(store.complete(0, page, Some(rendered(500 + page as u32, 72))), []);
    }
    for page in 0..30 {
        assert!(store.ensure(&d, 0, page, 72).0.is_some());
    }
    store.begin_frame();
    store.ensure(&d, 0, 39, 72);
    let freed = store.complete(0, 39, Some(rendered(900, 72)));
    assert_eq!(freed.len(), 7);
    assert!(!freed.contains(&900));
}

#[test]
fn several_pages_are_asked_for_at_once() {
    let d = doc(Kind::Pdf, 5);
    let mut store = filled(&d, 2);
    store.begin_frame();
    let (images, jobs) = store.ensure_all(&d, 1, &vec![1, 3, 4], 72);
    assert_eq!(images, [Some(rendered(101, 72)), None, None]);
    assert_eq!(jobs.iter().map(|j| j.page).collect::<Vec<usize>>(), [3, 4]);
    let (images, jobs) = store.ensure_all(&d, 1, &vec![1, 3, 4], 72);
    assert_eq!(images.len(), 3);
    assert_eq!(jobs.len(), 0);
    assert_eq!(store.frame(), 3);
}
