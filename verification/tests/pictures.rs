//! Pictures: decoding, turning, shrinking, and what is asked of the renderer of
//! PDF pages.

use cce_preview::document::{Kind, PageSize, Scalar};
use cce_preview::path::FilePath;
use cce_preview::raster::{bound, fit, is_oversized, turn, Raster, MAX_DIM};
use cce_preview::render::{
    capped_dpi, finish, finish_page, page_arguments, read_picture, render_image, render_page,
};
use cce_preview::store::{Job, Rendered};
use cce_preview::tool::ToolOutput;
use cce_preview::viewer::{reply, Message};

fn job(kind: Kind, page: usize, dpi: u32, quarter_turns: u8) -> Job {
    Job {
        generation: 3,
        page,
        dpi,
        path: FilePath { bytes: b"a.pdf".to_vec() },
        kind,
        size: PageSize { w: Scalar { bits: 0 }, h: Scalar { bits: 0 } },
        quarter_turns,
    }
}

/// Two rows of three pixels, numbered in reading order.
fn sample() -> Raster {
    numbered(3, 2, &[1, 2, 3, 4, 5, 6])
}

fn numbered(w: u32, h: u32, pixels: &[u8]) -> Raster {
    Raster { w, h, rgba: pixels.iter().flat_map(|p| [*p, 10 + *p, 20 + *p, 255]).collect() }
}

fn reds(r: &Raster) -> (u32, u32, Vec<u8>) {
    for pixel in r.rgba.chunks(4) {
        assert_eq!(pixel[1], pixel[0] + 10);
        assert_eq!(pixel[2], pixel[0] + 20);
        assert_eq!(pixel[3], 255);
    }
    (r.w, r.h, r.rgba.chunks(4).map(|p| p[0]).collect())
}

fn png(r: &Raster) -> Vec<u8> {
    let image = image::RgbaImage::from_raw(r.w, r.h, r.rgba.clone()).unwrap();
    let mut out = std::io::Cursor::new(Vec::new());
    image.write_to(&mut out, image::ImageFormat::Png).unwrap();
    out.into_inner()
}

fn ran(success: bool, stdout: Vec<u8>, stderr: &[u8]) -> Result<ToolOutput, String> {
    Ok(ToolOutput { success, stdout, stderr: stderr.to_vec() })
}

fn shown(r: Result<Raster, String>) -> (u32, u32, Vec<u8>) {
    reds(&r.unwrap_or_else(|e| panic!("{}", e)))
}

fn refusal(r: Result<Raster, String>) -> String {
    match r {
        Ok(_) => panic!("a picture"),
        Err(e) => e,
    }
}

#[test]
fn no_turn_leaves_a_picture() {
    assert_eq!(reds(&turn(sample(), 0)), (3, 2, vec![1, 2, 3, 4, 5, 6]));
    assert_eq!(reds(&turn(sample(), 4)), (3, 2, vec![1, 2, 3, 4, 5, 6]));
}

#[test]
fn one_turn_is_clockwise() {
    assert_eq!(reds(&turn(sample(), 1)), (2, 3, vec![4, 1, 5, 2, 6, 3]));
    assert_eq!(reds(&turn(sample(), 253)), (2, 3, vec![4, 1, 5, 2, 6, 3]));
}

#[test]
fn two_turns_are_upside_down() {
    assert_eq!(reds(&turn(sample(), 2)), (3, 2, vec![6, 5, 4, 3, 2, 1]));
}

#[test]
fn three_turns_are_counterclockwise() {
    assert_eq!(reds(&turn(sample(), 3)), (2, 3, vec![3, 6, 2, 5, 1, 4]));
}

#[test]
fn turns_add_up() {
    for first in 0..4u8 {
        for second in 0..4u8 {
            assert_eq!(
                reds(&turn(turn(sample(), first), second)),
                reds(&turn(sample(), first + second))
            );
        }
    }
}

#[test]
fn an_empty_picture_can_be_turned() {
    let empty = Raster { w: 5, h: 0, rgba: Vec::new() };
    let turned = turn(empty, 1);
    assert_eq!((turned.w, turned.h, turned.rgba.len()), (0, 5, 0));
}

#[test]
fn pictures_that_fit_are_left_alone() {
    assert!(!is_oversized(MAX_DIM, MAX_DIM));
    assert!(is_oversized(MAX_DIM + 1, 1));
    assert!(is_oversized(1, MAX_DIM + 1));
    assert_eq!(reds(&fit(sample(), 1, 1)), (3, 2, vec![1, 2, 3, 4, 5, 6]));
}

#[test]
fn large_pictures_are_shrunk() {
    let wide = Raster { w: 10000, h: 2, rgba: vec![7; 80000] };
    let small = fit(wide, 8192, 1);
    assert_eq!((small.w, small.h), (8192, 1));
    assert_eq!(small.rgba, vec![7; 4 * 8192]);
}

#[test]
fn shrinking_mixes_neighbours() {
    let mut rgba = Vec::new();
    for _ in 0..8193 {
        rgba.extend_from_slice(&[0, 0, 0, 255]);
    }
    for _ in 0..8193 {
        rgba.extend_from_slice(&[200, 0, 0, 255]);
    }
    let small = fit(Raster { w: 8193, h: 2, rgba }, 4000, 1);
    assert_eq!((small.w, small.h, small.rgba.len()), (4000, 1, 16000));
    assert_eq!(&small.rgba[..4], &[100, 0, 0, 255]);
}

#[test]
fn an_oversized_picture_without_pixels_becomes_blank() {
    let small = fit(Raster { w: 9000, h: 0, rgba: Vec::new() }, 8192, 1);
    assert_eq!((small.w, small.h), (8192, 1));
    assert_eq!(small.rgba, vec![0; 4 * 8192]);
}

#[test]
fn a_large_page_is_shrunk_in_proportion() {
    let wide = Raster { w: 16384, h: 3, rgba: vec![7; 4 * 16384 * 3] };
    let r = render_page(&job(Kind::Pdf, 0, 72, 1), ran(true, png(&wide), b""));
    let r = r.unwrap_or_else(|e| panic!("{}", e));
    assert_eq!((r.w, r.h), (1, 8192));
    assert_eq!(r.rgba, vec![7; 4 * 8192]);
    let narrow = Raster { w: 8193, h: 100, rgba: vec![7; 4 * 819300] };
    let r = bound(narrow).unwrap_or_else(|e| panic!("{}", e));
    assert_eq!((r.w, r.h), (8192, 99));
    let tall = Raster { w: 1, h: 20000, rgba: vec![7; 80000] };
    let r = finish_page(&job(Kind::Pdf, 0, 72, 0), Ok(tall));
    let r = r.unwrap_or_else(|e| panic!("{}", e));
    assert_eq!((r.w, r.h), (1, 8192));
}

#[test]
fn a_page_that_fits_is_left_alone() {
    assert_eq!(shown(bound(sample())), (3, 2, vec![1, 2, 3, 4, 5, 6]));
    assert_eq!(shown(finish_page(&job(Kind::Pdf, 0, 72, 2), Ok(sample()))), (3, 2, vec![6, 5, 4, 3, 2, 1]));
    assert_eq!(refusal(finish_page(&job(Kind::Pdf, 0, 72, 2), Err("no".to_string()))), "no");
}

#[test]
fn the_resolution_is_capped() {
    assert_eq!(capped_dpi(144, 600), 144);
    assert_eq!(capped_dpi(576, 200), 200);
    assert_eq!(capped_dpi(36, 10), 10);
    assert_eq!(capped_dpi(5, 600), 18);
    assert_eq!(capped_dpi(5, 17), 17);
    assert_eq!(capped_dpi(36, 0), 1);
}

#[test]
fn one_page_is_asked_for() {
    assert_eq!(
        page_arguments(&job(Kind::Pdf, 11, 576, 0), 300),
        ["-png", "-r", "300", "-f", "12", "-l", "12"]
    );
    assert_eq!(page_arguments(&job(Kind::Pdf, 0, 36, 0), 10)[2], "10");
}

#[test]
fn a_printed_page_is_decoded_and_turned() {
    let bytes = png(&sample());
    assert_eq!(
        shown(render_page(&job(Kind::Pdf, 0, 72, 0), ran(true, bytes.clone(), b"warning"))),
        (3, 2, vec![1, 2, 3, 4, 5, 6])
    );
    assert_eq!(
        shown(render_page(&job(Kind::Pdf, 0, 72, 1), ran(true, bytes, b""))),
        (2, 3, vec![4, 1, 5, 2, 6, 3])
    );
}

#[test]
fn a_picture_without_opacity_is_opaque() {
    let image = image::RgbImage::from_raw(1, 1, vec![5, 15, 25]).unwrap();
    let mut out = std::io::Cursor::new(Vec::new());
    image.write_to(&mut out, image::ImageFormat::Bmp).unwrap();
    assert_eq!(
        shown(render_page(&job(Kind::Pdf, 0, 72, 0), ran(true, out.into_inner(), b""))),
        (1, 1, vec![5])
    );
}

#[test]
fn a_page_that_was_not_printed_is_complained_of() {
    let j = job(Kind::Pdf, 0, 72, 0);
    assert_eq!(
        refusal(render_page(&j, Err("No such file or directory".to_string()))),
        "pdftoppm: No such file or directory"
    );
    assert_eq!(refusal(render_page(&j, ran(false, png(&sample()), b" bad xref\n"))), "pdftoppm: bad xref");
    assert_eq!(refusal(render_page(&j, ran(true, Vec::new(), b"\tWrong page range\n"))), "pdftoppm: Wrong page range");
    assert_eq!(refusal(render_page(&j, ran(true, Vec::new(), b""))), "pdftoppm: ");
}

#[test]
fn bytes_that_are_no_picture_are_complained_of() {
    let bytes = b"not a picture".to_vec();
    let expected = match image::load_from_memory(&bytes) {
        Ok(_) => panic!("a picture"),
        Err(e) => e.to_string(),
    };
    assert_eq!(refusal(render_page(&job(Kind::Pdf, 0, 72, 2), ran(true, bytes, b""))), expected);
}

#[test]
fn what_was_printed_is_handed_on() {
    assert_eq!(read_picture(ran(true, vec![1, 2], b"x")), Ok(vec![1, 2]));
    assert_eq!(read_picture(ran(false, vec![1, 2], b"x")), Err("pdftoppm: x".to_string()));
}

#[test]
fn an_image_file_is_shrunk_and_turned() {
    assert_eq!(
        shown(render_image(&job(Kind::Image, 0, 72, 3), Ok(sample()), 1, 1)),
        (2, 3, vec![3, 6, 2, 5, 1, 4])
    );
    let tall = Raster { w: 1, h: 9000, rgba: vec![9; 36000] };
    let r = render_image(&job(Kind::Image, 0, 72, 1), Ok(tall), 1, 8192);
    let r = r.unwrap_or_else(|e| panic!("{}", e));
    assert_eq!((r.w, r.h), (8192, 1));
    assert_eq!(
        refusal(render_image(&job(Kind::Image, 0, 72, 0), Err("gone".to_string()), 1, 1)),
        "gone"
    );
}

#[test]
fn a_finished_picture_is_turned() {
    assert_eq!(shown(finish(&job(Kind::Pdf, 0, 72, 2), Ok(sample()))), (3, 2, vec![6, 5, 4, 3, 2, 1]));
    assert_eq!(refusal(finish(&job(Kind::Pdf, 0, 72, 2), Err("no".to_string()))), "no");
}

#[test]
fn a_result_goes_back_with_its_job() {
    let j = job(Kind::Pdf, 4, 144, 0);
    let r = j.rendered(77);
    assert_eq!(r, Rendered { image: 77, dpi: 144 });
    assert_eq!(reply(&j, Some(r)), Message::Page { generation: 3, page: 4, result: Some(r) });
    assert_eq!(reply(&j, None), Message::Page { generation: 3, page: 4, result: None });
}
