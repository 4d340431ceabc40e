//! Pixels: pictures as the renderer takes them, turned and shrunk to fit.

use vstd::prelude::*;

verus! {

/// The largest edge of a picture that is handed to the renderer.
pub const MAX_DIM: u32 = 8192;

/// A picture: four bytes, for red, green, blue and opacity, for each pixel of
/// each row from the top.
pub struct Raster {
    pub w: u32,
    pub h: u32,
    pub rgba: Vec<u8>,
}

/// What a picture shows.
#[verifier::ext_equal]
pub struct Picture {
    pub w: int,
    pub h: int,
    pub rgba: Seq<u8>,
}

impl View for Raster {
    type V = Picture;

    open spec fn view(&self) -> Picture {
        Picture { w: self.w as int, h: self.h as int, rgba: self.rgba@ }
    }
}

/// The picture of the given size whose channel `c` at column `x` of row `y` is
/// `f(x, y, c)`.
pub open spec fn drawn(w: int, h: int, f: spec_fn(int, int, int) -> u8) -> Picture {
    Picture {
        w,
        h,
        rgba: Seq::new((4 * (w * h)) as nat, |k: int| f((k / 4) % w, (k / 4) / w, k % 4)),
    }
}

impl Picture {
    /// There are four bytes for each pixel.
    pub open spec fn wf(self) -> bool {
        self.w >= 0 && self.h >= 0 && self.rgba.len() == 4 * (self.w * self.h)
    }

    /// The channel `c` of the pixel at column `x` of row `y`.
    pub open spec fn at(self, x: int, y: int, c: int) -> u8 {
        self.rgba[4 * (y * self.w + x) + c]
    }

    /// The picture after a quarter turn clockwise: what was the left edge, read
    /// from the bottom, is the top edge.
    pub open spec fn quarter(self) -> Picture {
        drawn(self.h, self.w, |x: int, y: int, c: int| self.at(y, self.h - 1 - x, c))
    }

    /// The picture upside down.
    pub open spec fn half(self) -> Picture {
        drawn(
            self.w,
            self.h,
            |x: int, y: int, c: int| self.at(self.w - 1 - x, self.h - 1 - y, c),
        )
    }

    /// The picture after a quarter turn the other way.
    pub open spec fn three_quarters(self) -> Picture {
        drawn(self.h, self.w, |x: int, y: int, c: int| self.at(self.w - 1 - y, x, c))
    }

    /// The picture after a number of quarter turns clockwise.
    pub open spec fn turned(self, quarter_turns: int) -> Picture {
        if quarter_turns % 4 == 1 {
            self.quarter()
        } else if quarter_turns % 4 == 2 {
            self.half()
        } else if quarter_turns % 4 == 3 {
            self.three_quarters()
        } else {
            self
        }
    }
}

/// Where a pixel stands in its row and its row in the picture.
proof fn lemma_index(w: int, h: int, x: int, y: int, c: int)
    requires
        0 <= x < w,
        0 <= y < h,
        0 <= c < 4,
    ensures
        0 <= 4 * (y * w + x) + c < 4 * (w * h),
        (4 * (y * w + x) + c) / 4 == y * w + x,
        (4 * (y * w + x) + c) % 4 == c,
        (y * w + x) / w == y,
        (y * w + x) % w == x,
{
    assert(0 <= y * w && y * w + w <= w * h) by (nonlinear_arith)
        requires
            0 <= y < h,
            0 < w,
    ;
    vstd::arithmetic::div_mod::lemma_fundamental_div_mod_converse(y * w + x, w, y, x);
}

/// The pixel that a byte belongs to.
proof fn lemma_pixel(w: int, h: int, k: int)
    requires
        0 <= k < 4 * (w * h),
        0 <= w,
        0 <= h,
    ensures
        w > 0,
        0 <= (k / 4) % w < w,
        0 <= (k / 4) / w < h,
        0 <= k % 4 < 4,
        k == 4 * (((k / 4) / w) * w + (k / 4) % w) + k % 4,
{
    assert(w > 0) by (nonlinear_arith)
        requires
            0 <= k < 4 * (w * h),
            0 <= w,
            0 <= h,
    ;
    let q = k / 4;
    vstd::arithmetic::div_mod::lemma_fundamental_div_mod(q, w);
    vstd::arithmetic::mul::lemma_mul_is_commutative(w, q / w);
    assert(0 <= q / w && q / w < h) by (nonlinear_arith)
        requires
            0 <= q < w * h,
            w > 0,
            q == w * (q / w) + q % w,
            0 <= q % w < w,
    ;
}

/// A drawn picture shows what was drawn.
proof fn lemma_drawn(w: int, h: int, f: spec_fn(int, int, int) -> u8)
    requires
        0 <= w,
        0 <= h,
    ensures
        drawn(w, h, f).wf(),
        forall|x: int, y: int, c: int|
            0 <= x < w && 0 <= y < h && 0 <= c < 4 ==> #[trigger] drawn(w, h, f).at(x, y, c) == f(
                x,
                y,
                c,
            ),
{
    assert(0 <= w * h) by (nonlinear_arith)
        requires
            0 <= w,
            0 <= h,
    ;
    assert forall|x: int, y: int, c: int| 0 <= x < w && 0 <= y < h && 0 <= c < 4 implies
        #[trigger] drawn(w, h, f).at(x, y, c) == f(x, y, c) by {
        lemma_index(w, h, x, y, c);
    }
}

/// Two pictures of the same size that show the same are the same.
proof fn lemma_same(a: Picture, b: Picture)
    requires
        a.wf(),
        b.wf(),
        a.w == b.w,
        a.h == b.h,
        forall|x: int, y: int, c: int|
            0 <= x < a.w && 0 <= y < a.h && 0 <= c < 4 ==> #[trigger] a.at(x, y, c) == b.at(
                x,
                y,
                c,
            ),
    ensures
        a == b,
{
    assert forall|k: int| 0 <= k < a.rgba.len() implies a.rgba[k] == b.rgba[k] by {
        lemma_pixel(a.w, a.h, k);
        let x = (k / 4) % a.w;
        let y = (k / 4) / a.w;
        assert(a.at(x, y, k % 4) == b.at(x, y, k % 4));
    }
    assert(a =~= b);
}

/// Every turn of a picture has its pixels.
proof fn lemma_turned(p: Picture)
    requires
        p.wf(),
    ensures
        p.quarter().wf(),
        p.half().wf(),
        p.three_quarters().wf(),
        forall|x: int, y: int, c: int|
            0 <= x < p.h && 0 <= y < p.w && 0 <= c < 4 ==> #[trigger] p.quarter().at(x, y, c)
                == p.at(y, p.h - 1 - x, c),
        forall|x: int, y: int, c: int|
            0 <= x < p.w && 0 <= y < p.h && 0 <= c < 4 ==> #[trigger] p.half().at(x, y, c) == p.at(
                p.w - 1 - x,
                p.h - 1 - y,
                c,
            ),
        forall|x: int, y: int, c: int|
            0 <= x < p.h && 0 <= y < p.w && 0 <= c < 4 ==> #[trigger] p.three_quarters().at(x, y, c)
                == p.at(p.w - 1 - y, x, c),
{
    lemma_drawn(p.h, p.w, |x: int, y: int, c: int| p.at(y, p.h - 1 - x, c));
    lemma_drawn(p.w, p.h, |x: int, y: int, c: int| p.at(p.w - 1 - x, p.h - 1 - y, c));
    lemma_drawn(p.h, p.w, |x: int, y: int, c: int| p.at(p.w - 1 - y, x, c));
}

/// One quarter turn after another: each turn is so many quarter turns, and four
/// of them lead back to the picture.
proof fn lemma_quarters(p: Picture)
    requires
        p.wf(),
    ensures
        p.quarter().quarter() == p.half(),
        p.half().quarter() == p.three_quarters(),
        p.three_quarters().quarter() == p,
{
    lemma_turned(p);
    lemma_turned(p.quarter());
    lemma_turned(p.half());
    lemma_turned(p.three_quarters());
    lemma_same(p.quarter().quarter(), p.half());
    lemma_same(p.half().quarter(), p.three_quarters());
    lemma_same(p.three_quarters().quarter(), p);
}

/// Turning a picture twice is turning it once by the sum of both turns.
pub proof fn law_turns_add_up(p: Picture, first: int, second: int)
    requires
        p.wf(),
    ensures
        p.turned(first).turned(second) == p.turned(first + second),
        p.turned(first).wf(),
{
    lemma_turned(p);
    lemma_quarters(p);
    lemma_quarters(p.quarter());
    lemma_quarters(p.half());
    lemma_quarters(p.three_quarters());
    assert((first + second) % 4 == (first % 4 + second % 4) % 4);
}

/// A full turn, or a turn and its opposite, leads back to the picture.
pub proof fn law_full_turn_changes_nothing(p: Picture, turns: int)
    requires
        p.wf(),
    ensures
        p.turned(turns).turned(4 - turns) == p,
        p.turned(turns).turned(-turns) == p,
        p.turned(1).turned(1).turned(1).turned(1) == p,
{
    law_turns_add_up(p, turns, 4 - turns);
    law_turns_add_up(p, turns, -turns);
    law_turns_add_up(p, 1, 1);
    law_turns_add_up(p.turned(1), 1, 1);
    law_turns_add_up(p.turned(1).turned(1), 1, 1);
    law_turns_add_up(p, 2, 2);
}

/// An odd number of quarter turns trades the width of a picture for its height,
/// as it does for a page.
pub proof fn law_turned_size(p: Picture, turns: int)
    requires
        turns >= 0,
    ensures
        turns % 2 == 1 ==> p.turned(turns).w == p.h && p.turned(turns).h == p.w,
        turns % 2 == 0 ==> p.turned(turns).w == p.w && p.turned(turns).h == p.h,
{
    assert(turns % 4 == 1 || turns % 4 == 3 <==> turns % 2 == 1);
}

impl Raster {
    /// There are four bytes for each pixel, and rows and columns that memory can
    /// count.
    pub open spec fn wf(&self) -> bool {
        self@.wf() && 4 * self.w <= usize::MAX && 4 * self.h <= usize::MAX
    }
}

/// `image::imageops::rotate90` on the pixels of a picture: a quarter turn
/// clockwise, pixel by pixel.
#[verifier::external_body]
fn rotate90(picture: Raster) -> (r: Raster)
    requires
        picture.wf(),
    ensures
        r@ == picture@.quarter(),
{
    let image = image::RgbaImage::from_raw(picture.w, picture.h, picture.rgba).unwrap();
    let out = image::imageops::rotate90(&image);
    Raster { w: out.width(), h: out.height(), rgba: out.into_raw() }
}

/// `image::imageops::rotate180` on the pixels of a picture: half a turn, pixel
/// by pixel.
#[verifier::external_body]
fn rotate180(picture: Raster) -> (r: Raster)
    requires
        picture.wf(),
    ensures
        r@ == picture@.half(),
{
    let image = image::RgbaImage::from_raw(picture.w, picture.h, picture.rgba).unwrap();
    let out = image::imageops::rotate180(&image);
    Raster { w: out.width(), h: out.height(), rgba: out.into_raw() }
}

/// `image::imageops::rotate270` on the pixels of a picture: three quarter turns
/// clockwise, pixel by pixel.
#[verifier::external_body]
fn rotate270(picture: Raster) -> (r: Raster)
    requires
        picture.wf(),
    ensures
        r@ == picture@.three_quarters(),
{
    let image = image::RgbaImage::from_raw(picture.w, picture.h, picture.rgba).unwrap();
    let out = image::imageops::rotate270(&image);
    Raster { w: out.width(), h: out.height(), rgba: out.into_raw() }
}

/// Turns a picture by a number of quarter turns clockwise.
pub fn turn(picture: Raster, quarter_turns: u8) -> (r: Raster)
    requires
        picture.wf(),
    ensures
        r@ == picture@.turned(quarter_turns as int),
        r.wf(),
{
    proof {
        lemma_turned(picture@);
    }
    match quarter_turns % 4 {
        1 => rotate90(picture),
        2 => rotate180(picture),
        3 => rotate270(picture),
        _ => picture,
    }
}

/// A size that a picture may be shrunk to.
pub open spec fn smaller(w: int, h: int, nw: int, nh: int) -> bool {
    &&& 0 < nw <= MAX_DIM
    &&& 0 < nh <= MAX_DIM
    &&& w > 0 && h > 0 ==> nw <= w && nh <= h && 16 * (w * nh) <= isize::MAX
}

/// The pixels that `image::imageops::resize` makes of a picture of `w` by `h`
/// pixels when it shrinks it to `nw` by `nh` with the triangle filter.
pub uninterp spec fn resized(rgba: Seq<u8>, w: u32, h: u32, nw: u32, nh: u32) -> Seq<u8>;

/// `image::imageops::resize` on the pixels of a picture, with the triangle
/// filter: the result has the size that is asked for, and its pixels depend on
/// the picture and on that size alone. It is asked here only for pictures that
/// become no larger, and whose shortened columns, four 32-bit numbers for each
/// pixel, fit in memory on the way; a picture without pixels may become any size.
#[verifier::external_body]
fn resize(picture: Raster, nw: u32, nh: u32) -> (r: Raster)
    requires
        picture.wf(),
        smaller(picture.w as int, picture.h as int, nw as int, nh as int),
    ensures
        r.w == nw,
        r.h == nh,
        r@.wf(),
        r.rgba@ == resized(picture.rgba@, picture.w, picture.h, nw, nh),
{
    let image = image::RgbaImage::from_raw(picture.w, picture.h, picture.rgba).unwrap();
    let out = image::imageops::resize(&image, nw, nh, image::imageops::FilterType::Triangle);
    Raster { w: out.width(), h: out.height(), rgba: out.into_raw() }
}

/// Whether a picture is larger than the renderer takes.
pub open spec fn oversized(w: int, h: int) -> bool {
    w > MAX_DIM || h > MAX_DIM
}

/// Whether a picture is larger than the renderer takes.
pub fn is_oversized(w: u32, h: u32) -> (r: bool)
    ensures
        r == oversized(w as int, h as int),
{
    w > MAX_DIM || h > MAX_DIM
}

/// What is left of a picture that is shrunk if it is larger than the renderer takes.
pub open spec fn fitted(p: Picture, nw: u32, nh: u32) -> Picture {
    if oversized(p.w, p.h) {
        Picture { w: nw as int, h: nh as int, rgba: resized(p.rgba, p.w as u32, p.h as u32, nw, nh) }
    } else {
        p
    }
}

/// Shrinks a picture to the given size if it is larger than the renderer takes.
pub fn fit(picture: Raster, nw: u32, nh: u32) -> (r: Raster)
    requires
        picture.wf(),
        oversized(picture.w as int, picture.h as int) ==> smaller(
            picture.w as int,
            picture.h as int,
            nw as int,
            nh as int,
        ),
    ensures
        r@ == fitted(picture@, nw, nh),
        r.wf(),
        !oversized(r.w as int, r.h as int),
{
    if is_oversized(picture.w, picture.h) {
        resize(picture, nw, nh)
    } else {
        picture
    }
}

/// One edge of a picture once its longer edge `m` is as long as the renderer takes:
/// in proportion, rounded down, but never nothing.
pub open spec fn reduced(edge: int, m: int) -> int {
    if edge * MAX_DIM / m > 0 {
        edge * MAX_DIM / m
    } else {
        1
    }
}

/// The longer of two edges.
pub open spec fn longer(w: int, h: int) -> int {
    if w < h {
        h
    } else {
        w
    }
}

/// A picture shrunk in proportion if it is larger than the renderer takes. There
/// is none if memory could not hold the pixels on the way.
pub open spec fn bounded(p: Picture) -> Result<Picture, Seq<char>> {
    let nw = reduced(p.w, longer(p.w, p.h));
    let nh = reduced(p.h, longer(p.w, p.h));
    if oversized(p.w, p.h) && !smaller(p.w, p.h, nw, nh) {
        Err("picture too large"@)
    } else {
        Ok(fitted(p, nw as u32, nh as u32))
    }
}

/// A reduced edge is one that the renderer takes, and no longer than it was.
proof fn lemma_reduced(edge: int, m: int)
    requires
        0 <= edge <= m,
        m > MAX_DIM,
    ensures
        1 <= reduced(edge, m) <= MAX_DIM,
        edge > 0 ==> reduced(edge, m) <= edge,
{
    let scaled = edge * MAX_DIM / m;
    assert(0 <= scaled <= 8192 && scaled <= edge) by (nonlinear_arith)
        requires
            scaled == (edge * 8192) / m,
            0 <= edge <= m,
            m > 8192,
    ;
}

/// How many pixels there are on the way, at most.
proof fn lemma_on_the_way(w: u32, nh: int)
    requires
        0 <= nh <= MAX_DIM,
    ensures
        0 <= w * nh <= 0xffff_ffff * 8192,
{
    assert(0 <= w * nh <= 0xffff_ffff * 8192) by (nonlinear_arith)
        requires
            0 <= w <= 0xffff_ffff,
            0 <= nh <= 8192,
    ;
}

/// One edge of a picture once its longer edge is as long as the renderer takes.
fn reduce(edge: u32, m: u32) -> (r: u32)
    requires
        edge <= m,
        m > MAX_DIM,
    ensures
        r == reduced(edge as int, m as int),
{
    proof {
        lemma_reduced(edge as int, m as int);
    }
    let scaled: u64 = edge as u64 * MAX_DIM as u64 / m as u64;
    if scaled > 0 {
        scaled as u32
    } else {
        1
    }
}

/// Shrinks a picture in proportion if it is larger than the renderer takes.
pub fn bound(picture: Raster) -> (r: Result<Raster, String>)
    requires
        picture.wf(),
    ensures
        shown(r) == bounded(picture@),
        r matches Ok(p) ==> p.wf() && !oversized(p.w as int, p.h as int),
{
    if !is_oversized(picture.w, picture.h) {
        return Ok(picture);
    }
    let m: u32 = if picture.w < picture.h {
        picture.h
    } else {
        picture.w
    };
    let nw = reduce(picture.w, m);
    let nh = reduce(picture.h, m);
    proof {
        lemma_reduced(picture.w as int, m as int);
        lemma_reduced(picture.h as int, m as int);
        lemma_on_the_way(picture.w, nh as int);
    }
    let on_the_way: u64 = picture.w as u64 * nh as u64;
    if picture.w > 0 && picture.h > 0 && on_the_way > isize::MAX as u64 / 16 {
        return Err("picture too large".to_string());
    }
    Ok(fit(picture, nw, nh))
}

/// On a machine whose memory is counted with 64 bits, every picture can be
/// shrunk.
pub proof fn law_every_picture_can_be_shrunk(w: u32, h: u32)
    requires
        isize::MAX == 0x7fff_ffff_ffff_ffff,
        oversized(w as int, h as int),
    ensures
        smaller(
            w as int,
            h as int,
            reduced(w as int, longer(w as int, h as int)),
            reduced(h as int, longer(w as int, h as int)),
        ),
{
    let m = longer(w as int, h as int);
    lemma_reduced(w as int, m);
    lemma_reduced(h as int, m);
    lemma_on_the_way(w, reduced(h as int, m));
}

/// What `image::load_from_memory` and `DynamicImage::to_rgba8` make of some
/// bytes: the width, the height and the pixels of the picture that they encode,
/// or the words in which it says why there is none.
pub uninterp spec fn decoded(bytes: Seq<u8>) -> Result<(u32, u32, Seq<u8>), Seq<char>>;

/// Decodes a picture with `image::load_from_memory`, which guesses its format
/// from the first bytes, and `DynamicImage::to_rgba8`. What comes out depends on
/// the bytes alone as long as the process registers no decoders of its own with
/// the crate, which nothing here does.
#[verifier::external_body]
pub(crate) fn decode(bytes: &[u8]) -> (r: Result<Raster, String>)
    ensures
        match r {
            Ok(p) => decoded(bytes@) == Ok::<(u32, u32, Seq<u8>), Seq<char>>(
                (p.w, p.h, p.rgba@),
            ) && p.wf(),
            Err(e) => decoded(bytes@) == Err::<(u32, u32, Seq<u8>), Seq<char>>(e@),
        },
{
    let image = image::load_from_memory(bytes).map_err(|e| e.to_string())?.to_rgba8();
    Ok(Raster { w: image.width(), h: image.height(), rgba: image.into_raw() })
}

/// The picture that some bytes encode, or why there is none.
pub open spec fn picture_of(bytes: Seq<u8>) -> Result<Picture, Seq<char>> {
    match decoded(bytes) {
        Ok((w, h, rgba)) => Ok(Picture { w: w as int, h: h as int, rgba }),
        Err(e) => Err(e),
    }
}

/// What a picture shows, or why there is none.
pub open spec fn shown(r: Result<Raster, String>) -> Result<Picture, Seq<char>> {
    match r {
        Ok(p) => Ok(p@),
        Err(e) => Err(e@),
    }
}

/// A quarter turn clockwise takes the pixel at column `x` of row `y` to the row `x`
/// and to the column that is as far from the right edge as it was from the top: every
/// byte of it, in its order.
pub proof fn law_quarter_turn_moves_pixels(p: Picture, x: int, y: int, c: int)
    requires
        p.wf(),
        0 <= x < p.w,
        0 <= y < p.h,
        0 <= c < 4,
    ensures
        p.turned(1).w == p.h,
        p.turned(1).h == p.w,
        p.turned(1).rgba.len() == p.rgba.len(),
        p.turned(1).rgba[4 * (x * p.h + (p.h - 1 - y)) + c] == p.rgba[4 * (y * p.w + x) + c],
{
    lemma_turned(p);
    assert(p.w * p.h == p.h * p.w) by (nonlinear_arith);
    assert(p.quarter().at(p.h - 1 - y, x, c) == p.at(x, y, c));
}

/// Half a turn takes a pixel to the opposite place, and three quarter turns undo one.
pub proof fn law_other_turns_move_pixels(p: Picture, x: int, y: int, c: int)
    requires
        p.wf(),
        0 <= x < p.w,
        0 <= y < p.h,
        0 <= c < 4,
    ensures
        p.turned(2).w == p.w && p.turned(2).h == p.h,
        p.turned(2).rgba[4 * ((p.h - 1 - y) * p.w + (p.w - 1 - x)) + c] == p.rgba[4 * (y * p.w + x)
            + c],
        p.turned(3).w == p.h && p.turned(3).h == p.w,
        p.turned(3).rgba[4 * ((p.w - 1 - x) * p.h + y) + c] == p.rgba[4 * (y * p.w + x) + c],
        p.turned(0) == p,
{
    lemma_turned(p);
    assert(p.half().at(p.w - 1 - x, p.h - 1 - y, c) == p.at(x, y, c));
    assert(p.three_quarters().at(y, p.w - 1 - x, c) == p.at(x, y, c));
}

/// A picture is too large exactly if one of its edges is over 8192 pixels; one that is
/// not is left as it is, and one that is gets the size that it is to have.
pub proof fn law_only_large_pictures_are_shrunk(p: Picture, nw: u32, nh: u32)
    ensures
        oversized(p.w, p.h) <==> p.w > 8192 || p.h > 8192,
        p.w <= 8192 && p.h <= 8192 ==> fitted(p, nw, nh) == p && bounded(p) == Ok::<
            Picture,
            Seq<char>,
        >(p),
        p.w > 8192 || p.h > 8192 ==> fitted(p, nw, nh).w == nw && fitted(p, nw, nh).h == nh,
{
}

/// A picture that is shrunk keeps its proportions: its longer edge becomes 8192 pixels,
/// and the other one as many as that scale gives, rounded down, but at least one.
pub proof fn law_shrunk_picture_keeps_its_proportions(p: Picture)
    requires
        p.wf(),
        p.w <= u32::MAX && p.h <= u32::MAX,
        p.w > 8192 || p.h > 8192,
        bounded(p) is Ok,
    ensures
        ({
            let q = bounded(p)->Ok_0;
            let m = if p.w > p.h {
                p.w
            } else {
                p.h
            };
            &&& 1 <= q.w <= 8192
            &&& 1 <= q.h <= 8192
            &&& p.w == m ==> q.w == 8192
            &&& p.h == m ==> q.h == 8192
            &&& q.w == 1 || q.w * m <= p.w * 8192
            &&& p.w * 8192 < (q.w + 1) * m
            &&& q.h == 1 || q.h * m <= p.h * 8192
            &&& p.h * 8192 < (q.h + 1) * m
        }),
{
    let m = longer(p.w, p.h);
    lemma_reduced(p.w, m);
    lemma_reduced(p.h, m);
    lemma_proportion(p.w, m);
    lemma_proportion(p.h, m);
}

/// A reduced edge is in proportion.
proof fn lemma_proportion(edge: int, m: int)
    requires
        0 <= edge <= m,
        m > 8192,
    ensures
        edge == m ==> reduced(edge, m) == 8192,
        reduced(edge, m) == 1 || reduced(edge, m) * m <= edge * 8192,
        edge * 8192 < (reduced(edge, m) + 1) * m,
{
    let scaled = edge * MAX_DIM / m;
    vstd::arithmetic::div_mod::lemma_fundamental_div_mod(edge * 8192, m);
    let rest = (edge * 8192) % m;
    assert(edge * 8192 == m * scaled + rest);
    assert(0 <= rest < m);
    assert(m * scaled == scaled * m) by (nonlinear_arith);
    assert((scaled + 1) * m == scaled * m + m) by (nonlinear_arith);
    if edge == m {
        assert(m * 8192 / m == 8192) by (nonlinear_arith)
            requires
                m > 8192,
        ;
    }
    if scaled <= 0 {
        assert(scaled == 0) by (nonlinear_arith)
            requires
                scaled <= 0,
                edge * 8192 == m * scaled + rest,
                rest < m,
                0 <= edge,
                m > 8192,
        ;
        assert((1 + 1) * m >= m) by (nonlinear_arith)
            requires
                m > 0,
        ;
    }
}

/// What a picture shows is every byte that it holds.
pub proof fn law_pictures_are_seen_whole(picture: Raster, e: String)
    ensures
        picture@.w == picture.w,
        picture@.h == picture.h,
        picture@.rgba == picture.rgba@,
        shown(Ok(picture)) == Ok::<Picture, Seq<char>>(picture@),
        shown(Err(e)) == Err::<Picture, Seq<char>>(e@),
{
}

} // verus!
