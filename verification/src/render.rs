//! Rendering a page: what is asked of the helper program, and what is done with
//! the pixels that come back.

use vstd::prelude::*;

use crate::raster::{
    bound, bounded, decode, fit, fitted, law_shrunk_picture_keeps_its_proportions, law_turned_size,
    oversized, picture_of, shown, smaller, turn, Picture, Raster,
};
use crate::store::{Job, JobView, Rendered};
use crate::text::{
    all_white, decimal, is_white_space, law_decimal_reads_back, law_trimmed, lossy, lossy_text,
    push_decimal, trimmed, unsigned,
};
use crate::tool::{complain, complain_in_its_words, complaint, ToolOutput};

verus! {

/// The lowest resolution that is asked for, as long as the bitmap stays small
/// enough at it.
pub const MIN_DPI: u32 = 18;

/// The resolution that a page is rendered at: the one that is wanted, raised to
/// `MIN_DPI`, but none above `cap`, the highest that keeps its bitmap from being
/// too large, unless not even one dot to the inch does.
pub open spec fn spec_capped_dpi(want: u32, cap: u32) -> u32 {
    let raised = if want < MIN_DPI {
        MIN_DPI
    } else {
        want
    };
    if raised <= cap {
        raised
    } else if cap > 0 {
        cap
    } else {
        1
    }
}

/// The resolution that a page is rendered at.
pub fn capped_dpi(want: u32, cap: u32) -> (r: u32)
    ensures
        r == spec_capped_dpi(want, cap),
        r >= 1,
        cap >= 1 ==> r <= cap,
{
    let raised: u32 = if want < MIN_DPI {
        MIN_DPI
    } else {
        want
    };
    if raised <= cap {
        raised
    } else if cap > 0 {
        cap
    } else {
        1
    }
}

/// The arguments, before the path, with which `pdftoppm` prints one page as a
/// PNG: there is no output file, so it prints to its standard output.
pub open spec fn spec_page_arguments(dpi: u32, page: usize) -> Seq<Seq<char>> {
    let number = decimal((page + 1) as nat);
    seq!["-png"@, "-r"@, decimal(dpi as nat), "-f"@, number, "-l"@, number]
}

/// The arguments with which the page of a job is printed.
pub open spec fn job_arguments(job: JobView, cap: u32) -> Seq<Seq<char>> {
    spec_page_arguments(spec_capped_dpi(job.dpi, cap), job.page)
}

/// The arguments, before the path, with which `pdftoppm` prints the page of a
/// job; `cap` is the highest resolution at which its bitmap is not too large.
pub fn page_arguments(job: &Job, cap: u32) -> (r: Vec<String>)
    requires
        job.page < usize::MAX,
    ensures
        r@.map_values(|a: String| a@) == job_arguments(job@, cap),
{
    let dpi = capped_dpi(job.dpi, cap);
    let mut resolution = String::new();
    push_decimal(&mut resolution, dpi as u64);
    let mut first = String::new();
    push_decimal(&mut first, (job.page + 1) as u64);
    let mut last = String::new();
    push_decimal(&mut last, (job.page + 1) as u64);
    assert(resolution@ =~= decimal(dpi as nat));
    assert(first@ =~= decimal((job.page + 1) as nat));
    assert(last@ =~= decimal((job.page + 1) as nat));
    let mut r: Vec<String> = Vec::new();
    r.push("-png".to_string());
    r.push("-r".to_string());
    r.push(resolution);
    r.push("-f".to_string());
    r.push(first);
    r.push("-l".to_string());
    r.push(last);
    assert(r@.map_values(|a: String| a@) =~= spec_page_arguments(dpi, job.page));
    r
}

/// The bytes of the picture that `pdftoppm` printed, or why there are none: it
/// could not be started, it failed, or it printed nothing.
pub open spec fn printed_picture(outcome: Result<ToolOutput, String>) -> Result<
    Seq<u8>,
    Seq<char>,
> {
    match outcome {
        Ok(out) => if out.success && out.stdout@.len() > 0 {
            Ok(out.stdout@)
        } else {
            Err(complaint("pdftoppm"@, trimmed(lossy(out.stderr@))))
        },
        Err(e) => Err(complaint("pdftoppm"@, e@)),
    }
}

/// The bytes of the picture that `pdftoppm` printed, or why there are none.
pub fn read_picture(outcome: Result<ToolOutput, String>) -> (r: Result<Vec<u8>, String>)
    ensures
        match r {
            Ok(bytes) => printed_picture(outcome) == Ok::<Seq<u8>, Seq<char>>(bytes@),
            Err(e) => printed_picture(outcome) == Err::<Seq<u8>, Seq<char>>(e@),
        },
{
    match outcome {
        Ok(out) => {
            if !out.success || out.stdout.len() == 0 {
                let words = lossy_text(out.stderr.as_slice());
                Err(complain_in_its_words("pdftoppm", words.as_str()))
            } else {
                Ok(out.stdout)
            }
        },
        Err(e) => Err(complain("pdftoppm", e.as_str())),
    }
}

/// A picture turned as a job asks for, or why there is none.
pub open spec fn finished(picture: Result<Picture, Seq<char>>, quarter_turns: int) -> Result<
    Picture,
    Seq<char>,
> {
    match picture {
        Ok(p) => Ok(p.turned(quarter_turns)),
        Err(e) => Err(e),
    }
}

/// Turns a picture as a job asks for.
pub fn finish(job: &Job, picture: Result<Raster, String>) -> (r: Result<Raster, String>)
    requires
        picture matches Ok(p) ==> p.wf(),
    ensures
        shown(r) == finished(shown(picture), job.quarter_turns as int),
        r matches Ok(p) ==> p.wf(),
        (picture matches Ok(p) ==> !oversized(p.w as int, p.h as int)) ==> (r matches Ok(p)
            ==> !oversized(p.w as int, p.h as int)),
{
    match picture {
        Ok(p) => {
            proof {
                law_turned_size(p@, job.quarter_turns as int);
            }
            Ok(turn(p, job.quarter_turns))
        },
        Err(e) => Err(e),
    }
}

/// A picture shrunk in proportion if it is larger than the renderer takes, or why
/// there is none.
pub open spec fn limited(picture: Result<Picture, Seq<char>>) -> Result<Picture, Seq<char>> {
    match picture {
        Ok(p) => bounded(p),
        Err(e) => Err(e),
    }
}

/// The picture of a PDF page, from the picture that was printed of it.
pub open spec fn page_picture(job: JobView, picture: Result<Picture, Seq<char>>) -> Result<
    Picture,
    Seq<char>,
> {
    finished(limited(picture), job.quarter_turns as int)
}

/// The picture of an image file, from what the file holds.
pub open spec fn image_picture(
    job: JobView,
    opened: Result<Picture, Seq<char>>,
    nw: u32,
    nh: u32,
) -> Result<Picture, Seq<char>> {
    finished(
        match opened {
            Ok(p) => Ok(fitted(p, nw, nh)),
            Err(e) => Err(e),
        },
        job.quarter_turns as int,
    )
}

/// The picture of a PDF page, from the picture that was printed of it: shrunk if
/// it is too large after all, and turned.
pub fn finish_page(job: &Job, picture: Result<Raster, String>) -> (r: Result<Raster, String>)
    requires
        picture matches Ok(p) ==> p.wf(),
    ensures
        shown(r) == page_picture(job@, shown(picture)),
        r matches Ok(p) ==> p.wf() && !oversized(p.w as int, p.h as int),
{
    match picture {
        Ok(p) => finish(job, bound(p)),
        Err(e) => Err(e),
    }
}

/// The picture of a PDF page, from what `pdftoppm` left behind. Its resolution
/// keeps it from being too large; where it is so nevertheless, it is shrunk.
pub fn render_page(job: &Job, outcome: Result<ToolOutput, String>) -> (r: Result<Raster, String>)
    ensures
        shown(r) == match printed_picture(outcome) {
            Ok(bytes) => page_picture(job@, picture_of(bytes)),
            Err(e) => Err(e),
        },
        r matches Ok(p) ==> p.wf() && !oversized(p.w as int, p.h as int),
{
    match read_picture(outcome) {
        Ok(bytes) => finish_page(job, decode(bytes.as_slice())),
        Err(e) => Err(e),
    }
}

/// The picture of an image file, from what the file holds, if it could be read:
/// shrunk to `nw` by `nh` if it is too large, and turned.
pub fn render_image(job: &Job, opened: Result<Raster, String>, nw: u32, nh: u32) -> (r: Result<
    Raster,
    String,
>)
    requires
        opened matches Ok(p) ==> p.wf() && (oversized(p.w as int, p.h as int) ==> smaller(
            p.w as int,
            p.h as int,
            nw as int,
            nh as int,
        )),
    ensures
        shown(r) == image_picture(job@, shown(opened), nw, nh),
        r matches Ok(p) ==> p.wf() && !oversized(p.w as int, p.h as int),
{
    match opened {
        Ok(p) => finish(job, Ok(fit(p, nw, nh))),
        Err(e) => Err(e),
    }
}

impl Job {
    /// The job's page, rendered as this image.
    pub fn rendered(&self, image: u32) -> (r: Rendered)
        ensures
            r == self@.rendered_as(image),
    {
        Rendered { image, dpi: self.dpi }
    }
}

/// The resolution is the one that is wanted where that is neither too low nor too
/// high; it never goes above the cap, and goes up and down with what is wanted.
pub proof fn law_resolution_is_the_wanted_one_within_its_bounds(want: u32, more: u32, cap: u32)
    ensures
        18 <= want <= cap ==> spec_capped_dpi(want, cap) == want,
        1 <= cap <= want ==> spec_capped_dpi(want, cap) == cap,
        want < 18 && 18 <= cap ==> spec_capped_dpi(want, cap) == 18,
        want < 18 && 1 <= cap < 18 ==> spec_capped_dpi(want, cap) == cap,
        cap == 0 ==> spec_capped_dpi(want, cap) == 1,
        want <= more ==> spec_capped_dpi(want, cap) <= spec_capped_dpi(more, cap),
{
}

/// One page alone is asked for, counted from one, as a PNG at the resolution.
pub proof fn law_one_page_is_asked_for(dpi: u32, page: usize)
    ensures
        spec_page_arguments(dpi, page).len() == 7,
        spec_page_arguments(dpi, page)[0] == "-png"@,
        spec_page_arguments(dpi, page)[1] == "-r"@,
        unsigned(spec_page_arguments(dpi, page)[2]) == Some(dpi as int),
        spec_page_arguments(dpi, page)[3] == "-f"@,
        unsigned(spec_page_arguments(dpi, page)[4]) == Some(page + 1),
        spec_page_arguments(dpi, page)[5] == "-l"@,
        unsigned(spec_page_arguments(dpi, page)[6]) == Some(page + 1),
{
    law_decimal_reads_back(dpi as nat);
    law_decimal_reads_back((page + 1) as nat);
}

/// What a program printed is a picture exactly if it succeeded and printed something,
/// whatever it complained of; else it is its complaint, without the white space around
/// it, that is handed on.
pub proof fn law_picture_or_complaint(
    out: ToolOutput,
    e: String,
    front: Seq<char>,
    words: Seq<char>,
    back: Seq<char>,
)
    ensures
        out.success && out.stdout@.len() > 0 ==> printed_picture(Ok(out)) == Ok::<
            Seq<u8>,
            Seq<char>,
        >(out.stdout@),
        (!out.success || out.stdout@.len() == 0) && lossy(out.stderr@) == front + words + back
            && all_white(front) && all_white(back) && (words.len() > 0 ==> !is_white_space(words[0])
            && !is_white_space(words.last())) ==> printed_picture(Ok(out)) == Err::<
            Seq<u8>,
            Seq<char>,
        >(complaint("pdftoppm"@, words)),
        printed_picture(Err(e)) == Err::<Seq<u8>, Seq<char>>(complaint("pdftoppm"@, e@)),
{
    if all_white(front) && all_white(back) && (words.len() > 0 ==> !is_white_space(words[0])
        && !is_white_space(words.last())) {
        law_trimmed(front, words, back);
    }
}

/// A picture that fits is turned and changed in no other way, and a complaint is handed
/// on as it is.
pub proof fn law_finished_picture_is_turned(p: Picture, e: Seq<char>, quarter_turns: int)
    ensures
        finished(Ok(p), quarter_turns) == Ok::<Picture, Seq<char>>(p.turned(quarter_turns)),
        p.w <= 8192 && p.h <= 8192 ==> limited(Ok(p)) == Ok::<Picture, Seq<char>>(p),
        finished(Err(e), quarter_turns) == Err::<Picture, Seq<char>>(e),
        limited(Err(e)) == Err::<Picture, Seq<char>>(e),
{
}

/// A picture that fits is turned as its job asks, whatever else the job says and whatever it
/// was printed or read from.
pub proof fn law_pictures_are_turned_as_asked(
    job: JobView,
    p: Picture,
    e: Seq<char>,
    nw: u32,
    nh: u32,
)
    ensures
        p.w <= 8192 && p.h <= 8192 ==> page_picture(job, Ok(p)) == Ok::<Picture, Seq<char>>(
            p.turned(job.quarter_turns as int),
        ),
        p.w <= 8192 && p.h <= 8192 ==> image_picture(job, Ok(p), nw, nh) == Ok::<
            Picture,
            Seq<char>,
        >(p.turned(job.quarter_turns as int)),
        page_picture(job, Err(e)) == Err::<Picture, Seq<char>>(e),
        image_picture(job, Err(e), nw, nh) == Err::<Picture, Seq<char>>(e),
{
}

/// An image that is too large comes out in the size that it is shrunk to, turned: no edge of
/// it, nor of a PDF page, is over 8192 pixels.
pub proof fn law_no_edge_is_too_long(job: JobView, p: Picture, nw: u32, nh: u32)
    requires
        p.wf(),
        p.w <= u32::MAX && p.h <= u32::MAX,
        nw <= 8192 && nh <= 8192,
    ensures
        image_picture(job, Ok(p), nw, nh) matches Ok(q) ==> q.w <= 8192 && q.h <= 8192,
        page_picture(job, Ok(p)) matches Ok(q) ==> q.w <= 8192 && q.h <= 8192,
        p.w > 8192 && job.quarter_turns % 2 == 0 ==> (image_picture(job, Ok(p), nw, nh) matches Ok(q)
            && q.w == nw && q.h == nh),
        p.w > 8192 && job.quarter_turns % 2 == 1 ==> (image_picture(job, Ok(p), nw, nh) matches Ok(q)
            && q.w == nh && q.h == nw),
{
    law_turned_size(fitted(p, nw, nh), job.quarter_turns as int);
    if let Ok(q) = bounded(p) {
        law_turned_size(q, job.quarter_turns as int);
        if p.w > 8192 || p.h > 8192 {
            law_shrunk_picture_keeps_its_proportions(p);
        }
    }
}

/// The page of a job is asked for at its resolution, but none above the cap.
pub proof fn law_job_is_asked_for_at_its_resolution(job: JobView, cap: u32)
    ensures
        job_arguments(job, cap).len() == 7,
        18 <= job.dpi <= cap ==> unsigned(job_arguments(job, cap)[2]) == Some(job.dpi as int),
        1 <= cap <= job.dpi ==> unsigned(job_arguments(job, cap)[2]) == Some(cap as int),
        unsigned(job_arguments(job, cap)[4]) == Some(job.page + 1),
        unsigned(job_arguments(job, cap)[6]) == Some(job.page + 1),
{
    law_one_page_is_asked_for(spec_capped_dpi(job.dpi, cap), job.page);
}

} // verus!
