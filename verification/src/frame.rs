//! What is drawn: the window's title, the pages that are on screen, and the line
//! that tells where the user is.

use vstd::prelude::*;

use crate::collection::paths;
use crate::document::DocumentView;
use crate::path::{file_name, FilePath};
use crate::store::{jobs, Job, JobView, Rendered, StoreView};
use crate::text::{
    after_first, after_prefix, decimal, find, law_decimal_is_plain, law_decimal_reads_back,
    law_first_is_found, law_prefix_comes_off, push_decimal, unsigned, utf8, utf8_text,
};
use crate::viewer::{current_page, find_hit, first_hit, spec_current_page, PreviewApp, ViewerView};

verus! {

/// The resolutions that pages are rendered at. There are few, so that a small
/// change of the zoom does not render every page anew.
pub const DPI_BUCKETS: [u32; 9] = [36, 48, 72, 96, 144, 192, 288, 384, 576];

/// The first resolution that is enough, or the highest if none is.
pub open spec fn spec_pick_dpi(enough: Seq<bool>) -> u32 {
    if first_hit(enough) < 9 {
        DPI_BUCKETS@[first_hit(enough)]
    } else {
        DPI_BUCKETS@[8]
    }
}

/// The first resolution that is enough, or the highest if none is, where
/// `enough` says of each of `DPI_BUCKETS` whether it is.
pub fn pick_dpi(enough: &Vec<bool>) -> (r: u32)
    requires
        enough@.len() == DPI_BUCKETS@.len(),
    ensures
        r == spec_pick_dpi(enough@),
{
    let i: usize = find_hit(enough);
    if i < 9 {
        DPI_BUCKETS[i]
    } else {
        DPI_BUCKETS[8]
    }
}

/// The name of a file as it is shown.
pub open spec fn shown_name(path: Seq<u8>) -> Seq<char> {
    match file_name(path) {
        Some(name) => match utf8(name) {
            Some(text) => text,
            None => "?"@,
        },
        None => "?"@,
    }
}

/// The name of a file as it is shown: a question mark if it has none, or none
/// that is text.
fn name_of(path: &FilePath) -> (r: String)
    ensures
        r@ == shown_name(path@),
{
    match path.file_name() {
        Some(name) => match utf8_text(name.as_slice()) {
            Some(text) => text,
            None => "?".to_string(),
        },
        None => "?".to_string(),
    }
}

/// The text `n/of`, with `n` counted from one.
pub open spec fn place_of(n: usize, of: nat) -> Seq<char> {
    decimal((n + 1) as nat) + "/"@ + decimal(of)
}

/// Writes `n/of`, with `n` counted from one.
fn push_place(out: &mut String, n: usize, of: usize)
    requires
        n < usize::MAX,
    ensures
        final(out)@ == old(out)@ + place_of(n, of as nat),
{
    push_decimal(out, (n + 1) as u64);
    out.append("/");
    push_decimal(out, of as u64);
    assert(out@ =~= old(out)@ + place_of(n, of as nat));
}

impl ViewerView {
    /// The title of the window, with `current` the page in its middle.
    pub open spec fn title(self, current: usize) -> Seq<char> {
        match self.doc {
            Some(d) => if d.pages.len() > 1 {
                shown_name(d.path) + " (page "@ + place_of(current, d.pages.len())
                    + ") — Preview"@
            } else {
                shown_name(d.path) + " — Preview"@
            },
            None => "Preview"@,
        }
    }

    /// Where the user is: at which page of several, else at which file of several.
    pub open spec fn whereabouts(self, current: usize) -> Seq<char> {
        if self.pages() > 1 {
            "   ·   page "@ + place_of(current, self.pages())
        } else if self.files.len() > 1 {
            "   ·   "@ + place_of(self.file_idx, self.files.len())
        } else {
            Seq::empty()
        }
    }

    /// The line over a document: its name, where the user is, and the zoom.
    pub open spec fn hud(self, path: Seq<u8>, current: usize, percent: Seq<char>) -> Seq<char> {
        shown_name(path) + self.whereabouts(current) + "   ·   "@ + percent + "%"@
    }

    /// What is said without a document: why there is none, or how to open one.
    pub open spec fn notice(self) -> Seq<char> {
        match self.error {
            Some(e) => e,
            None => "Press 'o' to open a file"@,
        }
    }
}

/// The pages that are on screen, in their order, where `off_screen` says of each
/// page whether it is not.
pub open spec fn visible(off_screen: Seq<bool>) -> Seq<usize>
    decreases off_screen.len(),
{
    if off_screen.len() == 0 {
        Seq::empty()
    } else if off_screen.last() {
        visible(off_screen.drop_last())
    } else {
        visible(off_screen.drop_last()).push((off_screen.len() - 1) as usize)
    }
}

/// The pages that are on screen are pages, each named once.
proof fn lemma_visible(off_screen: Seq<bool>)
    requires
        off_screen.len() <= usize::MAX,
    ensures
        visible(off_screen).no_duplicates(),
        forall|k: int|
            0 <= k < visible(off_screen).len() ==> (#[trigger] visible(off_screen)[k])
                < off_screen.len(),
    decreases off_screen.len(),
{
    if off_screen.len() > 0 {
        lemma_visible(off_screen.drop_last());
    }
}

/// A page is among those on screen exactly if it is not off screen.
pub proof fn law_visible_pages(off_screen: Seq<bool>, page: usize)
    requires
        off_screen.len() <= usize::MAX,
    ensures
        visible(off_screen).contains(page) <==> page < off_screen.len()
            && !off_screen[page as int],
    decreases off_screen.len(),
{
    if off_screen.len() > 0 {
        let before = visible(off_screen.drop_last());
        let last = (off_screen.len() - 1) as usize;
        law_visible_pages(off_screen.drop_last(), page);
        vstd::seq_lib::lemma_seq_contains_after_push(before, last, page);
    }
}

/// The pages that are on screen.
fn on_screen(off_screen: &Vec<bool>) -> (r: Vec<usize>)
    ensures
        r@ == visible(off_screen@),
{
    let mut r: Vec<usize> = Vec::new();
    let mut i: usize = 0;
    while i < off_screen.len()
        invariant
            i <= off_screen@.len(),
            r@ == visible(off_screen@.take(i as int)),
        decreases off_screen@.len() - i,
    {
        assert(off_screen@.take(i + 1).drop_last() =~= off_screen@.take(i as int));
        if !off_screen[i] {
            r.push(i);
        }
        i += 1;
    }
    assert(off_screen@.take(i as int) =~= off_screen@);
    r
}

/// A page on screen: a white ground, and over it the image of the page, once
/// there is one.
#[derive(Debug, Clone, Copy, PartialEq, Eq, Structural)]
pub struct ShownPage {
    pub page: usize,
    pub image: Option<u32>,
}

/// What is drawn in a frame.
pub enum Frame {
    /// A text, while there is no document.
    Notice(String),
    /// Pages, and the line over them; and the jobs that have to go out.
    Pages { pages: Vec<ShownPage>, jobs: Vec<Job>, hud: String },
}

/// A page beside its image, if it is resident.
pub open spec fn shown_as(page: usize, rendered: Option<Rendered>) -> ShownPage {
    ShownPage {
        page,
        image: match rendered {
            Some(r) => Some(r.image),
            None => None,
        },
    }
}

impl ViewerView {
    /// The viewer once a frame was drawn: every page in sight was asked for.
    pub open spec fn drawn(self, off_screen: Seq<bool>, enough: Seq<bool>) -> ViewerView {
        let store = self.store.next_frame();
        match self.doc {
            Some(d) => ViewerView {
                store: store.all_ensured(d.kind, visible(off_screen), spec_pick_dpi(enough)),
                ..self
            },
            None => ViewerView { store, ..self },
        }
    }

    /// The pages of a frame, each with the image that it is resident as.
    pub open spec fn drawn_pages(self, off_screen: Seq<bool>) -> Seq<ShownPage> {
        visible(off_screen).map_values(|p: usize| shown_as(p, self.store.shown(p)))
    }

    /// The jobs that go out with a frame.
    pub open spec fn drawn_jobs(
        self,
        d: DocumentView,
        off_screen: Seq<bool>,
        enough: Seq<bool>,
    ) -> Seq<JobView> {
        self.store.next_frame().all_jobs(
            d,
            self.quarter_turns,
            visible(off_screen),
            spec_pick_dpi(enough),
        )
    }
}

/// Puts each page beside its image.
fn beside(pages: &Vec<usize>, images: &Vec<Option<Rendered>>) -> (r: Vec<ShownPage>)
    requires
        images@.len() == pages@.len(),
    ensures
        r@ == Seq::new(pages@.len(), |k: int| shown_as(pages@[k], images@[k])),
{
    let mut r: Vec<ShownPage> = Vec::new();
    let mut i: usize = 0;
    while i < pages.len()
        invariant
            i <= pages@.len(),
            images@.len() == pages@.len(),
            r@ == Seq::new(i as nat, |k: int| shown_as(pages@[k], images@[k])),
        decreases pages@.len() - i,
    {
        let image: Option<u32> = match images[i] {
            Some(rendered) => Some(rendered.image),
            None => None,
        };
        r.push(ShownPage { page: pages[i], image });
        i += 1;
        assert(r@ =~= Seq::new(i as nat, |k: int| shown_as(pages@[k], images@[k])));
    }
    r
}

impl PreviewApp {
    /// The title of the window.
    pub fn title(&self, hits: &Vec<bool>) -> (r: String)
        ensures
            r@ == self@.title(spec_current_page(hits@)),
    {
        match &self.doc {
            Some(d) => {
                let mut r = name_of(&d.path);
                if d.pages.len() > 1 {
                    r.append(" (page ");
                    push_place(&mut r, current_page(hits), d.pages.len());
                    r.append(") — Preview");
                } else {
                    r.append(" — Preview");
                }
                assert(r@ =~= self@.title(spec_current_page(hits@)));
                r
            },
            None => "Preview".to_string(),
        }
    }

    /// The line over a document.
    fn hud(&self, path: &FilePath, hits: &Vec<bool>, percent: &str) -> (r: String)
        requires
            self@.wf(),
        ensures
            r@ == self@.hud(path@, spec_current_page(hits@), percent@),
    {
        let mut r = name_of(path);
        assert(paths(self.files@).len() == self.files@.len());
        if self.page_count() > 1 {
            r.append("   ·   page ");
            push_place(&mut r, current_page(hits), self.page_count());
        } else if self.files.len() > 1 {
            r.append("   ·   ");
            push_place(&mut r, self.file_idx, self.files.len());
        }
        assert(r@ =~= shown_name(path@) + self@.whereabouts(spec_current_page(hits@)));
        r.append("   ·   ");
        r.append(percent);
        r.append("%");
        assert(r@ =~= self@.hud(path@, spec_current_page(hits@), percent@));
        r
    }

    /// Begins a frame and says what is drawn in it: `off_screen` says of each
    /// page whether it is out of sight, `enough` of each of `DPI_BUCKETS`
    /// whether it is fine enough for the zoom, and `hits` of each page whether
    /// the middle of the window lies above its end; `percent` is the zoom.
    ///
    /// Every page in sight counts as used, and is asked for if it is not
    /// resident as it should be.
    pub fn display_list(
        &mut self,
        off_screen: &Vec<bool>,
        enough: &Vec<bool>,
        hits: &Vec<bool>,
        percent: &str,
    ) -> (r: Frame)
        requires
            old(self)@.wf(),
            old(self)@.store.frame < u64::MAX,
            off_screen@.len() == old(self)@.pages(),
            enough@.len() == DPI_BUCKETS@.len(),
        ensures
            final(self)@ == old(self)@.drawn(off_screen@, enough@),
            match old(self)@.doc {
                Some(d) => r matches Frame::Pages { pages, jobs: out, hud } && pages@ == old(
                    self,
                )@.drawn_pages(off_screen@) && jobs(out@) == old(self)@.drawn_jobs(
                    d,
                    off_screen@,
                    enough@,
                ) && hud@ == old(self)@.hud(d.path, spec_current_page(hits@), percent@),
                None => r matches Frame::Notice(text) && text@ == old(self)@.notice(),
            },
            final(self)@.wf(),
    {
        self.store.begin_frame();
        match &self.doc {
            Some(doc) => {
                let hud = self.hud(&doc.path, hits, percent);
                let seen = on_screen(off_screen);
                proof {
                    assert(off_screen@.len() == off_screen.len());
                    lemma_visible(off_screen@);
                }
                let (images, out) = self.store.ensure_all(
                    doc,
                    self.quarter_turns,
                    &seen,
                    pick_dpi(enough),
                );
                let pages = beside(&seen, &images);
                proof {
                    let store = old(self)@.store.next_frame();
                    assert forall|p: usize| store.shown(p) == #[trigger] old(self)@.store.shown(p) by {}
                    assert(pages@ =~= old(self)@.drawn_pages(off_screen@));
                }
                Frame::Pages { pages, jobs: out, hud }
            },
            None => match &self.error {
                Some(e) => Frame::Notice(e.clone()),
                None => Frame::Notice("Press 'o' to open a file".to_string()),
            },
        }
    }
}

/// The resolution is the first of these nine that is enough, and the highest of them if
/// none is.
pub proof fn law_resolution_is_the_first_that_is_enough(enough: Seq<bool>, i: int)
    requires
        enough.len() == 9,
        0 <= i < 9,
        forall|k: int| 0 <= k < i ==> !#[trigger] enough[k],
    ensures
        enough[i] ==> spec_pick_dpi(enough) == seq![
            36u32,
            48u32,
            72u32,
            96u32,
            144u32,
            192u32,
            288u32,
            384u32,
            576u32,
        ][i],
        i == 8 ==> spec_pick_dpi(enough) == 576,
{
    if enough[i] {
        crate::viewer::lemma_first_hit(enough, i);
    } else if i == 8 {
        crate::viewer::lemma_first_hit(enough, 9);
    }
    assert(DPI_BUCKETS@ =~= seq![
        36u32,
        48u32,
        72u32,
        96u32,
        144u32,
        192u32,
        288u32,
        384u32,
        576u32,
    ]);
}

/// The name of a file is shown as its bytes read in UTF-8, and as a question mark if
/// they do not, or if there is no name.
pub proof fn law_names_are_shown_as_they_read(path: Seq<u8>, name: Seq<u8>)
    ensures
        file_name(path) == Some(name) && vstd::utf8::valid_utf8(name) ==> shown_name(path)
            == vstd::utf8::decode_utf8(name),
        file_name(path) == Some(name) && !vstd::utf8::valid_utf8(name) ==> shown_name(path)
            == seq!['?'],
        file_name(path) is None ==> shown_name(path) == seq!['?'],
{
    reveal_strlit("?");
    assert("?"@ =~= seq!['?']);
}

/// A place `n/of`, with text behind it, reads as the two numbers, the first counted from
/// one.
proof fn lemma_place_reads(n: usize, of: nat, tail: Seq<char>)
    ensures
        ({
            let rest = place_of(n, of) + tail;
            &&& unsigned(rest.take(find(rest, '/'))) == Some(n + 1)
            &&& after_first(rest, '/') == Some(decimal(of) + tail)
        }),
{
    reveal_strlit("/");
    let front = decimal((n + 1) as nat);
    let rest = place_of(n, of) + tail;
    law_decimal_is_plain((n + 1) as nat);
    law_decimal_reads_back((n + 1) as nat);
    assert(!front.contains('/')) by {
        if front.contains('/') {
            let i = choose|i: int| 0 <= i < front.len() && front[i] == '/';
            assert('0' <= front[i] <= '9');
        }
    }
    assert(rest =~= front.push('/') + (decimal(of) + tail));
    law_first_is_found(front, '/', decimal(of) + tail);
    assert(rest.take(front.len() as int) =~= front);
}

/// The line over a document of one page among several files tells its name, which of the
/// files it is, counted from one, how many there are, and the zoom.
pub proof fn law_line_tells_the_place_among_files(
    viewer: ViewerView,
    path: Seq<u8>,
    current: usize,
    percent: Seq<char>,
)
    requires
        viewer.pages() <= 1,
        viewer.files.len() > 1,
    ensures
        after_prefix(
            viewer.hud(path, current, percent),
            shown_name(path) + "   ·   "@,
        ) matches Some(rest) && unsigned(rest.take(find(rest, '/'))) == Some(viewer.file_idx + 1) && (
        after_first(rest, '/') matches Some(tail) && after_prefix(
            tail,
            decimal(viewer.files.len()) + "   ·   "@,
        ) == Some(percent.push('%'))),
{
    reveal_strlit("%");
    let dot = "   ·   "@;
    let tail = dot + percent.push('%');
    let rest = place_of(viewer.file_idx, viewer.files.len()) + tail;
    assert(viewer.hud(path, current, percent) =~= (shown_name(path) + dot) + rest);
    law_prefix_comes_off(viewer.hud(path, current, percent), shown_name(path) + dot, rest);
    lemma_place_reads(viewer.file_idx, viewer.files.len(), tail);
    let total = decimal(viewer.files.len());
    assert(total + tail =~= (total + dot) + percent.push('%'));
    law_prefix_comes_off(total + tail, total + dot, percent.push('%'));
}

/// The line over a document of several pages tells its name, which page is in the middle
/// of the window, counted from one, how many there are, and the zoom.
pub proof fn law_line_tells_the_page(
    viewer: ViewerView,
    path: Seq<u8>,
    current: usize,
    percent: Seq<char>,
)
    requires
        viewer.pages() > 1,
    ensures
        after_prefix(
            viewer.hud(path, current, percent),
            shown_name(path) + "   ·   page "@,
        ) matches Some(rest) && unsigned(rest.take(find(rest, '/'))) == Some(current + 1) && (
        after_first(rest, '/') matches Some(tail) && after_prefix(
            tail,
            decimal(viewer.pages()) + "   ·   "@,
        ) == Some(percent.push('%'))),
{
    reveal_strlit("%");
    let page = "   ·   page "@;
    let dot = "   ·   "@;
    let tail = dot + percent.push('%');
    let rest = place_of(current, viewer.pages()) + tail;
    assert(viewer.hud(path, current, percent) =~= (shown_name(path) + page) + rest);
    law_prefix_comes_off(viewer.hud(path, current, percent), shown_name(path) + page, rest);
    lemma_place_reads(current, viewer.pages(), tail);
    let total = decimal(viewer.pages());
    assert(total + tail =~= (total + dot) + percent.push('%'));
    law_prefix_comes_off(total + tail, total + dot, percent.push('%'));
}

/// The line over a single page that is browsed alone tells its name and the zoom.
pub proof fn law_line_over_a_single_page(
    viewer: ViewerView,
    path: Seq<u8>,
    current: usize,
    percent: Seq<char>,
)
    requires
        viewer.pages() <= 1,
        viewer.files.len() <= 1,
    ensures
        after_prefix(viewer.hud(path, current, percent), shown_name(path) + "   ·   "@) == Some(
            percent.push('%'),
        ),
{
    reveal_strlit("%");
    let dot = "   ·   "@;
    assert(viewer.hud(path, current, percent) =~= (shown_name(path) + dot) + percent.push('%'));
    law_prefix_comes_off(
        viewer.hud(path, current, percent),
        shown_name(path) + dot,
        percent.push('%'),
    );
}

/// Two viewers that differ in the file that they show of several, or in the page that is in
/// the middle of several, or in the zoom, show different lines.
pub proof fn law_lines_tell_places_apart(
    a: ViewerView,
    b: ViewerView,
    path: Seq<u8>,
    at_a: usize,
    at_b: usize,
    percent_a: Seq<char>,
    percent_b: Seq<char>,
)
    requires
        a.pages() == b.pages(),
        a.files.len() == b.files.len(),
        a.hud(path, at_a, percent_a) == b.hud(path, at_b, percent_b),
    ensures
        a.pages() > 1 ==> at_a == at_b,
        a.pages() <= 1 && a.files.len() > 1 ==> a.file_idx == b.file_idx,
        percent_a == percent_b,
{
    if a.pages() > 1 {
        law_line_tells_the_page(a, path, at_a, percent_a);
        law_line_tells_the_page(b, path, at_b, percent_b);
    } else if a.files.len() > 1 {
        law_line_tells_the_place_among_files(a, path, at_a, percent_a);
        law_line_tells_the_place_among_files(b, path, at_b, percent_b);
    } else {
        law_line_over_a_single_page(a, path, at_a, percent_a);
        law_line_over_a_single_page(b, path, at_b, percent_b);
    }
    assert(percent_a =~= percent_a.push('%').drop_last());
    assert(percent_b =~= percent_b.push('%').drop_last());
}

/// The title tells the name of the document and, of several pages, which is in the middle of
/// the window, counted from one, and how many there are.
pub proof fn law_title_tells_name_and_page(viewer: ViewerView, d: DocumentView, current: usize)
    ensures
        viewer.doc == Some(d) && d.pages.len() > 1 ==> (after_prefix(
            viewer.title(current),
            shown_name(d.path) + " (page "@,
        ) matches Some(rest) && unsigned(rest.take(find(rest, '/'))) == Some(current + 1)
            && after_first(rest, '/') == Some(decimal(d.pages.len()) + ") — Preview"@)),
        viewer.doc == Some(d) && d.pages.len() <= 1 ==> after_prefix(
            viewer.title(current),
            shown_name(d.path),
        ) == Some(" — Preview"@),
        viewer.doc is None ==> viewer.title(current) == "Preview"@,
{
    let page = " (page "@;
    let end = ") — Preview"@;
    let rest = place_of(current, d.pages.len()) + end;
    let long = shown_name(d.path) + page + place_of(current, d.pages.len()) + end;
    assert(long =~= (shown_name(d.path) + page) + rest);
    law_prefix_comes_off(long, shown_name(d.path) + page, rest);
    lemma_place_reads(current, d.pages.len(), end);
    law_prefix_comes_off(
        shown_name(d.path) + " — Preview"@,
        shown_name(d.path),
        " — Preview"@,
    );
}

/// Without a document the reason is shown, or how to open one.
pub proof fn law_notice_tells_the_reason(viewer: ViewerView, e: Seq<char>)
    ensures
        viewer.error == Some(e) ==> viewer.notice() == e,
        viewer.error is None ==> viewer.notice() == "Press 'o' to open a file"@,
{
}

/// The pages in sight come in their order, each once.
pub proof fn law_visible_pages_come_in_order(off_screen: Seq<bool>, j: int, k: int)
    requires
        off_screen.len() <= usize::MAX,
        0 <= j < k < visible(off_screen).len(),
    ensures
        visible(off_screen)[j] < visible(off_screen)[k],
    decreases off_screen.len(),
{
    let before = off_screen.drop_last();
    lemma_visible(before);
    if off_screen.last() || k < visible(off_screen).len() - 1 {
        law_visible_pages_come_in_order(before, j, k);
    } else {
        assert(visible(off_screen)[j] == visible(before)[j]);
    }
}

/// Every page in sight is drawn, in its place, as the image that it is resident as, and
/// without an image if it is not; and no other page is drawn.
pub proof fn law_pages_in_sight_are_drawn(viewer: ViewerView, off_screen: Seq<bool>, page: usize)
    requires
        off_screen.len() <= usize::MAX,
    ensures
        page < off_screen.len() && !off_screen[page as int] ==> viewer.drawn_pages(
            off_screen,
        ).contains(
            ShownPage {
                page,
                image: match viewer.store.shown(page) {
                    Some(r) => Some(r.image),
                    None => None,
                },
            },
        ),
        forall|k: int|
            0 <= k < viewer.drawn_pages(off_screen).len() ==> {
                let drawn = #[trigger] viewer.drawn_pages(off_screen)[k];
                &&& drawn.page < off_screen.len()
                &&& !off_screen[drawn.page as int]
            },
{
    law_visible_pages(off_screen, page);
    let seen = visible(off_screen);
    let f = |p: usize| shown_as(p, viewer.store.shown(p));
    if page < off_screen.len() && !off_screen[page as int] {
        let k = choose|k: int| 0 <= k < seen.len() && seen[k] == page;
        assert(viewer.drawn_pages(off_screen)[k] == f(page));
    }
    assert forall|k: int| 0 <= k < viewer.drawn_pages(off_screen).len() implies {
        let drawn = #[trigger] viewer.drawn_pages(off_screen)[k];
        &&& drawn.page < off_screen.len()
        &&& !off_screen[drawn.page as int]
    } by {
        assert(viewer.drawn_pages(off_screen)[k] == f(seen[k]));
        assert(seen.contains(seen[k]));
        law_visible_pages(off_screen, seen[k]);
    }
}

/// A job goes out for a page exactly if it is in sight and needs one, and every job asks
/// for its page as the document is turned and at the resolution of the frame.
pub proof fn law_jobs_go_out_for_pages_in_sight(
    viewer: ViewerView,
    d: DocumentView,
    off_screen: Seq<bool>,
    enough: Seq<bool>,
    page: usize,
)
    requires
        off_screen.len() <= usize::MAX,
    ensures
        (exists|k: int|
            0 <= k < viewer.drawn_jobs(d, off_screen, enough).len() && (
            #[trigger] viewer.drawn_jobs(d, off_screen, enough)[k]).page == page) <==> (page
            < off_screen.len() && !off_screen[page as int] && viewer.store.asks(
            d.kind,
            page,
            spec_pick_dpi(enough),
        )),
        forall|k: int|
            0 <= k < viewer.drawn_jobs(d, off_screen, enough).len() ==> {
                let job = #[trigger] viewer.drawn_jobs(d, off_screen, enough)[k];
                &&& job.dpi == spec_pick_dpi(enough)
                &&& job.quarter_turns == viewer.quarter_turns
                &&& job.path == d.path
                &&& job.kind == d.kind
                &&& job.size == d.pages[job.page as int]
                &&& job.generation == viewer.store.generation
            },
{
    let seen = visible(off_screen);
    let dpi = spec_pick_dpi(enough);
    let store = viewer.store.next_frame();
    let pred = |p: usize| store.asks(d.kind, p, dpi);
    let f = |p: usize| store.job(d, viewer.quarter_turns, p, dpi);
    let asking = seen.filter(pred);
    let sent = viewer.drawn_jobs(d, off_screen, enough);
    law_visible_pages(off_screen, page);
    assert(store.asks(d.kind, page, dpi) == viewer.store.asks(d.kind, page, dpi));
    assert(sent =~= asking.map_values(f));
    assert forall|k: int| 0 <= k < sent.len() implies #[trigger] sent[k] == f(asking[k]) by {}
    if seen.contains(page) && pred(page) {
        let i = choose|i: int| 0 <= i < seen.len() && seen[i] == page;
        seen.lemma_filter_contains(pred, i);
        let k = choose|k: int| 0 <= k < asking.len() && asking[k] == page;
        assert(sent[k].page == page);
    }
    if exists|k: int| 0 <= k < sent.len() && (#[trigger] sent[k]).page == page {
        let k = choose|k: int| 0 <= k < sent.len() && (#[trigger] sent[k]).page == page;
        assert(asking[k] == page);
        seen.lemma_filter_pred(pred, k);
        assert(asking.contains(page));
        seen.lemma_filter_contains_rev(pred, page);
    }
}

/// A frame that is drawn again as it was sends out no further jobs and draws the same;
/// drawing counts the frame and changes nothing but the store.
pub proof fn law_next_frame_asks_for_nothing_more(
    viewer: ViewerView,
    d: DocumentView,
    off_screen: Seq<bool>,
    enough: Seq<bool>,
    page: usize,
)
    requires
        viewer.doc == Some(d),
        viewer.store.frame < u64::MAX,
    ensures
        viewer.drawn(off_screen, enough).drawn_jobs(d, off_screen, enough) == Seq::<
            JobView,
        >::empty(),
        viewer.drawn(off_screen, enough).store.shown(page) == viewer.store.shown(page),
        viewer.drawn(off_screen, enough).store.frame == viewer.store.frame + 1,
        viewer.drawn(off_screen, enough) == (ViewerView {
            store: viewer.drawn(off_screen, enough).store,
            ..viewer
        }),
{
    let seen = visible(off_screen);
    let dpi = spec_pick_dpi(enough);
    let once = viewer.drawn(off_screen, enough).store;
    let again = once.next_frame();
    let pred = |p: usize| again.asks(d.kind, p, dpi);
    assert forall|k: int| 0 <= k < seen.len() implies !pred(#[trigger] seen[k]) by {
        assert(seen.contains(seen[k]));
    }
    seen.lemma_all_neg_filter_empty(pred);
    assert(viewer.drawn(off_screen, enough).drawn_jobs(d, off_screen, enough) =~= Seq::empty());
}

/// A page that is drawn is used by its frame: it stays when the result for another page is
/// taken in.
pub proof fn law_drawn_pages_stay(
    viewer: ViewerView,
    d: DocumentView,
    off_screen: Seq<bool>,
    enough: Seq<bool>,
    page: usize,
    other: usize,
    generation: u64,
    result: Option<Rendered>,
    after: StoreView,
)
    requires
        viewer.doc == Some(d),
        off_screen.len() <= usize::MAX,
        page < off_screen.len(),
        !off_screen[page as int],
        other != page,
        viewer.drawn(off_screen, enough).store.takes(after, generation, other, result),
    ensures
        after.shown(page) == viewer.store.shown(page),
{
    law_visible_pages(off_screen, page);
    crate::store::law_used_pages_stay(
        viewer.store.next_frame(),
        d.kind,
        visible(off_screen),
        spec_pick_dpi(enough),
        page,
        generation,
        other,
        result,
        after,
    );
}

} // verus!
