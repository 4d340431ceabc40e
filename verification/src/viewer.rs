//! The viewer: which document is open, what is browsed, and how events change
//! what is shown. Zoom and scroll offset are kept beside it by the caller, who
//! is told here what becomes of them.

use vstd::prelude::*;

use crate::collection::{collection_for, collects, paths};
use crate::document::{outcome, Document, DocumentView, Kind, PageSize, Scalar};
use crate::input::{
    meaning, spec_meaning, ElementState, Key, KeyAction, KeyEvent, MouseButton, NamedKey, Point,
};
use crate::path::{is_image, steps, FilePath};
use crate::store::{balanced, times, Job, JobView, PageState, PageStore, Rendered, StoreView};
use crate::text::lossy;
use crate::tool::{complain, complaint};

verus! {

/// What reaches the viewer from outside its window.
#[derive(Debug, Clone, Copy, PartialEq, Eq, Structural)]
pub enum Message {
    /// The result of a job.
    Page { generation: u64, page: usize, result: Option<Rendered> },
    /// The viewer is to close.
    Quit,
}

/// The message that carries the result of a job.
pub open spec fn spec_reply(job: JobView, result: Option<Rendered>) -> Message {
    Message::Page { generation: job.generation, page: job.page, result }
}

/// The message that carries the result of a job.
pub fn reply(job: &Job, result: Option<Rendered>) -> (r: Message)
    ensures
        r == spec_reply(job@, result),
{
    Message::Page { generation: job.generation, page: job.page, result }
}

/// Whether a message changes the frame.
pub open spec fn redraws_for(msg: Message) -> bool {
    msg is Page
}

/// Whether a message closes the viewer.
pub open spec fn closes_for(msg: Message) -> bool {
    msg is Quit
}

/// A file that is to be opened, and whether its directory is to be browsed from
/// then on.
pub struct OpenRequest {
    pub path: FilePath,
    pub rebuild_collection: bool,
}

/// What a viewer that is started with some files browses from the start.
pub open spec fn started_with(args: Seq<Seq<u8>>) -> Seq<Seq<u8>> {
    if args.len() > 1 {
        args
    } else {
        Seq::empty()
    }
}

/// The file that a viewer opens when it is started with some files, and whether its
/// directory is to be browsed.
pub open spec fn opened_first(args: Seq<Seq<u8>>) -> Option<(Seq<u8>, bool)> {
    if args.len() == 0 {
        None
    } else {
        Some((args[0], args.len() == 1))
    }
}

/// The viewer.
pub struct PreviewApp {
    pub store: PageStore,
    pub doc: Option<Document>,
    /// Why the last file could not be opened.
    pub error: Option<String>,
    /// The files that the keys lead through: those the viewer was started with,
    /// or the images beside the opened file.
    pub files: Vec<FilePath>,
    pub file_idx: usize,
    /// Quarter turns clockwise, for the whole document.
    pub quarter_turns: u8,
    /// Whether the page is fitted anew when the window changes its size, which
    /// it is until the user zooms.
    pub fit: bool,
    pub pointer: Point,
    /// Where the pointer was last while it drags.
    pub drag: Option<Point>,
    pub ctrl: bool,
    pub shift: bool,
    /// Whether there was a renderer yet: the first one is the viewer's own, any
    /// later one replaces a renderer that was lost.
    pub seen_renderer: bool,
}

/// The state of the viewer.
#[verifier::ext_equal]
pub struct ViewerView {
    pub store: StoreView,
    pub doc: Option<DocumentView>,
    pub error: Option<Seq<char>>,
    pub files: Seq<Seq<u8>>,
    pub file_idx: usize,
    pub quarter_turns: u8,
    pub fit: bool,
    pub pointer: Point,
    pub drag: Option<Point>,
    pub ctrl: bool,
    pub shift: bool,
    pub seen_renderer: bool,
}

impl View for PreviewApp {
    type V = ViewerView;

    open spec fn view(&self) -> ViewerView {
        ViewerView {
            store: self.store@,
            doc: match self.doc {
                Some(d) => Some(d@),
                None => None,
            },
            error: match self.error {
                Some(e) => Some(e@),
                None => None,
            },
            files: paths(self.files@),
            file_idx: self.file_idx,
            quarter_turns: self.quarter_turns,
            fit: self.fit,
            pointer: self.pointer,
            drag: self.drag,
            ctrl: self.ctrl,
            shift: self.shift,
            seen_renderer: self.seen_renderer,
        }
    }
}

/// What a list holds that came from a list of files.
proof fn lemma_paths(list: Seq<FilePath>)
    ensures
        paths(list).len() == list.len(),
        forall|i: int| 0 <= i < list.len() ==> #[trigger] paths(list)[i] == list[i]@,
{
}

impl ViewerView {
    /// What holds of a viewer at all times: there is an error only without a
    /// document, the place among the files is one of them, and no turn goes
    /// round more than once.
    pub open spec fn wf(self) -> bool {
        &&& self.store.wf()
        &&& self.quarter_turns < 4
        &&& self.files.len() > 0 ==> self.file_idx < self.files.len()
        &&& self.error is Some ==> self.doc is None
    }

    /// The number of pages of the document, none without one.
    pub open spec fn pages(self) -> nat {
        match self.doc {
            Some(d) => d.pages.len(),
            None => 0,
        }
    }

    /// Whether there are files to browse, and no pages to browse instead.
    pub open spec fn file_nav(self) -> bool {
        self.pages() <= 1 && self.files.len() > 1
    }

    /// Whether a key is to browse the files: PageUp and PageDown do so from an
    /// image only, and are for the pages else.
    pub open spec fn browses(self, key: Key) -> bool {
        let paging = key == Key::Named(NamedKey::PageUp) || key == Key::Named(NamedKey::PageDown);
        self.file_nav() && (paging ==> (self.doc matches Some(d) && d.kind is Image))
    }

    /// The viewer before anything happened.
    pub open spec fn fresh(files: Seq<Seq<u8>>) -> ViewerView {
        ViewerView {
            store: StoreView { states: Map::empty(), generation: 0, frame: 0 },
            doc: None,
            error: None,
            files,
            file_idx: 0,
            quarter_turns: 0,
            fit: true,
            pointer: Point { x: Scalar { bits: 0 }, y: Scalar { bits: 0 } },
            drag: None,
            ctrl: false,
            shift: false,
            seen_renderer: false,
        }
    }

    /// The viewer once a file was opened, apart from the files it browses.
    pub open spec fn opened(
        self,
        path: Seq<u8>,
        loaded: Result<DocumentView, Seq<char>>,
    ) -> ViewerView {
        let emptied = ViewerView { store: self.store.emptied(), quarter_turns: 0, ..self };
        match loaded {
            Ok(d) => ViewerView { doc: Some(d), error: None, ..emptied }.fitted(0),
            Err(e) => ViewerView { doc: None, error: Some(complaint(lossy(path), e)), ..emptied },
        }
    }

    /// `after` is this viewer once a file was opened; with a listing of its directory,
    /// that directory is browsed from then on.
    pub open spec fn opens(
        self,
        after: ViewerView,
        path: Seq<u8>,
        loaded: Result<DocumentView, Seq<char>>,
        listing: Option<Seq<Seq<u8>>>,
    ) -> bool {
        &&& after == ViewerView {
            files: after.files,
            file_idx: after.file_idx,
            ..self.opened(path, loaded)
        }
        &&& match listing {
            Some(listing) => collects(path, listing, after.files, after.file_idx as int),
            None => after.files == self.files && after.file_idx == self.file_idx,
        }
    }

    /// The viewer once a page was fitted in the window, if there is that page.
    pub open spec fn fitted(self, page: int) -> ViewerView {
        ViewerView { fit: self.fit || page < self.pages(), ..self }
    }

    /// The page to be fitted, if there is that page.
    pub open spec fn fits(self, page: usize) -> Option<usize> {
        if page < self.pages() {
            Some(page)
        } else {
            None
        }
    }

    /// The viewer once the user zoomed.
    pub open spec fn zoomed(self) -> ViewerView {
        ViewerView { fit: false, ..self }
    }

    /// The size of a page as the document is turned.
    pub open spec fn laid_out(self, page: PageSize) -> PageSize {
        page.spec_rotated(self.quarter_turns as int)
    }

    /// The page that is fitted when a file was opened.
    pub open spec fn fitted_first(self) -> Option<usize> {
        self.fits(0)
    }

    /// The place of the file that is opened a number of steps away, if there is one to
    /// go to.
    pub open spec fn sibling_to_open(self, step: int) -> Option<usize> {
        if self.files.len() < 2 {
            None
        } else {
            Some(self.moved(step).file_idx)
        }
    }

    /// Where the content is dragged from when the pointer moves, if it is.
    pub open spec fn dragged_from(self) -> Option<Point> {
        self.drag
    }

    /// The viewer once the document was turned: no page that was rendered before
    /// is shown any longer.
    pub open spec fn turned(self, quarter_turns_cw: int) -> ViewerView {
        ViewerView {
            quarter_turns: ((self.quarter_turns + quarter_turns_cw) % 4) as u8,
            store: self.store.emptied(),
            ..self
        }
    }

    /// The place among the files that lies a number of steps away, where the
    /// last file and the first are neighbours.
    pub open spec fn sibling(self, step: int) -> int {
        if self.files.len() < 2 {
            self.file_idx as int
        } else {
            (self.file_idx + step) % (self.files.len() as int)
        }
    }

    /// The viewer at that place.
    pub open spec fn moved(self, step: int) -> ViewerView {
        ViewerView { file_idx: self.sibling(step) as usize, ..self }
    }

    /// The page to be fitted anew, if the user has not zoomed.
    pub open spec fn refits(self, hits: Seq<bool>) -> Option<usize> {
        if self.fit {
            self.fits(spec_current_page(hits))
        } else {
            None
        }
    }

    /// What becomes of the view when the window changes its size.
    pub open spec fn resized(self, hits: Seq<bool>) -> Resized {
        if self.fit {
            Resized::Fit(self.refits(hits))
        } else {
            Resized::Clamp
        }
    }

    /// `after` is this viewer once a message was taken in.
    pub open spec fn receives(self, after: ViewerView, msg: Message) -> bool {
        &&& after == ViewerView { store: after.store, ..self }
        &&& match msg {
            Message::Page { generation, page, result } => self.store.takes(
                after.store,
                generation,
                page,
                result,
            ),
            Message::Quit => after.store == self.store,
        }
    }

    /// Whether moving the pointer moves the content.
    pub open spec fn drags(self) -> bool {
        self.drag is Some
    }

    /// The viewer once the user pinched, where `scales` says whether that changes the
    /// zoom.
    pub open spec fn pinched(self, scales: bool) -> ViewerView {
        if scales {
            self.zoomed()
        } else {
            self
        }
    }

    /// The viewer once the pointer moved.
    pub open spec fn pointed(self, pos: Point) -> ViewerView {
        ViewerView {
            pointer: pos,
            drag: if self.drag is Some {
                Some(pos)
            } else {
                None
            },
            ..self
        }
    }

    /// The viewer once a button went down or up.
    pub open spec fn clicked(
        self,
        button: MouseButton,
        state: ElementState,
        pos: Point,
    ) -> ViewerView {
        ViewerView {
            drag: if button is Left {
                if state is Pressed {
                    Some(pos)
                } else {
                    None
                }
            } else {
                self.drag
            },
            ..self
        }
    }

    /// What the wheel does.
    pub open spec fn wheel(self, vertical: bool, dx: Scalar, dy: Scalar) -> Wheel {
        if self.ctrl {
            if vertical {
                Wheel::Zoom
            } else {
                Wheel::Nothing
            }
        } else if self.shift {
            Wheel::Scroll { dx: dy, dy: (Scalar { bits: 0 }) }
        } else {
            Wheel::Scroll { dx, dy }
        }
    }

    /// The viewer once the wheel turned.
    pub open spec fn wheeled(self, vertical: bool) -> ViewerView {
        if self.ctrl && vertical {
            self.zoomed()
        } else {
            self
        }
    }

    /// The viewer with another renderer: where there was one before, its images
    /// are gone.
    pub open spec fn with_renderer(self) -> ViewerView {
        if self.seen_renderer {
            ViewerView { store: self.store.emptied(), ..self }
        } else {
            ViewerView { seen_renderer: true, ..self }
        }
    }
}

/// The position of the first page that the middle of the window lies on, or the
/// number of pages if it lies on none.
pub open spec fn first_hit(hits: Seq<bool>) -> int
    decreases hits.len(),
{
    if hits.len() == 0 || hits[0] {
        0
    } else {
        1 + first_hit(hits.skip(1))
    }
}

/// The page in the middle of the window: the first that the middle lies on, and
/// the last page below all of them.
pub open spec fn spec_current_page(hits: Seq<bool>) -> usize {
    if first_hit(hits) < hits.len() {
        first_hit(hits) as usize
    } else if hits.len() > 0 {
        (hits.len() - 1) as usize
    } else {
        0
    }
}

/// What `first_hit` says.
pub proof fn lemma_first_hit(hits: Seq<bool>, i: int)
    requires
        0 <= i <= hits.len(),
        forall|k: int| 0 <= k < i ==> !#[trigger] hits[k],
        i < hits.len() ==> hits[i],
    ensures
        first_hit(hits) == i,
    decreases hits.len(),
{
    if hits.len() > 0 && !hits[0] {
        lemma_first_hit(hits.skip(1), i - 1);
    }
}

/// The position of the first that is true, or the length of the list.
pub(crate) fn find_hit(hits: &Vec<bool>) -> (r: usize)
    ensures
        r == first_hit(hits@),
        r <= hits@.len(),
{
    let mut i: usize = 0;
    while i < hits.len() && !hits[i]
        invariant
            i <= hits@.len(),
            forall|k: int| 0 <= k < i ==> !#[trigger] hits@[k],
        decreases hits@.len() - i,
    {
        i += 1;
    }
    proof {
        lemma_first_hit(hits@, i as int);
    }
    i
}

/// The page in the middle of the window, where `hits` says of each page whether
/// the middle lies above its end.
pub fn current_page(hits: &Vec<bool>) -> (r: usize)
    ensures
        r == spec_current_page(hits@),
        r < usize::MAX,
{
    let i = find_hit(hits);
    let n: usize = hits.len();
    if i < n {
        i
    } else if n > 0 {
        n - 1
    } else {
        0
    }
}

/// What becomes of the view when the window changes its size.
#[derive(Debug, Clone, Copy, PartialEq, Eq, Structural)]
pub enum Resized {
    /// This page is fitted in the window anew, if there is one.
    Fit(Option<usize>),
    /// The scroll offset is brought back into its range.
    Clamp,
}

impl PreviewApp {
    /// A viewer that was started with these files, and the file that it opens: a
    /// single file together with its neighbours, and of several files the first.
    pub fn new(args: Vec<FilePath>) -> (r: (PreviewApp, Option<OpenRequest>))
        ensures
            r.0@ == ViewerView::fresh(started_with(paths(args@))),
            r.0@.wf(),
            match r.1 {
                Some(request) => opened_first(paths(args@)) == Some(
                    (request.path@, request.rebuild_collection),
                ),
                None => opened_first(paths(args@)) is None,
            },
    {
        proof {
            lemma_paths(args@);
        }
        let mut request: Option<OpenRequest> = None;
        let n: usize = args.len();
        if n > 0 {
            request = Some(OpenRequest { path: args[0].copy(), rebuild_collection: n == 1 });
        }
        let files: Vec<FilePath> = if n > 1 {
            args
        } else {
            Vec::new()
        };
        let origin = Scalar { bits: 0 };
        let app = PreviewApp {
            store: PageStore::new(),
            doc: None,
            error: None,
            files,
            file_idx: 0,
            quarter_turns: 0,
            fit: true,
            pointer: Point { x: origin, y: origin },
            drag: None,
            ctrl: false,
            shift: false,
            seen_renderer: false,
        };
        proof {
            lemma_paths(files@);
            assert(n <= 1 ==> paths(files@) =~= Seq::empty());
        }
        (app, request)
    }

    /// The size of a page as the document is turned.
    pub fn rotated(&self, page: PageSize) -> (r: PageSize)
        ensures
            r == self@.laid_out(page),
    {
        page.rotated(self.quarter_turns)
    }

    /// The number of pages of the document.
    pub fn page_count(&self) -> (r: usize)
        ensures
            r == self@.pages(),
    {
        match &self.doc {
            Some(d) => d.pages.len(),
            None => 0,
        }
    }

    /// Fits a page in the window, if there is that page: the window then shows
    /// the page that is returned from its top.
    pub fn fit_page(&mut self, page: usize) -> (r: Option<usize>)
        ensures
            final(self)@ == old(self)@.fitted(page as int),
            r == old(self)@.fits(page),
    {
        if page < self.page_count() {
            self.fit = true;
            Some(page)
        } else {
            None
        }
    }

    /// The page to scroll to, if there is that page.
    pub fn go_to_page(&self, page: usize) -> (r: Option<usize>)
        ensures
            r == self@.fits(page),
    {
        if page < self.page_count() {
            Some(page)
        } else {
            None
        }
    }

    /// Zooms: from now on the page is not fitted anew.
    pub fn zoom(&mut self)
        ensures
            final(self)@ == old(self)@.zoomed(),
    {
        self.fit = false;
    }

    /// Opens what was loaded of a file, or says why nothing was. With a listing
    /// of its directory, that directory is browsed from then on. Returns the
    /// images that are to be freed, and the page that is to be fitted.
    pub fn open(
        &mut self,
        path: &FilePath,
        loaded: Result<Document, String>,
        listing: Option<Vec<FilePath>>,
    ) -> (r: (Vec<u32>, Option<usize>))
        requires
            old(self)@.store.generation < u64::MAX,
        ensures
            old(self)@.opens(
                final(self)@,
                path@,
                outcome(loaded),
                match listing {
                    Some(listing) => Some(paths(listing@)),
                    None => None,
                },
            ),
            forall|image: u32| times(r.0@, image) == #[trigger] old(self)@.store.copies(image),
            balanced(old(self)@.store, None, final(self)@.store, r.0@),
            r.1 == final(self)@.fitted_first(),
            old(self)@.wf() ==> final(self)@.wf(),
    {
        let freed = self.store.reset();
        self.quarter_turns = 0;
        let mut fitting: Option<usize> = None;
        match loaded {
            Ok(d) => {
                self.error = None;
                self.doc = Some(d);
                fitting = self.fit_page(0);
            },
            Err(e) => {
                self.doc = None;
                self.error = Some(complain(path.display().as_str(), e.as_str()));
            },
        }
        if let Some(listing) = listing {
            let (files, at) = collection_for(path, listing);
            proof {
                lemma_paths(files@);
            }
            self.files = files;
            self.file_idx = at;
        }
        (freed, fitting)
    }

    /// Moves on among the files that are browsed, and returns the place of the
    /// file that is to be opened, if there is more than one.
    pub fn open_sibling(&mut self, step: i64) -> (r: Option<usize>)
        requires
            old(self)@.wf(),
        ensures
            final(self)@ == old(self)@.moved(step as int),
            final(self)@.wf(),
            r == old(self)@.sibling_to_open(step as int),
    {
        proof {
            lemma_paths(self.files@);
        }
        if self.files.len() < 2 {
            return None;
        }
        self.file_idx = step_round(self.file_idx, step, self.files.len());
        Some(self.file_idx)
    }

    /// Turns the document, and returns the images that are to be freed. The
    /// scroll offset is then brought back into its range, and the page fitted
    /// anew as `refit` says.
    pub fn rotate(&mut self, quarter_turns_cw: i8) -> (freed: Vec<u32>)
        requires
            old(self)@.store.generation < u64::MAX,
            old(self)@.quarter_turns + quarter_turns_cw <= i8::MAX,
        ensures
            final(self)@ == old(self)@.turned(quarter_turns_cw as int),
            forall|image: u32| times(freed@, image) == #[trigger] old(self)@.store.copies(image),
            balanced(old(self)@.store, None, final(self)@.store, freed@),
            old(self)@.wf() ==> final(self)@.wf(),
    {
        let sum: i16 = self.quarter_turns as i16 + quarter_turns_cw as i16 + 256;
        self.quarter_turns = (sum as u16 % 4) as u8;
        self.store.reset()
    }

    /// The page to be fitted anew, if the user has not zoomed, where `hits` says
    /// of each page whether the middle of the window lies above its end.
    pub fn refit(&self, hits: &Vec<bool>) -> (r: Option<usize>)
        ensures
            r == self@.refits(hits@),
    {
        if self.fit {
            self.go_to_page(current_page(hits))
        } else {
            None
        }
    }

    /// What becomes of the view when the window changes its size.
    pub fn handle_resize(&self, hits: &Vec<bool>) -> (r: Resized)
        ensures
            r == self@.resized(hits@),
    {
        if self.fit {
            Resized::Fit(self.refit(hits))
        } else {
            Resized::Clamp
        }
    }

    /// Takes a message in, and returns the images that are to be freed.
    pub fn update(&mut self, msg: Message, needs_rebuild: &mut bool, exit: &mut bool) -> (freed:
        Vec<u32>)
        ensures
            old(self)@.receives(final(self)@, msg),
            match msg {
                Message::Page { generation, page, result } => {
                    &&& generation != old(self)@.store.generation ==> freed@ == match result {
                        Some(r) => seq![r.image],
                        None => Seq::empty(),
                    }
                    &&& balanced(old(self)@.store, result, final(self)@.store, freed@)
                },
                Message::Quit => freed@.len() == 0,
            },
            *final(needs_rebuild) == (*old(needs_rebuild) || redraws_for(msg)),
            *final(exit) == (*old(exit) || closes_for(msg)),
            old(self)@.wf() ==> final(self)@.wf(),
    {
        match msg {
            Message::Page { generation, page, result } => {
                *needs_rebuild = true;
                self.store.complete(generation, page, result)
            },
            Message::Quit => {
                *exit = true;
                Vec::new()
            },
        }
    }

    /// Takes note of a renderer, and returns the images that are to be freed.
    ///
    /// The images that a store speaks of belong to a renderer, and none of them
    /// outlives it. So a second renderer finds an empty store, and the pages are
    /// asked for anew; the pages that were asked for before the first renderer
    /// wait for that one.
    pub fn renderer_init(&mut self) -> (freed: Vec<u32>)
        requires
            old(self)@.seen_renderer ==> old(self)@.store.generation < u64::MAX,
        ensures
            final(self)@ == old(self)@.with_renderer(),
            balanced(old(self)@.store, None, final(self)@.store, freed@),
            old(self)@.wf() ==> final(self)@.wf(),
    {
        if self.seen_renderer {
            self.store.reset()
        } else {
            self.seen_renderer = true;
            let freed: Vec<u32> = Vec::new();
            proof {
                freed@.to_multiset_ensures();
            }
            freed
        }
    }
}

/// The place that lies a number of steps from another on a ring of `n` places.
fn step_round(at: usize, step: i64, n: usize) -> (r: usize)
    requires
        at < n,
    ensures
        r == (at + step) % (n as int),
{
    let n: u128 = n as u128;
    let away: u128 = if step >= 0 {
        step as u128 % n
    } else {
        n - (-(step as i128)) as u128 % n
    };
    let r: u128 = (at as u128 + away) % n;
    proof {
        let m = n as int;
        if step >= 0 {
            vstd::arithmetic::div_mod::lemma_add_mod_noop_right(at as int, step as int, m);
        } else {
            let back = -step as int;
            vstd::arithmetic::div_mod::lemma_fundamental_div_mod(back, m);
            vstd::arithmetic::div_mod::lemma_mod_multiples_vanish(
                -(back / m) - 1,
                at + m - back % m,
                m,
            );
            assert(m * (-(back / m) - 1) + (at + m - back % m) == at - back) by (nonlinear_arith)
                requires
                    back == m * (back / m) + back % m,
            ;
        }
    }
    r as usize
}

/// How far a key zooms.
#[derive(Debug, Clone, Copy, PartialEq, Eq, Structural)]
pub enum ZoomStep {
    In,
    Out,
    ActualSize,
}

/// What the caller does with zoom, scroll offset and files after a key.
#[derive(Debug, Clone, Copy, PartialEq, Eq, Structural)]
pub enum Command {
    Nothing,
    /// Zoom about the middle of the window.
    Zoom(ZoomStep),
    /// Fit this page in the window.
    Fit(usize),
    /// Bring the scroll offset back into its range, and fit the page anew as
    /// `refit` says.
    Refit,
    /// Ask the user for a file, and open it together with its neighbours.
    OpenDialog,
    /// Open the file at this place.
    OpenFile(usize),
    ScrollUp,
    ScrollDown,
    /// Scroll by most of the height of the window.
    ScrollWindow,
    /// Scroll to the top of this page.
    ScrollToPage(usize),
}

/// What follows from a key: what the caller does, what the viewer is sent, and
/// which images are to be freed.
pub struct Reaction {
    pub command: Command,
    pub message: Option<Message>,
    pub freed: Vec<u32>,
}

impl ViewerView {
    /// The viewer with the modifiers that a key leaves held. The wheel comes
    /// without modifiers, so they are remembered from the keys.
    pub open spec fn with_modifiers(self, event: KeyEvent) -> ViewerView {
        match event.logical_key {
            Key::Named(NamedKey::Control) => ViewerView { ctrl: event.state is Pressed, ..self },
            Key::Named(NamedKey::Shift) => ViewerView { shift: event.state is Pressed, ..self },
            _ => ViewerView { ctrl: event.ctrl, shift: event.shift, ..self },
        }
    }

    /// What a key asks for: nothing when it goes up.
    pub open spec fn asked(self, event: KeyEvent) -> KeyAction {
        if event.state is Pressed {
            spec_meaning(event.logical_key, self.browses(event.logical_key))
        } else {
            KeyAction::Nothing
        }
    }

    /// The viewer after what a key asked for, with `current` the page in the
    /// middle of the window.
    pub open spec fn acted(self, action: KeyAction, current: usize) -> ViewerView {
        match action {
            KeyAction::ZoomIn | KeyAction::ZoomOut | KeyAction::ActualSize => self.zoomed(),
            KeyAction::FitPage => self.fitted(current as int),
            KeyAction::TurnRight => self.turned(1),
            KeyAction::TurnLeft => self.turned(-1),
            KeyAction::PreviousFile => self.moved(-1),
            KeyAction::NextFile => self.moved(1),
            _ => self,
        }
    }

    /// The last page, or the place of the first if there is none.
    pub open spec fn last_page(self) -> usize {
        if self.pages() > 0 {
            (self.pages() - 1) as usize
        } else {
            0
        }
    }

    /// The page before another, which for the first page is that page itself.
    pub open spec fn page_before(self, page: usize) -> usize {
        if page > 0 {
            (page - 1) as usize
        } else {
            0
        }
    }

    /// The page after another, which for the last page is that page itself.
    pub open spec fn page_after(self, page: usize) -> usize {
        if page < self.last_page() {
            (page + 1) as usize
        } else {
            self.last_page()
        }
    }

    /// The command to scroll to a page, if there is that page.
    pub open spec fn scroll_to(self, page: usize) -> Command {
        match self.fits(page) {
            Some(page) => Command::ScrollToPage(page),
            None => Command::Nothing,
        }
    }

    /// What the caller does after what a key asked for, with `current` the page
    /// in the middle of the window.
    pub open spec fn command(self, action: KeyAction, current: usize) -> Command {
        match action {
            KeyAction::ZoomIn => Command::Zoom(ZoomStep::In),
            KeyAction::ZoomOut => Command::Zoom(ZoomStep::Out),
            KeyAction::ActualSize => Command::Zoom(ZoomStep::ActualSize),
            KeyAction::FitPage => match self.fits(current) {
                Some(page) => Command::Fit(page),
                None => Command::Nothing,
            },
            KeyAction::TurnRight | KeyAction::TurnLeft => Command::Refit,
            KeyAction::OpenDialog => Command::OpenDialog,
            KeyAction::PreviousFile => Command::OpenFile(self.sibling(-1) as usize),
            KeyAction::NextFile => Command::OpenFile(self.sibling(1) as usize),
            KeyAction::ScrollUp => Command::ScrollUp,
            KeyAction::ScrollDown => Command::ScrollDown,
            KeyAction::ScrollWindow => Command::ScrollWindow,
            KeyAction::PreviousPage => self.scroll_to(self.page_before(current)),
            KeyAction::NextPage => self.scroll_to(self.page_after(current)),
            KeyAction::FirstPage => self.scroll_to(0),
            KeyAction::LastPage => self.scroll_to(self.last_page()),
            KeyAction::Quit | KeyAction::Nothing => Command::Nothing,
        }
    }

    /// The viewer after a key, with `current` the page in the middle of the window.
    pub open spec fn keyed(self, event: KeyEvent, current: usize) -> ViewerView {
        self.with_modifiers(event).acted(self.asked(event), current)
    }

    /// What the caller does after a key, with `current` the page in the middle of the
    /// window.
    pub open spec fn commanded(self, event: KeyEvent, current: usize) -> Command {
        self.command(self.asked(event), current)
    }

    /// What the viewer is sent for what a key asked for.
    pub open spec fn sends(action: KeyAction) -> Option<Message> {
        if action is Quit {
            Some(Message::Quit)
        } else {
            None
        }
    }

    /// Whether what a key asked for changes the frame.
    pub open spec fn redraws(action: KeyAction) -> bool {
        !(action is Nothing) && !(action is Quit)
    }
}

/// What the wheel does.
#[derive(Debug, Clone, Copy, PartialEq, Eq, Structural)]
pub enum Wheel {
    Nothing,
    /// Zoom about the pointer.
    Zoom,
    /// Scroll by this much.
    Scroll { dx: Scalar, dy: Scalar },
}

impl PreviewApp {
    /// The command to scroll to a page.
    fn scroll_to(&self, page: usize) -> (r: Command)
        ensures
            r == self@.scroll_to(page),
    {
        match self.go_to_page(page) {
            Some(page) => Command::ScrollToPage(page),
            None => Command::Nothing,
        }
    }

    /// The last page.
    fn last_page(&self) -> (r: usize)
        ensures
            r == self@.last_page(),
    {
        let n: usize = self.page_count();
        if n > 0 {
            n - 1
        } else {
            0
        }
    }

    /// Whether a key is to browse the files.
    fn browses(&self, key: &Key) -> (r: bool)
        ensures
            r == self@.browses(*key),
    {
        proof {
            lemma_paths(self.files@);
        }
        let file_nav = self.page_count() <= 1 && self.files.len() > 1;
        match key {
            Key::Named(NamedKey::PageUp) | Key::Named(NamedKey::PageDown) => match &self.doc {
                Some(d) => file_nav && d.kind == Kind::Image,
                None => false,
            },
            _ => file_nav,
        }
    }

    /// Takes note of the modifiers that a key leaves held.
    fn track_modifiers(&mut self, event: &KeyEvent)
        ensures
            final(self)@ == old(self)@.with_modifiers(*event),
    {
        let pressed = event.state == ElementState::Pressed;
        match event.logical_key {
            Key::Named(NamedKey::Control) => {
                self.ctrl = pressed;
            },
            Key::Named(NamedKey::Shift) => {
                self.shift = pressed;
            },
            _ => {
                self.ctrl = event.ctrl;
                self.shift = event.shift;
            },
        }
    }

    /// Does what a key asks for, where `hits` says of each page whether the
    /// middle of the window lies above its end.
    pub fn handle_key_input(
        &mut self,
        event: &KeyEvent,
        hits: &Vec<bool>,
        needs_rebuild: &mut bool,
    ) -> (r: Reaction)
        requires
            old(self)@.wf(),
            old(self)@.asked(*event) is TurnRight || old(self)@.asked(*event) is TurnLeft ==> old(
                self,
            )@.store.generation < u64::MAX,
        ensures
            final(self)@ == old(self)@.keyed(*event, spec_current_page(hits@)),
            r.command == old(self)@.commanded(*event, spec_current_page(hits@)),
            r.message == ViewerView::sends(old(self)@.asked(*event)),
            balanced(old(self)@.store, None, final(self)@.store, r.freed@),
            *final(needs_rebuild) == (*old(needs_rebuild) || ViewerView::redraws(
                old(self)@.asked(*event),
            )),
            final(self)@.wf(),
    {
        self.track_modifiers(event);
        let action = if event.state == ElementState::Pressed {
            meaning(&event.logical_key, self.browses(&event.logical_key))
        } else {
            KeyAction::Nothing
        };
        let current: usize = current_page(hits);
        let mut message: Option<Message> = None;
        let mut freed: Vec<u32> = Vec::new();
        proof {
            freed@.to_multiset_ensures();
        }
        let command = match action {
            KeyAction::ZoomIn => {
                self.zoom();
                Command::Zoom(ZoomStep::In)
            },
            KeyAction::ZoomOut => {
                self.zoom();
                Command::Zoom(ZoomStep::Out)
            },
            KeyAction::ActualSize => {
                self.zoom();
                Command::Zoom(ZoomStep::ActualSize)
            },
            KeyAction::FitPage => match self.fit_page(current) {
                Some(page) => Command::Fit(page),
                None => Command::Nothing,
            },
            KeyAction::TurnRight => {
                freed = self.rotate(1);
                Command::Refit
            },
            KeyAction::TurnLeft => {
                freed = self.rotate(-1);
                Command::Refit
            },
            KeyAction::OpenDialog => Command::OpenDialog,
            KeyAction::PreviousFile => match self.open_sibling(-1) {
                Some(at) => Command::OpenFile(at),
                None => Command::Nothing,
            },
            KeyAction::NextFile => match self.open_sibling(1) {
                Some(at) => Command::OpenFile(at),
                None => Command::Nothing,
            },
            KeyAction::ScrollUp => Command::ScrollUp,
            KeyAction::ScrollDown => Command::ScrollDown,
            KeyAction::ScrollWindow => Command::ScrollWindow,
            KeyAction::PreviousPage => self.scroll_to(
                if current > 0 {
                    current - 1
                } else {
                    0
                },
            ),
            KeyAction::NextPage => {
                let last = self.last_page();
                self.scroll_to(
                    if current < last {
                        current + 1
                    } else {
                        last
                    },
                )
            },
            KeyAction::FirstPage => self.scroll_to(0),
            KeyAction::LastPage => self.scroll_to(self.last_page()),
            KeyAction::Quit => {
                message = Some(Message::Quit);
                Command::Nothing
            },
            KeyAction::Nothing => Command::Nothing,
        };
        if action != KeyAction::Nothing && action != KeyAction::Quit {
            *needs_rebuild = true;
        }
        Reaction { command, message, freed }
    }

    /// Follows the pointer. While it drags, returns where it was before: the
    /// caller scrolls by the way from there.
    pub fn handle_pointer_move(&mut self, pos: Point, needs_rebuild: &mut bool) -> (r: Option<Point>)
        ensures
            final(self)@ == old(self)@.pointed(pos),
            r == old(self)@.dragged_from(),
            *final(needs_rebuild) == (*old(needs_rebuild) || old(self)@.drags()),
    {
        let from = self.drag;
        if let Some(last) = from {
            self.drag = Some(pos);
            *needs_rebuild = true;
        }
        self.pointer = pos;
        from
    }

    /// Begins to drag where the left button goes down, and ends where it goes up.
    pub fn handle_mouse_input(&mut self, button: MouseButton, state: ElementState, pos: Point)
        ensures
            final(self)@ == old(self)@.clicked(button, state, pos),
    {
        if button == MouseButton::Left {
            self.drag = match state {
                ElementState::Pressed => Some(pos),
                ElementState::Released => None,
            };
        }
    }

    /// Turns the wheel, whose way in pixels is `dx` and `dy` and whose vertical
    /// way is none unless `vertical`: with control held it zooms, and else it
    /// scrolls, to the side while shift is held.
    pub fn handle_mouse_wheel(
        &mut self,
        vertical: bool,
        dx: Scalar,
        dy: Scalar,
        needs_rebuild: &mut bool,
    ) -> (r: Wheel)
        ensures
            final(self)@ == old(self)@.wheeled(vertical),
            r == old(self)@.wheel(vertical, dx, dy),
            *final(needs_rebuild) == (*old(needs_rebuild) || old(self)@.wheel(vertical, dx, dy)
                is Zoom),
    {
        if self.ctrl {
            if vertical {
                self.zoom();
                *needs_rebuild = true;
                return Wheel::Zoom;
            }
            return Wheel::Nothing;
        }
        if self.shift {
            Wheel::Scroll { dx: dy, dy: Scalar { bits: 0 } }
        } else {
            Wheel::Scroll { dx, dy }
        }
    }

    /// Pinches, where `scales` says whether that changes the zoom at all, and
    /// returns whether the caller zooms.
    pub fn handle_pinch(&mut self, scales: bool, needs_rebuild: &mut bool) -> (r: bool)
        ensures
            final(self)@ == old(self)@.pinched(scales),
            r == scales,
            *final(needs_rebuild) == (*old(needs_rebuild) || scales),
    {
        if scales {
            self.zoom();
            *needs_rebuild = true;
        }
        scales
    }
}

/// The files lie on a ring: steps add up, a step and its opposite lead back, and
/// so does going round once.
pub proof fn law_siblings_form_a_ring(viewer: ViewerView, first: int, second: int)
    requires
        viewer.wf(),
        viewer.files.len() <= usize::MAX,
    ensures
        viewer.moved(first).moved(second) == viewer.moved(first + second),
        viewer.moved(first).moved(-first) == viewer,
        viewer.moved(viewer.files.len() as int) == viewer,
        viewer.moved(first).wf(),
{
    let n = viewer.files.len() as int;
    let at = viewer.file_idx as int;
    if n >= 2 {
        vstd::arithmetic::div_mod::lemma_add_mod_noop(at + first, second, n);
        vstd::arithmetic::div_mod::lemma_add_mod_noop((at + first) % n, second, n);
        vstd::arithmetic::div_mod::lemma_mod_twice(at + first, n);
        vstd::arithmetic::div_mod::lemma_add_mod_noop(at + first, -first, n);
        vstd::arithmetic::div_mod::lemma_add_mod_noop((at + first) % n, -first, n);
        vstd::arithmetic::div_mod::lemma_small_mod(at as nat, n as nat);
        vstd::arithmetic::div_mod::lemma_mod_add_multiples_vanish(at, n);
    }
}

/// The next file is another file.
pub proof fn law_next_file_is_another(viewer: ViewerView)
    requires
        viewer.wf(),
        2 <= viewer.files.len() <= usize::MAX,
    ensures
        viewer.moved(1).file_idx != viewer.file_idx,
        viewer.moved(-1).file_idx != viewer.file_idx,
{
    let n = viewer.files.len() as int;
    let at = viewer.file_idx as int;
    if at + 1 < n {
        vstd::arithmetic::div_mod::lemma_small_mod((at + 1) as nat, n as nat);
    } else {
        vstd::arithmetic::div_mod::lemma_mod_self_0(n);
    }
    if at > 0 {
        vstd::arithmetic::div_mod::lemma_small_mod((at - 1) as nat, n as nat);
    } else {
        vstd::arithmetic::div_mod::lemma_mod_add_multiples_vanish(-1, n);
        vstd::arithmetic::div_mod::lemma_small_mod((n - 1) as nat, n as nat);
    }
}

/// Turns add up, a turn and its opposite lead back, and so do four turns; each of
/// them empties the store and counts that, so that what was rendered for another
/// turn is not shown, and leaves everything else as it was.
pub proof fn law_turns_of_the_document(viewer: ViewerView, first: int, second: int)
    requires
        viewer.wf(),
        viewer.store.generation + 2 <= u64::MAX,
    ensures
        viewer.turned(first).quarter_turns == (viewer.quarter_turns + first) % 4,
        viewer.turned(first).quarter_turns < 4,
        viewer.turned(first).turned(second).quarter_turns == viewer.turned(
            first + second,
        ).quarter_turns,
        viewer.turned(4).quarter_turns == viewer.quarter_turns,
        viewer.turned(first).store.states == Map::<usize, PageState>::empty(),
        viewer.turned(first).store.generation == viewer.store.generation + 1,
        viewer.turned(first).fit == viewer.fit,
        viewer.turned(first).turned(-first) == (ViewerView {
            store: viewer.store.emptied().emptied(),
            ..viewer
        }),
        viewer.turned(first).turned(-first).store.generation == viewer.store.generation + 2,
        viewer.turned(first).wf(),
{
}

/// The layout of a turned document agrees with its pixels: where the picture of a
/// page trades its width for its height, so does the page.
pub proof fn law_layout_and_pixels_agree(
    viewer: ViewerView,
    size: PageSize,
    picture: crate::raster::Picture,
)
    ensures
        viewer.quarter_turns % 2 == 1 ==> {
            &&& viewer.laid_out(size).w == size.h
            &&& viewer.laid_out(size).h == size.w
            &&& picture.turned(viewer.quarter_turns as int).w == picture.h
            &&& picture.turned(viewer.quarter_turns as int).h == picture.w
        },
        viewer.quarter_turns % 2 == 0 ==> {
            &&& viewer.laid_out(size) == size
            &&& picture.turned(viewer.quarter_turns as int).w == picture.w
            &&& picture.turned(viewer.quarter_turns as int).h == picture.h
        },
{
    crate::raster::law_turned_size(picture, viewer.quarter_turns as int);
}

/// When the renderer is replaced, no page is shown any longer, and the next frame
/// asks for every page that is on screen.
pub proof fn law_replaced_renderer_gets_every_page(
    viewer: ViewerView,
    doc: DocumentView,
    pages: Seq<usize>,
    want_dpi: u32,
)
    requires
        viewer.seen_renderer,
    ensures
        forall|page: usize| #[trigger] viewer.with_renderer().store.shown(page) is None,
        viewer.with_renderer().store.next_frame().all_jobs(
            doc,
            viewer.quarter_turns,
            pages,
            want_dpi,
        ) == pages.map_values(
            |p: usize|
                viewer.with_renderer().store.next_frame().job(
                    doc,
                    viewer.quarter_turns,
                    p,
                    want_dpi,
                ),
        ),
{
    let store = viewer.store.next_frame();
    crate::store::law_emptied_store_starts_over(
        store,
        doc,
        viewer.quarter_turns,
        pages,
        want_dpi,
    );
    assert(store.emptied() == viewer.with_renderer().store.next_frame());
}

/// When the renderer is replaced, a page that was asked for before is not shown
/// when its result arrives, however late.
pub proof fn law_replaced_renderer_drops_old_results(
    viewer: ViewerView,
    doc: DocumentView,
    page: usize,
    want_dpi: u32,
    later: StoreView,
    result: Option<Rendered>,
    after: StoreView,
)
    requires
        viewer.seen_renderer,
        viewer.store.generation < u64::MAX,
        later.generation >= viewer.with_renderer().store.generation,
        later.takes(
            after,
            viewer.store.job(doc, viewer.quarter_turns, page, want_dpi).generation,
            page,
            result,
        ),
    ensures
        after == later,
{
}

/// The first renderer finds what was asked for before it came.
pub proof fn law_first_renderer_keeps_pages(viewer: ViewerView)
    requires
        !viewer.seen_renderer,
    ensures
        viewer.with_renderer().store == viewer.store,
        viewer.with_renderer().seen_renderer,
{
}

/// A file that was opened is either shown or complained of, never both; what was
/// open before is no longer shown, and its turn is forgotten.
pub proof fn law_opened_file_is_shown_or_complained_of(
    viewer: ViewerView,
    path: Seq<u8>,
    loaded: Result<DocumentView, Seq<char>>,
)
    ensures
        viewer.opened(path, loaded).doc == match loaded {
            Ok(d) => Some(d),
            Err(_) => None,
        },
        viewer.opened(path, loaded).error is Some <==> loaded is Err,
        viewer.opened(path, loaded).quarter_turns == 0,
        forall|page: usize| #[trigger] viewer.opened(path, loaded).store.shown(page) is None,
{
}

/// Once the user zoomed, no key lets the page be fitted anew but the one that
/// asks for it.
pub proof fn law_zoom_ends_fitting(viewer: ViewerView, action: KeyAction, current: usize)
    ensures
        action is ZoomIn || action is ZoomOut || action is ActualSize ==> !viewer.acted(
            action,
            current,
        ).fit,
        !viewer.fit && !(action is FitPage) ==> !viewer.acted(action, current).fit,
        action is FitPage && current < viewer.pages() ==> viewer.acted(action, current).fit,
{
}

/// The keys that lead from page to page stay within the document, and one leads
/// back from where the other led.
pub proof fn law_page_keys_stay_in_the_document(
    viewer: ViewerView,
    action: KeyAction,
    current: usize,
    page: usize,
)
    requires
        viewer.pages() <= usize::MAX,
    ensures
        viewer.command(action, current) == Command::ScrollToPage(page) ==> page < viewer.pages(),
        viewer.page_after(current) < viewer.pages() || viewer.pages() == 0,
        current < viewer.last_page() ==> viewer.page_before(viewer.page_after(current)) == current,
        0 < current <= viewer.last_page() ==> viewer.page_after(viewer.page_before(current))
            == current,
{
}

/// The arrows to the sides lead through the files where there are several of them
/// and at most one page, and PageUp and PageDown do so from an image; else these
/// keys lead through the pages.
pub proof fn law_keys_lead_through_pages_or_files(
    viewer: ViewerView,
    event: KeyEvent,
    name: NamedKey,
    current: usize,
)
    requires
        event.state is Pressed,
        event.logical_key == Key::Named(name),
    ensures
        name is ArrowLeft || name is ArrowRight ==> viewer.browses(event.logical_key)
            == viewer.file_nav(),
        name is PageUp || name is PageDown ==> viewer.browses(event.logical_key) == (
        viewer.file_nav() && (viewer.doc matches Some(d) && d.kind is Image)),
        name is ArrowRight || name is PageDown ==> if viewer.browses(event.logical_key) {
            &&& viewer.asked(event) is NextFile
            &&& viewer.acted(viewer.asked(event), current) == viewer.moved(1)
        } else {
            &&& viewer.asked(event) is NextPage
            &&& viewer.acted(viewer.asked(event), current) == viewer
        },
        name is ArrowLeft || name is PageUp ==> if viewer.browses(event.logical_key) {
            &&& viewer.asked(event) is PreviousFile
            &&& viewer.acted(viewer.asked(event), current) == viewer.moved(-1)
        } else {
            &&& viewer.asked(event) is PreviousPage
            &&& viewer.acted(viewer.asked(event), current) == viewer
        },
{
}

/// A viewer starts with nothing open: without a file it waits, a single file it opens
/// together with its neighbours, and of several files it opens the first and browses
/// those and no others.
pub proof fn law_viewer_starts_with_its_files(args: Seq<Seq<u8>>)
    ensures
        args.len() == 0 ==> opened_first(args) is None,
        args.len() == 1 ==> opened_first(args) == Some((args[0], true)),
        args.len() > 1 ==> opened_first(args) == Some((args[0], false)) && started_with(args) == args,
        args.len() <= 1 ==> started_with(args).len() == 0,
        ({
            let viewer = ViewerView::fresh(started_with(args));
            &&& viewer.doc is None
            &&& viewer.error is None
            &&& viewer.file_idx == 0
            &&& viewer.quarter_turns == 0
            &&& viewer.fit
            &&& viewer.drag is None
            &&& !viewer.ctrl && !viewer.shift && !viewer.seen_renderer
            &&& viewer.files == started_with(args)
            &&& forall|page: usize| !#[trigger] viewer.store.states.contains_key(page)
            &&& viewer.store.generation == 0
            &&& viewer.store.frame == 0
        }),
{
}

/// The page in the middle of the window is the first whose end lies below the middle;
/// below all of them it is the last.
pub proof fn law_current_page_is_the_first_below(hits: Seq<bool>, page: int)
    requires
        hits.len() <= usize::MAX,
        0 <= page < hits.len(),
    ensures
        hits[page] && (forall|k: int| 0 <= k < page ==> !#[trigger] hits[k]) ==> spec_current_page(
            hits,
        ) == page,
        (forall|k: int| 0 <= k < hits.len() ==> !#[trigger] hits[k]) ==> spec_current_page(hits)
            == hits.len() - 1,
        spec_current_page(hits) < hits.len(),
        spec_current_page(Seq::empty()) == 0,
{
    if hits[page] && (forall|k: int| 0 <= k < page ==> !#[trigger] hits[k]) {
        lemma_first_hit(hits, page);
    }
    if forall|k: int| 0 <= k < hits.len() ==> !#[trigger] hits[k] {
        lemma_first_hit(hits, hits.len() as int);
    }
    lemma_first_hit_bounds(hits);
}

/// The first hit lies within the list or at its end.
proof fn lemma_first_hit_bounds(hits: Seq<bool>)
    ensures
        0 <= first_hit(hits) <= hits.len(),
        first_hit(hits) < hits.len() ==> hits[first_hit(hits)],
        forall|k: int| 0 <= k < first_hit(hits) ==> !#[trigger] hits[k],
    decreases hits.len(),
{
    if hits.len() > 0 && !hits[0] {
        lemma_first_hit_bounds(hits.skip(1));
        assert forall|k: int| 0 <= k < first_hit(hits) implies !#[trigger] hits[k] by {
            if k > 0 {
                assert(hits.skip(1)[k - 1] == hits[k]);
            }
        }
    }
}

/// A page of the document can be fitted and scrolled to, and no other; fitting one lets
/// it be fitted anew, and changes nothing else.
pub proof fn law_only_pages_of_the_document_are_fitted(viewer: ViewerView, page: usize)
    ensures
        page < viewer.pages() ==> viewer.fits(page) == Some(page) && viewer.fitted(page as int)
            == (ViewerView { fit: true, ..viewer }),
        page >= viewer.pages() ==> viewer.fits(page) is None && viewer.fitted(page as int) == viewer,
        viewer.doc matches Some(d) ==> viewer.pages() == d.pages.len(),
        viewer.doc is None ==> viewer.pages() == 0,
{
}

/// When the window changes its size, the page in its middle is fitted anew until the user
/// zooms; from then on the scroll offset alone is brought back.
pub proof fn law_resizing_fits_until_the_user_zooms(viewer: ViewerView, hits: Seq<bool>)
    requires
        hits.len() == viewer.pages(),
        0 < hits.len() <= usize::MAX,
    ensures
        viewer.fit ==> viewer.resized(hits) == Resized::Fit(Some(spec_current_page(hits)))
            && viewer.refits(hits) == Some(spec_current_page(hits)),
        !viewer.fit ==> viewer.resized(hits) is Clamp && viewer.refits(hits) is None,
        viewer.zoomed().resized(hits) is Clamp,
        viewer.zoomed() == (ViewerView { fit: false, ..viewer }),
{
    lemma_first_hit_bounds(hits);
}

/// What a pressed key asks for does not depend on the modifiers that are held; a key
/// that goes up asks for nothing.
pub proof fn law_modifiers_do_not_change_what_a_key_asks_for(
    viewer: ViewerView,
    a: KeyEvent,
    b: KeyEvent,
)
    requires
        a.logical_key == b.logical_key,
    ensures
        a.state is Pressed && b.state is Pressed ==> viewer.asked(a) == viewer.asked(b),
        a.state is Released ==> viewer.asked(a) is Nothing,
        viewer.with_modifiers(b).asked(a) == viewer.asked(a),
{
}

/// What a key that writes something asks for, whatever is shown and whatever is held.
pub proof fn law_written_keys(viewer: ViewerView, event: KeyEvent, text: String)
    requires
        event.state is Pressed,
        event.logical_key == Key::Character(text),
    ensures
        viewer.asked(event) is ZoomIn <==> text@ == "+"@ || text@ == "="@,
        viewer.asked(event) is ZoomOut <==> text@ == "-"@,
        viewer.asked(event) is FitPage <==> text@ == "0"@,
        viewer.asked(event) is ActualSize <==> text@ == "1"@,
        viewer.asked(event) is TurnRight <==> text@ == "r"@ || text@ == "R"@,
        viewer.asked(event) is TurnLeft <==> text@ == "l"@ || text@ == "L"@,
        viewer.asked(event) is OpenDialog <==> text@ == "o"@,
        viewer.asked(event) is Quit <==> text@ == "q"@,
        !(viewer.asked(event) is ZoomIn || viewer.asked(event) is ZoomOut || viewer.asked(
            event,
        ) is FitPage || viewer.asked(event) is ActualSize || viewer.asked(event) is TurnRight
            || viewer.asked(event) is TurnLeft || viewer.asked(event) is OpenDialog || viewer.asked(
            event,
        ) is Quit) ==> viewer.asked(event) is Nothing,
{
    reveal_strlit("+");
    reveal_strlit("=");
    reveal_strlit("-");
    reveal_strlit("0");
    reveal_strlit("1");
    reveal_strlit("r");
    reveal_strlit("R");
    reveal_strlit("l");
    reveal_strlit("L");
    reveal_strlit("o");
    reveal_strlit("q");
    if text@.len() == 1 {
        let c = text@[0];
        assert(text@ =~= seq![c]);
        assert("+"@ =~= seq!['+'] && "="@ =~= seq!['='] && "-"@ =~= seq!['-'] && "0"@ =~= seq!['0']
            && "1"@ =~= seq!['1'] && "r"@ =~= seq!['r'] && "R"@ =~= seq!['R'] && "l"@ =~= seq!['l']
            && "L"@ =~= seq!['L'] && "o"@ =~= seq!['o'] && "q"@ =~= seq!['q']);
        assert(seq![c][0] == c);
        assert(seq!['+'][0] == '+' && seq!['='][0] == '=' && seq!['-'][0] == '-' && seq!['0'][0]
            == '0' && seq!['1'][0] == '1' && seq!['r'][0] == 'r' && seq!['R'][0] == 'R'
            && seq!['l'][0] == 'l' && seq!['L'][0] == 'L' && seq!['o'][0] == 'o' && seq!['q'][0]
            == 'q');
    }
}

/// What the keys ask for that scroll or lead to either end, whatever is shown and
/// whatever is held; every other named key that does not lead through pages or files
/// asks for nothing.
pub proof fn law_named_keys(viewer: ViewerView, event: KeyEvent, name: NamedKey)
    requires
        event.state is Pressed,
        event.logical_key == Key::Named(name),
    ensures
        viewer.asked(event) is ScrollUp <==> name is ArrowUp,
        viewer.asked(event) is ScrollDown <==> name is ArrowDown,
        viewer.asked(event) is ScrollWindow <==> name is Space,
        viewer.asked(event) is FirstPage <==> name is Home,
        viewer.asked(event) is LastPage <==> name is End,
        name is Control || name is Shift || name is Other ==> viewer.asked(event) is Nothing,
{
}

/// A key that neither writes nor has a name asks for nothing.
pub proof fn law_other_keys_ask_for_nothing(viewer: ViewerView, event: KeyEvent)
    requires
        event.logical_key is Other,
    ensures
        viewer.asked(event) is Nothing,
{
}

/// Control and shift are held from when they go down until they go up, as their own keys
/// say, and as any other key says that comes meanwhile; nothing else changes.
pub proof fn law_modifiers_are_tracked(viewer: ViewerView, event: KeyEvent)
    ensures
        event.logical_key == Key::Named(NamedKey::Control) ==> viewer.with_modifiers(event) == (
        ViewerView { ctrl: event.state is Pressed, ..viewer }),
        event.logical_key == Key::Named(NamedKey::Shift) ==> viewer.with_modifiers(event) == (
        ViewerView { shift: event.state is Pressed, ..viewer }),
        event.logical_key != Key::Named(NamedKey::Control) && event.logical_key != Key::Named(
            NamedKey::Shift,
        ) ==> viewer.with_modifiers(event) == (ViewerView {
            ctrl: event.ctrl,
            shift: event.shift,
            ..viewer
        }),
{
}

/// The keys that zoom zoom, and change nothing but that the page is no longer fitted
/// anew; the key that fits fits the page in the middle.
pub proof fn law_zoom_keys_zoom(viewer: ViewerView, current: usize)
    ensures
        viewer.command(KeyAction::ZoomIn, current) == Command::Zoom(ZoomStep::In),
        viewer.command(KeyAction::ZoomOut, current) == Command::Zoom(ZoomStep::Out),
        viewer.command(KeyAction::ActualSize, current) == Command::Zoom(ZoomStep::ActualSize),
        viewer.acted(KeyAction::ZoomIn, current) == (ViewerView { fit: false, ..viewer }),
        viewer.acted(KeyAction::ZoomOut, current) == (ViewerView { fit: false, ..viewer }),
        viewer.acted(KeyAction::ActualSize, current) == (ViewerView { fit: false, ..viewer }),
        current < viewer.pages() ==> viewer.command(KeyAction::FitPage, current) == Command::Fit(
            current,
        ) && viewer.acted(KeyAction::FitPage, current) == (ViewerView { fit: true, ..viewer }),
        current >= viewer.pages() ==> viewer.command(KeyAction::FitPage, current) is Nothing
            && viewer.acted(KeyAction::FitPage, current) == viewer,
{
}

/// The keys that turn turn by one quarter to their side, and the page is then fitted
/// anew if it is to be.
pub proof fn law_turn_keys_turn(viewer: ViewerView, current: usize)
    requires
        viewer.wf(),
    ensures
        viewer.acted(KeyAction::TurnRight, current).quarter_turns == (viewer.quarter_turns + 1) % 4,
        viewer.acted(KeyAction::TurnLeft, current).quarter_turns == (viewer.quarter_turns + 3) % 4,
        viewer.acted(KeyAction::TurnRight, current).store == viewer.store.emptied(),
        viewer.acted(KeyAction::TurnLeft, current).store == viewer.store.emptied(),
        viewer.command(KeyAction::TurnRight, current) is Refit,
        viewer.command(KeyAction::TurnLeft, current) is Refit,
{
}

/// The keys that lead through the pages lead to the next page and to the one before, to
/// the first and to the last, and not beyond them; they change nothing.
pub proof fn law_page_keys_lead_to_pages(viewer: ViewerView, current: usize)
    requires
        viewer.pages() <= usize::MAX,
        current < viewer.pages(),
    ensures
        viewer.command(KeyAction::NextPage, current) == Command::ScrollToPage(
            (if current + 1 < viewer.pages() {
                current + 1
            } else {
                current as int
            }) as usize,
        ),
        viewer.command(KeyAction::PreviousPage, current) == Command::ScrollToPage(
            (if current > 0 {
                current - 1
            } else {
                0
            }) as usize,
        ),
        viewer.command(KeyAction::FirstPage, current) == Command::ScrollToPage(0),
        viewer.command(KeyAction::LastPage, current) == Command::ScrollToPage(
            (viewer.pages() - 1) as usize,
        ),
        viewer.acted(KeyAction::NextPage, current) == viewer,
        viewer.acted(KeyAction::PreviousPage, current) == viewer,
        viewer.acted(KeyAction::FirstPage, current) == viewer,
        viewer.acted(KeyAction::LastPage, current) == viewer,
{
}

/// The keys that scroll, open and quit do so and change nothing, and so does a key that
/// asks for nothing; only the key that quits closes the viewer, and every key that asks
/// for something else draws the frame anew.
pub proof fn law_other_keys_leave_the_viewer(viewer: ViewerView, action: KeyAction, current: usize)
    ensures
        viewer.command(KeyAction::ScrollUp, current) is ScrollUp,
        viewer.command(KeyAction::ScrollDown, current) is ScrollDown,
        viewer.command(KeyAction::ScrollWindow, current) is ScrollWindow,
        viewer.command(KeyAction::OpenDialog, current) is OpenDialog,
        viewer.command(KeyAction::Quit, current) is Nothing,
        viewer.command(KeyAction::Nothing, current) is Nothing,
        action is ScrollUp || action is ScrollDown || action is ScrollWindow || action is OpenDialog
            || action is Quit || action is Nothing ==> viewer.acted(action, current) == viewer,
        ViewerView::sends(action) == Some(Message::Quit) <==> action is Quit,
        ViewerView::sends(action) is Some <==> action is Quit,
        ViewerView::redraws(action) <==> !(action is Quit) && !(action is Nothing),
{
}

/// The keys that lead through the files lead to the next file and to the one before,
/// round the ring, and that file is opened.
pub proof fn law_file_keys_lead_to_files(viewer: ViewerView, current: usize)
    requires
        viewer.wf(),
        2 <= viewer.files.len() <= usize::MAX,
    ensures
        viewer.acted(KeyAction::NextFile, current) == (ViewerView {
            file_idx: (if viewer.file_idx + 1 < viewer.files.len() {
                viewer.file_idx + 1
            } else {
                0
            }) as usize,
            ..viewer
        }),
        viewer.acted(KeyAction::PreviousFile, current) == (ViewerView {
            file_idx: (if viewer.file_idx > 0 {
                viewer.file_idx - 1
            } else {
                viewer.files.len() - 1
            }) as usize,
            ..viewer
        }),
        viewer.command(KeyAction::NextFile, current) == Command::OpenFile(
            viewer.acted(KeyAction::NextFile, current).file_idx,
        ),
        viewer.command(KeyAction::PreviousFile, current) == Command::OpenFile(
            viewer.acted(KeyAction::PreviousFile, current).file_idx,
        ),
{
    let n = viewer.files.len() as int;
    let at = viewer.file_idx as int;
    if at + 1 < n {
        vstd::arithmetic::div_mod::lemma_small_mod((at + 1) as nat, n as nat);
    } else {
        vstd::arithmetic::div_mod::lemma_mod_self_0(n);
    }
    if at > 0 {
        vstd::arithmetic::div_mod::lemma_small_mod((at - 1) as nat, n as nat);
    } else {
        vstd::arithmetic::div_mod::lemma_mod_add_multiples_vanish(-1, n);
        vstd::arithmetic::div_mod::lemma_small_mod((n - 1) as nat, n as nat);
    }
}

/// The files are browsed exactly where there are several of them and at most one page.
pub proof fn law_files_are_browsed_without_pages(viewer: ViewerView)
    ensures
        viewer.pages() > 1 ==> !viewer.file_nav(),
        viewer.files.len() < 2 ==> !viewer.file_nav(),
        viewer.pages() <= 1 && viewer.files.len() >= 2 ==> viewer.file_nav(),
{
}

/// A drag begins where the left button goes down, moves the content along with the
/// pointer from place to place, and ends where the button goes up; the other buttons
/// have no part in it.
pub proof fn law_drag_follows_the_pointer(viewer: ViewerView, a: Point, b: Point, c: Point)
    ensures
        viewer.clicked(MouseButton::Left, ElementState::Pressed, a).drag == Some(a),
        viewer.clicked(MouseButton::Left, ElementState::Pressed, a).pointed(b).drag == Some(b),
        viewer.clicked(MouseButton::Left, ElementState::Pressed, a).pointed(b).clicked(
            MouseButton::Left,
            ElementState::Released,
            c,
        ).drag is None,
        viewer.clicked(MouseButton::Other, ElementState::Pressed, a) == viewer,
        viewer.clicked(MouseButton::Other, ElementState::Released, a) == viewer,
        viewer.drag is None ==> viewer.pointed(b).drag is None,
        viewer.pointed(b).pointer == b,
        viewer.pointed(b) == (ViewerView { pointer: b, drag: viewer.pointed(b).drag, ..viewer }),
        viewer.clicked(MouseButton::Left, ElementState::Pressed, a) == (ViewerView {
            drag: Some(a),
            ..viewer
        }),
        viewer.clicked(MouseButton::Left, ElementState::Released, a) == (ViewerView {
            drag: None,
            ..viewer
        }),
{
}

/// The wheel scrolls by its way; with shift held by its vertical way to the side, and
/// not up or down; with control held it does not scroll, but zooms if it goes up or
/// down, which ends fitting.
pub proof fn law_wheel_scrolls_or_zooms(
    viewer: ViewerView,
    vertical: bool,
    dx: Scalar,
    dy: Scalar,
)
    ensures
        !viewer.ctrl && !viewer.shift ==> viewer.wheel(vertical, dx, dy) == (Wheel::Scroll { dx, dy }),
        !viewer.ctrl && viewer.shift ==> (viewer.wheel(vertical, dx, dy) matches Wheel::Scroll {
            dx: x,
            dy: y,
        } && x == dy && y.bits == 0),
        viewer.ctrl && vertical ==> viewer.wheel(vertical, dx, dy) is Zoom,
        viewer.ctrl && !vertical ==> viewer.wheel(vertical, dx, dy) is Nothing,
        viewer.wheel(vertical, dx, dy) is Zoom ==> viewer.wheeled(vertical) == (ViewerView {
            fit: false,
            ..viewer
        }),
        !(viewer.wheel(vertical, dx, dy) is Zoom) ==> viewer.wheeled(vertical) == viewer,
{
}

/// A file that could not be opened is complained of by its path and the reason; opening
/// a file leaves what is held, dragged and pointed at, and counts that the store was
/// emptied; a document with pages is fitted.
pub proof fn law_opening_a_file(
    viewer: ViewerView,
    path: Seq<u8>,
    d: DocumentView,
    e: Seq<char>,
)
    requires
        viewer.store.generation < u64::MAX,
    ensures
        viewer.opened(path, Ok(d)) == (ViewerView {
            store: viewer.store.emptied(),
            doc: Some(d),
            error: None,
            quarter_turns: 0,
            fit: viewer.fit || d.pages.len() > 0,
            ..viewer
        }),
        viewer.opened(path, Err(e)).error matches Some(text) && crate::text::after_prefix(
            text,
            lossy(path).push(':').push(' '),
        ) == Some(e),
        viewer.opened(path, Err(e)) == (ViewerView {
            store: viewer.store.emptied(),
            doc: None,
            error: viewer.opened(path, Err(e)).error,
            quarter_turns: 0,
            ..viewer
        }),
        viewer.opened(path, Ok(d)).store.generation == viewer.store.generation + 1,
        viewer.opened(path, Err(e)).store.generation == viewer.store.generation + 1,
{
    crate::tool::law_complaint_names_the_program(lossy(path), e);
}

/// The result of a job, sent back as it was asked for, is shown from then on, and the
/// page is not asked for again.
pub proof fn law_answered_job_is_shown(
    viewer: ViewerView,
    doc: DocumentView,
    page: usize,
    want_dpi: u32,
    image: u32,
    after: ViewerView,
)
    requires
        (ViewerView {
            store: viewer.store.ensured(doc.kind, page, want_dpi),
            ..viewer
        }).receives(
            after,
            spec_reply(
                viewer.store.job(doc, viewer.quarter_turns, page, want_dpi),
                Some(
                    viewer.store.job(doc, viewer.quarter_turns, page, want_dpi).rendered_as(image),
                ),
            ),
        ),
    ensures
        after.store.shown(page) matches Some(r) && r.image == image && r.dpi == want_dpi,
        !after.store.asks(doc.kind, page, want_dpi),
        after == (ViewerView { store: after.store, ..viewer }),
{
    let job = viewer.store.job(doc, viewer.quarter_turns, page, want_dpi);
    crate::store::law_answered_job_settles_its_page(
        viewer.store,
        doc,
        viewer.quarter_turns,
        page,
        want_dpi,
        image,
        after.store,
    );
    crate::store::law_completed_page_is_shown(
        viewer.store.ensured(doc.kind, page, want_dpi),
        page,
        Some(job.rendered_as(image)),
        after.store,
    );
}

/// The result of a job that was sent out before the document was turned, or another file
/// opened, changes nothing.
pub proof fn law_late_answer_changes_nothing(
    viewer: ViewerView,
    doc: DocumentView,
    page: usize,
    want_dpi: u32,
    result: Option<Rendered>,
    turns: int,
    path: Seq<u8>,
    loaded: Result<DocumentView, Seq<char>>,
    after: ViewerView,
)
    requires
        viewer.store.generation < u64::MAX,
    ensures
        viewer.turned(turns).receives(
            after,
            spec_reply(viewer.store.job(doc, viewer.quarter_turns, page, want_dpi), result),
        ) ==> after == viewer.turned(turns),
        viewer.opened(path, loaded).receives(
            after,
            spec_reply(viewer.store.job(doc, viewer.quarter_turns, page, want_dpi), result),
        ) ==> after == viewer.opened(path, loaded),
        viewer.receives(after, Message::Quit) ==> after == viewer,
{
}

/// A result draws the frame anew, whether it is late or not, and does not close the
/// viewer; quitting closes it. A moving pointer draws the frame anew exactly while it
/// drags, and a pinch that changes the zoom ends fitting.
pub proof fn law_what_draws_the_frame_anew(
    viewer: ViewerView,
    generation: u64,
    page: usize,
    result: Option<Rendered>,
    pos: Point,
)
    ensures
        redraws_for(Message::Page { generation, page, result }),
        !closes_for(Message::Page { generation, page, result }),
        closes_for(Message::Quit) && !redraws_for(Message::Quit),
        viewer.clicked(MouseButton::Left, ElementState::Pressed, pos).drags(),
        !viewer.clicked(MouseButton::Left, ElementState::Released, pos).drags(),
        viewer.pointed(pos).drags() == viewer.drags(),
        viewer.pinched(true) == (ViewerView { fit: false, ..viewer }),
        viewer.pinched(false) == viewer,
{
}

/// A key leaves the modifiers held that it says, and else does what it asks for, and that
/// is also what the caller is told to do.
pub proof fn law_key_does_what_it_asks_for(viewer: ViewerView, event: KeyEvent, current: usize)
    ensures
        viewer.keyed(event, current).ctrl == viewer.with_modifiers(event).ctrl,
        viewer.keyed(event, current).shift == viewer.with_modifiers(event).shift,
        (ViewerView { ctrl: viewer.ctrl, shift: viewer.shift, ..viewer.keyed(event, current) })
            == viewer.acted(viewer.asked(event), current),
        viewer.commanded(event, current) == viewer.command(viewer.asked(event), current),
        event.state is Released ==> viewer.keyed(event, current) == viewer.with_modifiers(event)
            && viewer.commanded(event, current) is Nothing,
{
}

/// Pressing PageDown or the arrow to the right at an image among several files opens the
/// next of them, and PageUp or the arrow to the left the one before; within a document of
/// several pages they scroll.
pub proof fn law_keys_browse(
    viewer: ViewerView,
    d: DocumentView,
    event: KeyEvent,
    name: NamedKey,
    current: usize,
)
    requires
        viewer.wf(),
        viewer.doc == Some(d),
        viewer.files.len() <= usize::MAX,
        d.pages.len() <= usize::MAX,
        event.state is Pressed,
        event.logical_key == Key::Named(name),
    ensures
        d.kind is Image && d.pages.len() == 1 && viewer.files.len() >= 2 && (name is PageDown
            || name is ArrowRight) ==> {
            &&& viewer.keyed(event, current).file_idx == (viewer.file_idx + 1) % (
            viewer.files.len() as int)
            &&& viewer.commanded(event, current) == Command::OpenFile(
                viewer.keyed(event, current).file_idx,
            )
        },
        d.kind is Image && d.pages.len() == 1 && viewer.files.len() >= 2 && (name is PageUp
            || name is ArrowLeft) ==> {
            &&& viewer.keyed(event, current).file_idx == (viewer.file_idx + viewer.files.len() - 1)
                % (viewer.files.len() as int)
            &&& viewer.commanded(event, current) == Command::OpenFile(
                viewer.keyed(event, current).file_idx,
            )
        },
        d.pages.len() > 1 && current + 1 < d.pages.len() && (name is PageDown || name is ArrowRight)
            ==> viewer.commanded(event, current) == Command::ScrollToPage((current + 1) as usize)
            && viewer.keyed(event, current).file_idx == viewer.file_idx,
        d.pages.len() > 1 && 0 < current < d.pages.len() && (name is PageUp || name is ArrowLeft)
            ==> viewer.commanded(event, current) == Command::ScrollToPage((current - 1) as usize)
            && viewer.keyed(event, current).file_idx == viewer.file_idx,
{
    let n = viewer.files.len() as int;
    if n >= 2 {
        vstd::arithmetic::div_mod::lemma_mod_add_multiples_vanish(viewer.file_idx - 1, n);
        vstd::arithmetic::div_mod::lemma_mod_bound(viewer.file_idx - 1, n);
        vstd::arithmetic::div_mod::lemma_mod_bound(viewer.file_idx + 1, n);
    }
}

/// Opening a file shows what was loaded of it. Without a listing the files that are browsed
/// stay; with one they are the file alone, or the images that are listed, in order.
pub proof fn law_opening_a_file_browses_its_directory(
    viewer: ViewerView,
    after: ViewerView,
    path: Seq<u8>,
    loaded: Result<DocumentView, Seq<char>>,
    listing: Option<Seq<Seq<u8>>>,
    file: Seq<u8>,
)
    requires
        viewer.opens(after, path, loaded, listing),
    ensures
        listing is None ==> after.files == viewer.files && after.file_idx == viewer.file_idx,
        listing matches Some(list) ==> after.file_idx < after.files.len(),
        listing matches Some(list) ==> (!is_image(path) ==> after.files == seq![path]),
        listing matches Some(list) ==> (is_image(path) && list.contains(path) ==> (
        after.files.contains(file) <==> list.contains(file) && is_image(file)) && steps(
            after.files[after.file_idx as int],
        ) == steps(path)),
        (ViewerView { files: viewer.files, file_idx: viewer.file_idx, ..after }) == viewer.opened(
            path,
            loaded,
        ),
{
    if let Some(list) = listing {
        crate::collection::law_other_files_are_browsed_alone(
            path,
            list,
            after.files,
            after.file_idx as int,
        );
        if is_image(path) && list.contains(path) {
            let i = choose|i: int| 0 <= i < list.len() && list[i] == path;
            crate::collection::law_browsing_starts_at_the_opened_file(
                path,
                list,
                after.files,
                after.file_idx as int,
                i,
            );
            list.lemma_filter_contains(|p: Seq<u8>| is_image(p), i);
            crate::collection::law_browsed_files_are_the_listed_images(list, after.files, file);
        }
    }
}

/// A renderer changes nothing but the store, and only if there was one before.
pub proof fn law_renderer_changes_the_store_alone(viewer: ViewerView)
    ensures
        viewer.with_renderer() == (ViewerView {
            store: if viewer.seen_renderer {
                viewer.store.emptied()
            } else {
                viewer.store
            },
            seen_renderer: true,
            ..viewer
        }),
{
}

/// Of several files the one at the new place is opened, and of fewer none.
pub proof fn law_the_file_at_the_new_place_is_opened(viewer: ViewerView, step: int)
    requires
        viewer.wf(),
        viewer.files.len() <= usize::MAX,
    ensures
        viewer.files.len() >= 2 ==> viewer.sibling_to_open(step) == Some(
            viewer.moved(step).file_idx,
        ) && viewer.moved(step).file_idx == (viewer.file_idx + step) % (viewer.files.len() as int),
        viewer.files.len() < 2 ==> viewer.sibling_to_open(step) is None && viewer.moved(step)
            == viewer,
        viewer.moved(step) == (ViewerView { file_idx: viewer.moved(step).file_idx, ..viewer }),
{
    let n = viewer.files.len() as int;
    if n >= 2 {
        vstd::arithmetic::div_mod::lemma_mod_bound(viewer.file_idx + step, n);
    }
}

/// A document that was opened is shown from the top of its first page; where nothing was
/// opened, nothing is fitted.
pub proof fn law_opened_document_is_fitted_first(
    viewer: ViewerView,
    path: Seq<u8>,
    d: DocumentView,
    e: Seq<char>,
)
    ensures
        d.pages.len() > 0 ==> viewer.opened(path, Ok(d)).fitted_first() == Some(0usize)
            && viewer.opened(path, Ok(d)).fit,
        viewer.opened(path, Err(e)).fitted_first() is None,
{
}

/// The content is dragged from each place of the pointer to the next, beginning where the
/// button went down.
pub proof fn law_content_is_dragged_from_place_to_place(
    viewer: ViewerView,
    a: Point,
    b: Point,
    c: Point,
)
    ensures
        viewer.clicked(MouseButton::Left, ElementState::Pressed, a).dragged_from() == Some(a),
        viewer.clicked(MouseButton::Left, ElementState::Pressed, a).pointed(b).dragged_from()
            == Some(b),
        viewer.clicked(MouseButton::Left, ElementState::Pressed, a).pointed(b).pointed(
            c,
        ).dragged_from() == Some(c),
        viewer.clicked(MouseButton::Left, ElementState::Released, a).dragged_from() is None,
        viewer.clicked(MouseButton::Left, ElementState::Released, a).pointed(b).dragged_from()
            is None,
{
}

/// The state of a viewer is everything that it holds.
pub proof fn law_viewer_is_seen_whole(app: PreviewApp, i: int)
    ensures
        app@.store == app.store@,
        app.doc matches Some(d) ==> app@.doc == Some(d@),
        app.doc is None ==> app@.doc is None,
        app.error matches Some(e) ==> app@.error == Some(e@),
        app.error is None ==> app@.error is None,
        app@.files.len() == app.files@.len(),
        0 <= i < app.files@.len() ==> app@.files[i] == app.files@[i].bytes@,
        app@.file_idx == app.file_idx,
        app@.quarter_turns == app.quarter_turns,
        app@.fit == app.fit,
        app@.pointer == app.pointer,
        app@.drag == app.drag,
        app@.ctrl == app.ctrl,
        app@.shift == app.shift,
        app@.seen_renderer == app.seen_renderer,
{
}

} // verus!
