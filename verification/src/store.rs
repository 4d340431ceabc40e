//! The pages that are held by the renderer: which are resident, which were
//! asked for, and which leave when there are too many.

use std::collections::HashMap;
use vstd::prelude::*;

use crate::document::{Document, DocumentView, Kind, PageSize};
use crate::path::FilePath;

verus! {

broadcast use vstd::std_specs::hash::group_hash_axioms;

/// Pages kept resident. The renderer holds at most 256 images in all, so this
/// leaves generous headroom.
pub const MAX_GPU_PAGES: usize = 24;

/// A rendered page: the renderer's number for its image, and the resolution it
/// was asked for.
#[derive(Debug, Clone, Copy, PartialEq, Eq, Structural)]
pub struct Rendered {
    pub image: u32,
    pub dpi: u32,
}

/// What is known of a page that was asked for.
#[derive(Debug, Clone, Copy, PartialEq, Eq, Structural)]
pub enum PageState {
    Pending,
    Ready { r: Rendered, refreshing: bool, last_used: u64 },
    Failed,
}

/// A page to be rendered.
pub struct Job {
    pub generation: u64,
    pub page: usize,
    pub dpi: u32,
    pub path: FilePath,
    pub kind: Kind,
    pub size: PageSize,
    /// Quarter turns clockwise that are applied to the pixels.
    pub quarter_turns: u8,
}

/// What a job asks for.
#[verifier::ext_equal]
pub struct JobView {
    pub generation: u64,
    pub page: usize,
    pub dpi: u32,
    pub path: Seq<u8>,
    pub kind: Kind,
    pub size: PageSize,
    pub quarter_turns: u8,
}

impl View for Job {
    type V = JobView;

    open spec fn view(&self) -> JobView {
        JobView {
            generation: self.generation,
            page: self.page,
            dpi: self.dpi,
            path: self.path@,
            kind: self.kind,
            size: self.size,
            quarter_turns: self.quarter_turns,
        }
    }
}

impl JobView {
    /// The page of a job, once it was rendered as this image.
    pub open spec fn rendered_as(self, image: u32) -> Rendered {
        Rendered { image, dpi: self.dpi }
    }
}

/// The state of a store: what is known of each page, the number of times it
/// was emptied, and the number of frames that were begun.
#[verifier::ext_equal]
pub struct StoreView {
    pub states: Map<usize, PageState>,
    pub generation: u64,
    pub frame: u64,
}

impl StoreView {
    /// The image of a page, if it is resident.
    pub open spec fn shown(self, page: usize) -> Option<Rendered> {
        if self.states.contains_key(page) {
            match self.states[page] {
                PageState::Ready { r, .. } => Some(r),
                _ => None,
            }
        } else {
            None
        }
    }

    /// The resident pages.
    pub open spec fn resident(self) -> Set<usize> {
        self.states.dom().filter(|p: usize| self.states[p] is Ready)
    }

    /// The resident pages that this frame has not used yet.
    pub open spec fn idle(self) -> Set<usize> {
        self.states.dom().filter(
            |p: usize| self.states[p] is Ready && self.states[p]->last_used < self.frame,
        )
    }

    /// How many pages are resident as this image.
    pub open spec fn copies(self, image: u32) -> nat {
        holders(self.states, image).len()
    }

    /// No page was used in a frame that has not begun.
    pub open spec fn wf(self) -> bool {
        &&& self.states.dom().finite()
        &&& forall|p: usize|
            #![trigger self.states[p]]
            self.states.contains_key(p) && self.states[p] is Ready ==> self.states[p]->last_used
                <= self.frame
    }

    /// The store in the next frame.
    pub open spec fn next_frame(self) -> StoreView {
        StoreView { frame: (self.frame + 1) as u64, ..self }
    }

    /// The store once it was emptied.
    pub open spec fn emptied(self) -> StoreView {
        StoreView {
            states: Map::empty(),
            generation: (self.generation + 1) as u64,
            frame: self.frame,
        }
    }

    /// Whether asking for a page sends out a job: it was never asked for, or it
    /// is resident at another resolution, can be rendered anew, and is not
    /// being rendered anew already.
    pub open spec fn asks(self, kind: Kind, page: usize, want_dpi: u32) -> bool {
        if self.states.contains_key(page) {
            match self.states[page] {
                PageState::Ready { r, refreshing, .. } => r.dpi != want_dpi && kind is Pdf
                    && !refreshing,
                _ => false,
            }
        } else {
            true
        }
    }

    /// The store after a page was asked for.
    pub open spec fn ensured(self, kind: Kind, page: usize, want_dpi: u32) -> StoreView {
        let state = if self.states.contains_key(page) {
            match self.states[page] {
                PageState::Ready { r, refreshing, .. } => PageState::Ready {
                    r,
                    refreshing: refreshing || self.asks(kind, page, want_dpi),
                    last_used: self.frame,
                },
                other => other,
            }
        } else {
            PageState::Pending
        };
        StoreView { states: self.states.insert(page, state), ..self }
    }

    /// The store after each of some pages was asked for.
    pub open spec fn all_ensured(self, kind: Kind, pages: Seq<usize>, want_dpi: u32) -> StoreView {
        StoreView {
            states: Map::new(
                |p: usize| self.states.contains_key(p) || pages.contains(p),
                |p: usize|
                    if pages.contains(p) {
                        self.ensured(kind, p, want_dpi).states[p]
                    } else {
                        self.states[p]
                    },
            ),
            ..self
        }
    }

    /// The jobs that go out when each of some pages is asked for: one for each
    /// page that needs one, in the order of the pages.
    pub open spec fn all_jobs(
        self,
        doc: DocumentView,
        quarter_turns: u8,
        pages: Seq<usize>,
        want_dpi: u32,
    ) -> Seq<JobView> {
        pages.filter(|p: usize| self.asks(doc.kind, p, want_dpi)).map_values(
            |p: usize| self.job(doc, quarter_turns, p, want_dpi),
        )
    }

    /// The job that asks for a page.
    pub open spec fn job(
        self,
        doc: DocumentView,
        quarter_turns: u8,
        page: usize,
        want_dpi: u32,
    ) -> JobView {
        JobView {
            generation: self.generation,
            page,
            dpi: want_dpi,
            path: doc.path,
            kind: doc.kind,
            size: doc.pages[page as int],
            quarter_turns,
        }
    }

    /// The store after a result for a page was taken in, before any page leaves.
    pub open spec fn accepted(self, page: usize, result: Option<Rendered>) -> StoreView {
        let state = match result {
            Some(r) => PageState::Ready { r, refreshing: false, last_used: self.frame },
            None => PageState::Failed,
        };
        StoreView { states: self.states.insert(page, state), ..self }
    }

    /// How many resident pages there are too many.
    pub open spec fn excess(self) -> int {
        if self.resident().len() > MAX_GPU_PAGES {
            self.resident().len() - MAX_GPU_PAGES
        } else {
            0
        }
    }

    /// `after` is this store without the pages in `gone`: as many idle pages
    /// as are too many, as far as there are that many, and none of them used
    /// later than an idle page that stays.
    pub open spec fn evicts(self, after: StoreView, gone: Set<usize>) -> bool {
        &&& after == StoreView { states: self.states.remove_keys(gone), ..self }
        &&& gone.subset_of(self.idle())
        &&& gone.len() == if self.excess() <= self.idle().len() {
            self.excess()
        } else {
            self.idle().len() as int
        }
        &&& forall|p: usize, q: usize|
            gone.contains(p) && self.idle().contains(q) && !gone.contains(q)
                ==> #[trigger] self.states[p]->last_used <= #[trigger] self.states[q]->last_used
    }

    /// `after` is this store once a result was taken in: it is unchanged by a
    /// result from before it was emptied last.
    pub open spec fn takes(
        self,
        after: StoreView,
        generation: u64,
        page: usize,
        result: Option<Rendered>,
    ) -> bool {
        if generation == self.generation {
            exists|gone: Set<usize>| self.accepted(page, result).evicts(after, gone)
        } else {
            after == self
        }
    }
}

/// The pages that are resident as this image.
pub open spec fn holders(states: Map<usize, PageState>, image: u32) -> Set<usize> {
    states.dom().filter(|p: usize| states[p] is Ready && states[p]->r.image == image)
}

/// The image that a result brings, once.
pub open spec fn brought(result: Option<Rendered>, image: u32) -> nat {
    match result {
        Some(r) => if r.image == image {
            1
        } else {
            0
        },
        None => 0,
    }
}

/// How often an image number occurs in a list.
pub open spec fn times(images: Seq<u32>, image: u32) -> nat {
    images.to_multiset().count(image)
}

/// Whether no image is lost and none is freed twice: what was resident and what was
/// brought is resident afterwards or freed, each as often.
pub open spec fn balanced(
    before: StoreView,
    result: Option<Rendered>,
    after: StoreView,
    freed: Seq<u32>,
) -> bool {
    forall|image: u32|
        times(freed, image) + #[trigger] after.copies(image) == before.copies(image) + brought(
            result,
            image,
        )
}

/// The image that a page's state holds, once.
pub open spec fn held(state: PageState, image: u32) -> nat {
    if state is Ready && state->r.image == image {
        1
    } else {
        0
    }
}

/// Without one page, one image is held once less.
proof fn lemma_holders_remove(states: Map<usize, PageState>, page: usize, image: u32)
    requires
        states.dom().finite(),
        states.contains_key(page),
    ensures
        holders(states, image).finite(),
        holders(states.remove(page), image).len() + held(states[page], image) == holders(
            states,
            image,
        ).len(),
{
    let some = holders(states, image);
    assert(some.finite());
    assert(holders(states.remove(page), image) =~= some.remove(page));
}

/// With one page more, its image is held once more.
proof fn lemma_holders_insert(
    states: Map<usize, PageState>,
    page: usize,
    state: PageState,
    image: u32,
)
    requires
        states.dom().finite(),
        !states.contains_key(page),
    ensures
        holders(states.insert(page, state), image).len() == holders(states, image).len() + held(
            state,
            image,
        ),
{
    let more = states.insert(page, state);
    lemma_holders_remove(more, page, image);
    assert(more.remove(page) =~= states);
}

/// Per-document page cache: pages are asked for once, rendered anew when the
/// resolution no longer fits, and leave in the order of their last use.
pub struct PageStore {
    states: HashMap<usize, PageState>,
    generation: u64,
    frame: u64,
}

impl View for PageStore {
    type V = StoreView;

    closed spec fn view(&self) -> StoreView {
        StoreView { states: self.states@, generation: self.generation, frame: self.frame }
    }
}

impl PageStore {
    /// An empty store.
    pub fn new() -> (r: PageStore)
        ensures
            r@ == (StoreView { states: Map::empty(), generation: 0, frame: 0 }),
            r@.wf(),
    {
        PageStore { states: HashMap::new(), generation: 0, frame: 0 }
    }

    /// The number of frames that were begun.
    pub fn frame(&self) -> (r: u64)
        ensures
            r == self@.frame,
    {
        self.frame
    }

    /// The number of times the store was emptied.
    pub fn generation(&self) -> (r: u64)
        ensures
            r == self@.generation,
    {
        self.generation
    }

    /// Begins a frame.
    pub fn begin_frame(&mut self)
        requires
            old(self)@.frame < u64::MAX,
        ensures
            final(self)@ == old(self)@.next_frame(),
            old(self)@.wf() ==> final(self)@.wf(),
    {
        self.frame += 1;
    }

    /// The page's image if it is resident, and the job that has to go out.
    ///
    /// A resident page counts as used, and is asked for anew when its image has
    /// another resolution; any other page is asked for once.
    pub fn ensure(
        &mut self,
        doc: &Document,
        quarter_turns: u8,
        page: usize,
        want_dpi: u32,
    ) -> (r: (Option<Rendered>, Option<Job>))
        requires
            old(self)@.asks(doc.kind, page, want_dpi) ==> page < doc.pages@.len(),
        ensures
            final(self)@ == old(self)@.ensured(doc.kind, page, want_dpi),
            r.0 == old(self)@.shown(page),
            match r.1 {
                Some(job) => old(self)@.asks(doc.kind, page, want_dpi) && job@ == old(self)@.job(
                    doc@,
                    quarter_turns,
                    page,
                    want_dpi,
                ),
                None => !old(self)@.asks(doc.kind, page, want_dpi),
            },
            old(self)@.wf() ==> final(self)@.wf(),
    {
        let known: Option<PageState> = match self.states.get(&page) {
            Some(state) => Some(*state),
            None => None,
        };
        match known {
            Some(PageState::Ready { r, refreshing, last_used: _ }) => {
                let stale = r.dpi != want_dpi && doc.kind == Kind::Pdf && !refreshing;
                self.states.insert(
                    page,
                    PageState::Ready {
                        r,
                        refreshing: refreshing || stale,
                        last_used: self.frame,
                    },
                );
                if stale {
                    (Some(r), Some(self.job(doc, quarter_turns, page, want_dpi)))
                } else {
                    (Some(r), None)
                }
            },
            Some(state) => {
                proof {
                    assert(self@.states.insert(page, state) =~= self@.states);
                }
                (None, None)
            },
            None => {
                self.states.insert(page, PageState::Pending);
                (None, Some(self.job(doc, quarter_turns, page, want_dpi)))
            },
        }
    }

    /// The image of each of some pages, as far as it is resident, and the jobs
    /// that have to go out. The pages are asked for one after another.
    pub fn ensure_all(
        &mut self,
        doc: &Document,
        quarter_turns: u8,
        pages: &Vec<usize>,
        want_dpi: u32,
    ) -> (r: (Vec<Option<Rendered>>, Vec<Job>))
        requires
            pages@.no_duplicates(),
            forall|k: int| 0 <= k < pages@.len() ==> (#[trigger] pages@[k]) < doc.pages@.len(),
        ensures
            final(self)@ == old(self)@.all_ensured(doc.kind, pages@, want_dpi),
            r.0@ == pages@.map_values(|p: usize| old(self)@.shown(p)),
            jobs(r.1@) == old(self)@.all_jobs(doc@, quarter_turns, pages@, want_dpi),
            old(self)@.wf() ==> final(self)@.wf(),
    {
        let mut images: Vec<Option<Rendered>> = Vec::new();
        let mut out: Vec<Job> = Vec::new();
        let mut i: usize = 0;
        let ghost asking = |p: usize| old(self)@.asks(doc.kind, p, want_dpi);
        proof {
            reveal(Seq::filter);
            assert(self@.states =~= old(self)@.all_ensured(
                doc.kind,
                pages@.take(0),
                want_dpi,
            ).states);
            assert(jobs(out@) =~= old(self)@.all_jobs(doc@, quarter_turns, pages@.take(0), want_dpi));
        }
        while i < pages.len()
            invariant
                i <= pages@.len(),
                asking == |p: usize| old(self)@.asks(doc.kind, p, want_dpi),
                pages@.no_duplicates(),
                forall|k: int| 0 <= k < pages@.len() ==> (#[trigger] pages@[k]) < doc.pages@.len(),
                self@ == old(self)@.all_ensured(doc.kind, pages@.take(i as int), want_dpi),
                images@ == pages@.take(i as int).map_values(|p: usize| old(self)@.shown(p)),
                jobs(out@) == old(self)@.all_jobs(
                    doc@,
                    quarter_turns,
                    pages@.take(i as int),
                    want_dpi,
                ),
                old(self)@.wf() ==> self@.wf(),
            decreases pages@.len() - i,
        {
            let page = pages[i];
            let ghost before = self@;
            let ghost some = pages@.take(i as int);
            let ghost more = pages@.take(i + 1);
            let ghost sent = out@;
            proof {
                assert(more =~= some.push(page));
                assert(more.drop_last() =~= some);
                assert(!some.contains(page));
                assert forall|p: usize| more.contains(p) <==> some.contains(p) || p == page by {
                    vstd::seq_lib::lemma_seq_contains_after_push(some, page, p);
                }
                assert(before.shown(page) == old(self)@.shown(page));
                assert(before.asks(doc.kind, page, want_dpi) == asking(page));
            }
            let (image, job) = self.ensure(doc, quarter_turns, page, want_dpi);
            images.push(image);
            if let Some(job) = job {
                out.push(job);
                assert(jobs(out@) =~= jobs(sent).push(job@));
            }
            proof {
                reveal(Seq::filter);
                assert(self@.states =~= old(self)@.all_ensured(doc.kind, more, want_dpi).states);
                assert(images@ =~= more.map_values(|p: usize| old(self)@.shown(p)));
                assert(jobs(out@) =~= old(self)@.all_jobs(doc@, quarter_turns, more, want_dpi));
            }
            i += 1;
        }
        assert(pages@.take(i as int) =~= pages@);
        (images, out)
    }

    /// The job that asks for a page of a document.
    fn job(&self, doc: &Document, quarter_turns: u8, page: usize, dpi: u32) -> (r: Job)
        requires
            page < doc.pages@.len(),
        ensures
            r@ == self@.job(doc@, quarter_turns, page, dpi),
    {
        Job {
            generation: self.generation,
            page,
            dpi,
            path: doc.path.copy(),
            kind: doc.kind,
            size: doc.pages[page],
            quarter_turns,
        }
    }

    /// The pages that something is known of, in no particular order.
    fn known_pages(&self) -> (r: Vec<usize>)
        ensures
            r@.no_duplicates(),
            r@.to_set() == self@.states.dom(),
    {
        let mut r: Vec<usize> = Vec::new();
        let ghost all = vstd::std_specs::iter::IteratorSpec::remaining(
            &vstd::std_specs::hash::spec_keys_iter(&self.states),
        ).unref();
        for p in it: self.states.keys()
            invariant
                it.seq().unref() == all,
                r@ == all.take(it.index() as int),
        {
            assert(all.take(it.index() + 1) =~= all.take(it.index() as int).push(*p));
            r.push(*p);
        }
        assert(all.take(all.len() as int) =~= all);
        r
    }

    /// Forgets a page, and adds its image, if it has one, to those to be freed.
    fn take_out(&mut self, page: usize, freed: &mut Vec<u32>)
        requires
            old(self)@.states.contains_key(page),
        ensures
            final(self)@ == (StoreView { states: old(self)@.states.remove(page), ..old(self)@ }),
            forall|image: u32|
                times(final(freed)@, image) + #[trigger] final(self)@.copies(image) == times(
                    old(freed)@,
                    image,
                ) + old(self)@.copies(image),
    {
        let state = self.states.remove(&page);
        if let Some(PageState::Ready { r, refreshing: _, last_used: _ }) = state {
            freed.push(r.image);
        }
        proof {
            old(freed)@.to_multiset_ensures();
            assert forall|image: u32|
                times(freed@, image) + #[trigger] self@.copies(image) == times(old(freed)@, image)
                    + old(self)@.copies(image) by {
                lemma_holders_remove(old(self)@.states, page, image);
            }
        }
    }

    /// Empties the store, and returns the images that are to be freed. Results
    /// that are still under way no longer belong to it.
    pub fn reset(&mut self) -> (freed: Vec<u32>)
        requires
            old(self)@.generation < u64::MAX,
        ensures
            final(self)@ == old(self)@.emptied(),
            forall|image: u32| times(freed@, image) == #[trigger] old(self)@.copies(image),
            balanced(old(self)@, None, final(self)@, freed@),
            final(self)@.wf(),
    {
        let pages = self.known_pages();
        let mut freed: Vec<u32> = Vec::new();
        let mut i: usize = 0;
        assert(pages@.skip(0) =~= pages@);
        assert(freed@.to_multiset() =~= vstd::multiset::Multiset::empty()) by {
            freed@.to_multiset_ensures();
        }
        while i < pages.len()
            invariant
                i <= pages@.len(),
                pages@.no_duplicates(),
                self@.states.dom() == pages@.skip(i as int).to_set(),
                self@.generation == old(self)@.generation,
                self@.frame == old(self)@.frame,
                self.generation < u64::MAX,
                forall|image: u32|
                    times(freed@, image) + #[trigger] self@.copies(image) == old(self)@.copies(
                        image,
                    ),
            decreases pages@.len() - i,
        {
            let ghost before = pages@.skip(i as int);
            assert(before[0] == pages@[i as int]);
            assert(before.to_set().contains(before[0]));
            self.take_out(pages[i], &mut freed);
            i += 1;
            assert(before.to_set().remove(before[0]) =~= pages@.skip(i as int).to_set()) by {
                let after = pages@.skip(i as int);
                assert forall|p: usize| before.to_set().remove(before[0]).contains(p) implies
                    after.to_set().contains(p) by {
                    let k = choose|k: int| 0 <= k < before.len() && before[k] == p;
                    assert(after[k - 1] == p);
                }
                assert forall|p: usize| after.to_set().contains(p) implies
                    before.to_set().remove(before[0]).contains(p) by {
                    let k = choose|k: int| 0 <= k < after.len() && after[k] == p;
                    assert(before[k + 1] == p);
                }
            }
        }
        proof {
            assert(pages@.skip(i as int).to_set() =~= Set::empty());
            assert(self@.states =~= Map::empty());
            assert forall|image: u32| times(freed@, image) == #[trigger] old(self)@.copies(image) by {
                assert(holders(self@.states, image) =~= Set::empty());
                assert(self@.copies(image) == 0);
            }
        }
        self.generation += 1;
        proof {
            assert forall|image: u32|
                times(freed@, image) + #[trigger] self@.copies(image) == old(self)@.copies(image)
                    + brought(None, image) by {
                assert(holders(self@.states, image) =~= Set::empty());
                assert(times(freed@, image) == old(self)@.copies(image));
            }
        }
        freed
    }

    /// The number of resident pages.
    fn resident_count(&self) -> (r: usize)
        ensures
            r == self@.resident().len(),
    {
        let pages = self.known_pages();
        let mut n: usize = 0;
        let mut i: usize = 0;
        let ghost mut seen: Set<usize> = Set::empty();
        while i < pages.len()
            invariant
                i <= pages@.len(),
                pages@.no_duplicates(),
                pages@.to_set() == self@.states.dom(),
                n <= i,
                seen.finite(),
                seen.len() == n,
                forall|p: usize|
                    seen.contains(p) <==> pages@.take(i as int).contains(p)
                        && self@.resident().contains(p),
            decreases pages@.len() - i,
        {
            let page = pages[i];
            assert(pages@.to_set().contains(page));
            assert(pages@.take(i + 1) =~= pages@.take(i as int).push(page));
            assert(!pages@.take(i as int).contains(page));
            assert forall|p: usize|
                pages@.take(i + 1).contains(p) <==> pages@.take(i as int).contains(p) || p == page by {
                vstd::seq_lib::lemma_seq_contains_after_push(pages@.take(i as int), page, p);
            }
            if let Some(PageState::Ready { r: _, refreshing: _, last_used: _ }) = self.states.get(&page) {
                n += 1;
                proof {
                    seen = seen.insert(page);
                }
            }
            i += 1;
        }
        proof {
            assert(pages@.take(i as int) =~= pages@);
            assert(seen =~= self@.resident());
        }
        n
    }

    /// The resident pages that this frame has not used yet, each with the frame
    /// that used it last, in the order of those frames.
    fn idle_by_use(&self) -> (r: Vec<(usize, u64)>)
        ensures
            r@.len() == self@.idle().len(),
            pages_of(r@).no_duplicates(),
            pages_of(r@).to_set() == self@.idle(),
            forall|k: int|
                #![trigger r@[k]]
                0 <= k < r@.len() ==> self@.states[r@[k].0]->last_used == r@[k].1,
            forall|j: int, k: int| 0 <= j <= k < r@.len() ==> (#[trigger] r@[j]).1 <= (#[trigger] r@[k]).1,
    {
        let pages = self.known_pages();
        let mut r: Vec<(usize, u64)> = Vec::new();
        let mut i: usize = 0;
        let ghost mut seen: Set<usize> = Set::empty();
        while i < pages.len()
            invariant
                i <= pages@.len(),
                pages@.no_duplicates(),
                pages@.to_set() == self@.states.dom(),
                seen.finite(),
                seen.len() == r@.len(),
                forall|p: usize|
                    seen.contains(p) <==> pages@.take(i as int).contains(p) && self@.idle().contains(
                        p,
                    ),
                pages_of(r@).no_duplicates(),
                forall|k: int|
                    #![trigger r@[k]]
                    0 <= k < r@.len() ==> seen.contains(r@[k].0)
                        && self@.states[r@[k].0]->last_used == r@[k].1,
                forall|j: int, k: int|
                    0 <= j <= k < r@.len() ==> (#[trigger] r@[j]).1 <= (#[trigger] r@[k]).1,
            decreases pages@.len() - i,
        {
            let page = pages[i];
            assert(pages@.to_set().contains(page));
            assert(pages@.take(i + 1) =~= pages@.take(i as int).push(page));
            assert(!pages@.take(i as int).contains(page));
            assert forall|p: usize|
                pages@.take(i + 1).contains(p) <==> pages@.take(i as int).contains(p) || p == page by {
                vstd::seq_lib::lemma_seq_contains_after_push(pages@.take(i as int), page, p);
            }
            if let Some(PageState::Ready { r: _, refreshing: _, last_used }) = self.states.get(&page) {
                let used: u64 = *last_used;
                if used < self.frame {
                    let mut at: usize = r.len();
                    while at > 0 && r[at - 1].1 > used
                        invariant
                            at <= r@.len(),
                            forall|k: int| at <= k < r@.len() ==> (#[trigger] r@[k]).1 > used,
                        decreases at,
                    {
                        at -= 1;
                    }
                    let ghost before = r@;
                    r.insert(at, (page, used));
                    proof {
                        assert forall|k: int| #![trigger r@[k]] 0 <= k < r@.len() implies (if k < at {
                            r@[k] == before[k]
                        } else if k == at {
                            r@[k] == (page, used)
                        } else {
                            r@[k] == before[k - 1]
                        }) by {}
                        assert(pages_of(r@) =~= pages_of(before).insert(at as int, page));
                        assert forall|j: int, k: int| 0 <= j < r@.len() && 0 <= k < r@.len() && j != k
                            implies pages_of(r@)[j] != pages_of(r@)[k] by {
                            let j0 = if j < at { j } else { j - 1 };
                            let k0 = if k < at { k } else { k - 1 };
                            if j != at && k != at {
                                assert(pages_of(before)[j0] != pages_of(before)[k0]);
                            } else if j == at {
                                assert(seen.contains(before[k0].0));
                            } else {
                                assert(seen.contains(before[j0].0));
                            }
                        }
                        seen = seen.insert(page);
                    }
                }
            }
            i += 1;
        }
        proof {
            assert(pages@.take(i as int) =~= pages@);
            assert(seen =~= self@.idle());
            let listed = pages_of(r@);
            listed.unique_seq_to_set();
            assert(listed.to_set().subset_of(seen));
            vstd::set_lib::lemma_subset_equality(listed.to_set(), seen);
        }
        r
    }

    /// Lets the pages go that were used longest ago, once there are too many.
    /// A page that this frame has used never leaves.
    fn evict(&mut self, freed: &mut Vec<u32>)
        ensures
            exists|gone: Set<usize>| old(self)@.evicts(final(self)@, gone),
            forall|image: u32|
                times(final(freed)@, image) + #[trigger] final(self)@.copies(image) == times(
                    old(freed)@,
                    image,
                ) + old(self)@.copies(image),
    {
        let resident = self.resident_count();
        if resident <= MAX_GPU_PAGES {
            proof {
                assert(self@.states.remove_keys(Set::empty()) =~= self@.states);
                assert(old(self)@.evicts(self@, Set::empty()));
            }
            return;
        }
        let excess: usize = resident - MAX_GPU_PAGES;
        let idle = self.idle_by_use();
        let n: usize = if excess < idle.len() {
            excess
        } else {
            idle.len()
        };
        let mut i: usize = 0;
        let ghost listed = pages_of(idle@);
        assert(self@.states.remove_keys(listed.take(0).to_set()) =~= self@.states);
        while i < n
            invariant
                i <= n <= idle@.len(),
                listed == pages_of(idle@),
                listed.no_duplicates(),
                listed.to_set() == old(self)@.idle(),
                self@ == (StoreView {
                    states: old(self)@.states.remove_keys(listed.take(i as int).to_set()),
                    ..old(self)@
                }),
                forall|image: u32|
                    times(freed@, image) + #[trigger] self@.copies(image) == times(
                        old(freed)@,
                        image,
                    ) + old(self)@.copies(image),
            decreases n - i,
        {
            let page = idle[i].0;
            assert(listed[i as int] == page);
            assert(listed.to_set().contains(page));
            assert(!listed.take(i as int).contains(page));
            self.take_out(page, freed);
            proof {
                let more = listed.take(i + 1);
                assert(more =~= listed.take(i as int).push(page));
                assert(more.to_set() =~= listed.take(i as int).to_set().insert(page)) by {
                    assert(more[i as int] == page);
                    assert forall|p: usize| listed.take(i as int).contains(p) implies more.contains(p) by {
                        let k = choose|k: int| 0 <= k < i && listed.take(i as int)[k] == p;
                        assert(more[k] == p);
                    }
                }
                assert(old(self)@.states.remove_keys(listed.take(i as int).to_set()).remove(page)
                    =~= old(self)@.states.remove_keys(more.to_set()));
            }
            i += 1;
        }
        proof {
            let first = listed.take(n as int);
            let gone = first.to_set();
            first.unique_seq_to_set();
            assert forall|p: usize| gone.contains(p) implies old(self)@.idle().contains(p) by {
                let k = choose|k: int| 0 <= k < first.len() && first[k] == p;
                assert(listed[k] == p);
                assert(listed.to_set().contains(p));
            }
            assert forall|p: usize, q: usize|
                gone.contains(p) && old(self)@.idle().contains(q) && !gone.contains(q) implies
                    (#[trigger] old(self)@.states[p])->last_used <= (#[trigger] old(self)@.states[q])->last_used by {
                let j = choose|j: int| 0 <= j < first.len() && first[j] == p;
                assert(listed.to_set().contains(q));
                let k = choose|k: int| 0 <= k < listed.len() && listed[k] == q;
                if k < n {
                    assert(first[k] == q);
                }
                assert(idle@[j].1 <= idle@[k].1);
            }
            assert(old(self)@.evicts(self@, gone));
        }
    }

    /// Takes in the result for a page, and returns the images that are to be
    /// freed. A result from before the store was emptied is freed at once.
    pub fn complete(
        &mut self,
        generation: u64,
        page: usize,
        result: Option<Rendered>,
    ) -> (freed: Vec<u32>)
        ensures
            old(self)@.takes(final(self)@, generation, page, result),
            generation != old(self)@.generation ==> freed@ == match result {
                Some(r) => seq![r.image],
                None => Seq::empty(),
            },
            balanced(old(self)@, result, final(self)@, freed@),
            old(self)@.wf() ==> final(self)@.wf(),
    {
        let mut freed: Vec<u32> = Vec::new();
        proof {
            freed@.to_multiset_ensures();
            assert(freed@.to_multiset() =~= vstd::multiset::Multiset::empty());
        }
        if generation != self.generation {
            if let Some(r) = result {
                freed.push(r.image);
            }
            return freed;
        }
        let state = match result {
            Some(r) => PageState::Ready { r, refreshing: false, last_used: self.frame },
            None => PageState::Failed,
        };
        if self.states.contains_key(&page) {
            self.take_out(page, &mut freed);
        }
        let ghost without = self@;
        self.states.insert(page, state);
        proof {
            assert(self@.states =~= old(self)@.accepted(page, result).states);
            assert forall|image: u32|
                times(freed@, image) + #[trigger] self@.copies(image) == old(self)@.copies(image)
                    + brought(result, image) by {
                lemma_holders_insert(without.states, page, state, image);
                assert(without.copies(image) + times(freed@, image) == old(self)@.copies(image));
            }
        }
        self.evict(&mut freed);
        freed
    }
}

/// What the jobs of a list ask for.
pub open spec fn jobs(list: Seq<Job>) -> Seq<JobView> {
    list.map_values(|j: Job| j@)
}

/// The pages of a list of pages and frames.
spec fn pages_of(list: Seq<(usize, u64)>) -> Seq<usize> {
    list.map_values(|e: (usize, u64)| e.0)
}

/// A page that this frame has used stays: it is still shown, as the same image,
/// after the result for another page was taken in.
pub proof fn law_used_pages_stay(
    store: StoreView,
    kind: Kind,
    pages: Seq<usize>,
    want_dpi: u32,
    page: usize,
    generation: u64,
    other: usize,
    result: Option<Rendered>,
    after: StoreView,
)
    requires
        pages.contains(page),
        other != page,
        store.all_ensured(kind, pages, want_dpi).takes(after, generation, other, result),
    ensures
        after.shown(page) == store.shown(page),
{
    let taken = store.all_ensured(kind, pages, want_dpi).accepted(other, result);
    assert(!taken.idle().contains(page));
}

/// A result that belongs to the store is shown from then on.
pub proof fn law_completed_page_is_shown(
    store: StoreView,
    page: usize,
    result: Option<Rendered>,
    after: StoreView,
)
    requires
        store.takes(after, store.generation, page, result),
    ensures
        after.shown(page) == result,
{
    assert(!store.accepted(page, result).idle().contains(page));
}

/// A result that was asked for before the store was emptied changes nothing,
/// however long it takes: the number of times a store was emptied never falls.
pub proof fn law_late_result_changes_nothing(
    store: StoreView,
    doc: DocumentView,
    quarter_turns: u8,
    page: usize,
    want_dpi: u32,
    later: StoreView,
    result: Option<Rendered>,
    after: StoreView,
)
    requires
        store.generation < u64::MAX,
        later.generation >= store.emptied().generation,
        later.takes(
            after,
            store.job(doc, quarter_turns, page, want_dpi).generation,
            page,
            result,
        ),
    ensures
        after == later,
{
}

/// Nothing that happens to a store lets its generation fall.
pub proof fn law_generation_never_falls(
    store: StoreView,
    kind: Kind,
    pages: Seq<usize>,
    want_dpi: u32,
    generation: u64,
    page: usize,
    result: Option<Rendered>,
    after: StoreView,
)
    requires
        store.generation < u64::MAX,
        store.takes(after, generation, page, result),
    ensures
        store.next_frame().generation == store.generation,
        store.all_ensured(kind, pages, want_dpi).generation == store.generation,
        after.generation == store.generation,
        store.emptied().generation > store.generation,
{
}

/// After a result was taken in, no more pages are resident than there is room
/// for, unless this frame has used every one of them.
pub proof fn law_budget_is_kept(
    store: StoreView,
    page: usize,
    result: Option<Rendered>,
    after: StoreView,
)
    requires
        store.wf(),
        store.takes(after, store.generation, page, result),
    ensures
        after.resident().len() <= MAX_GPU_PAGES || after.idle() == Set::<usize>::empty(),
{
    let before = store.accepted(page, result);
    let gone = choose|gone: Set<usize>| before.evicts(after, gone);
    assert(after.resident() =~= before.resident().difference(gone));
    assert(before.resident().finite());
    assert(before.idle().finite());
    vstd::set_lib::lemma_set_subset_finite(before.idle(), gone);
    assert(gone.subset_of(before.resident()));
    vstd::set_lib::lemma_set_difference_len(before.resident(), gone);
    assert(before.resident().intersect(gone) =~= gone);
    if before.excess() > before.idle().len() {
        vstd::set_lib::lemma_subset_equality(gone, before.idle());
        assert(after.idle() =~= Set::empty());
    }
}

/// A page is asked for once: after a job went out for it, no further request
/// sends another, whatever resolution it wants.
pub proof fn law_page_is_asked_for_once(
    store: StoreView,
    kind: Kind,
    page: usize,
    want_dpi: u32,
    later_dpi: u32,
)
    requires
        store.asks(kind, page, want_dpi),
    ensures
        !store.ensured(kind, page, want_dpi).asks(kind, page, later_dpi),
{
}

/// Once pages were asked for, asking for them again at the same resolution sends
/// no further jobs.
pub proof fn law_asking_again_sends_nothing(
    store: StoreView,
    doc: DocumentView,
    quarter_turns: u8,
    pages: Seq<usize>,
    want_dpi: u32,
)
    ensures
        store.all_ensured(doc.kind, pages, want_dpi).all_jobs(
            doc,
            quarter_turns,
            pages,
            want_dpi,
        ) == Seq::<JobView>::empty(),
{
    let once = store.all_ensured(doc.kind, pages, want_dpi);
    let pred = |p: usize| once.asks(doc.kind, p, want_dpi);
    assert forall|k: int| 0 <= k < pages.len() implies !pred(#[trigger] pages[k]) by {
        assert(pages.contains(pages[k]));
    }
    pages.lemma_all_neg_filter_empty(pred);
}

/// Asking again in the same frame, at the same resolution, changes nothing.
pub proof fn law_asking_again_changes_nothing(
    store: StoreView,
    kind: Kind,
    page: usize,
    want_dpi: u32,
)
    ensures
        store.ensured(kind, page, want_dpi).ensured(kind, page, want_dpi) == store.ensured(
            kind,
            page,
            want_dpi,
        ),
        store.ensured(kind, page, want_dpi).shown(page) == store.shown(page),
{
    let once = store.ensured(kind, page, want_dpi);
    assert(once.ensured(kind, page, want_dpi).states =~= once.states);
}

/// Asking for one page leaves every other page as it was.
pub proof fn law_asking_leaves_other_pages(
    store: StoreView,
    kind: Kind,
    page: usize,
    want_dpi: u32,
    other: usize,
)
    requires
        other != page,
    ensures
        store.ensured(kind, page, want_dpi).shown(other) == store.shown(other),
        forall|dpi: u32|
            store.ensured(kind, page, want_dpi).asks(kind, other, dpi) == #[trigger] store.asks(
                kind,
                other,
                dpi,
            ),
{
}

/// An emptied store shows nothing and asks for every page anew.
pub proof fn law_emptied_store_starts_over(
    store: StoreView,
    doc: DocumentView,
    quarter_turns: u8,
    pages: Seq<usize>,
    want_dpi: u32,
)
    ensures
        forall|page: usize| #[trigger] store.emptied().shown(page) is None,
        store.emptied().all_jobs(doc, quarter_turns, pages, want_dpi) == pages.map_values(
            |p: usize| store.emptied().job(doc, quarter_turns, p, want_dpi),
        ),
{
    let pred = |p: usize| store.emptied().asks(doc.kind, p, want_dpi);
    lemma_filter_all(pages, pred);
}

/// Where all belong, none is left out.
proof fn lemma_filter_all(pages: Seq<usize>, pred: spec_fn(usize) -> bool)
    requires
        forall|p: usize| #[trigger] pred(p),
    ensures
        pages.filter(pred) == pages,
    decreases pages.len(),
{
    reveal(Seq::filter);
    if pages.len() > 0 {
        lemma_filter_all(pages.drop_last(), pred);
        assert(pages =~= pages.drop_last().push(pages.last()));
    }
}

/// A page of a PDF that is resident at another resolution is still shown while it
/// is rendered anew.
pub proof fn law_stale_page_is_shown_meanwhile(
    store: StoreView,
    page: usize,
    r: Rendered,
    last_used: u64,
    want_dpi: u32,
)
    requires
        store.states.contains_key(page),
        store.states[page] == (PageState::Ready { r, refreshing: false, last_used }),
        r.dpi != want_dpi,
    ensures
        store.asks(Kind::Pdf, page, want_dpi),
        store.ensured(Kind::Pdf, page, want_dpi).shown(page) == Some(r),
{
}

/// An image that is resident is never rendered anew, whatever the resolution.
pub proof fn law_resident_image_is_not_rendered_anew(store: StoreView, page: usize, want_dpi: u32)
    requires
        store.shown(page) is Some,
    ensures
        !store.asks(Kind::Image, page, want_dpi),
{
}

/// A page whose rendering failed is not asked for again before the store is
/// emptied.
pub proof fn law_failed_page_is_left_alone(store: StoreView, kind: Kind, page: usize, want_dpi: u32)
    ensures
        store.accepted(page, None).shown(page) is None,
        !store.accepted(page, None).asks(kind, page, want_dpi),
{
}

/// A page that is resident at exactly the resolution that is wanted sends out no
/// job; one that is resident at another does so if it is a page of a PDF that is not
/// being rendered anew, and only then.
pub proof fn law_page_at_its_resolution_is_left_alone(
    store: StoreView,
    kind: Kind,
    page: usize,
    r: Rendered,
    want_dpi: u32,
)
    requires
        store.shown(page) == Some(r),
    ensures
        r.dpi == want_dpi ==> !store.asks(kind, page, want_dpi),
        r.dpi != want_dpi ==> (store.asks(kind, page, want_dpi) <==> kind is Pdf
            && !store.states[page]->refreshing),
{
}

/// Once a result was taken in, the page is asked for anew at every other resolution,
/// if it is a page of a PDF, and not at its own.
pub proof fn law_result_settles_its_resolution(
    store: StoreView,
    page: usize,
    r: Rendered,
    after: StoreView,
    want_dpi: u32,
)
    requires
        store.takes(after, store.generation, page, Some(r)),
    ensures
        after.shown(page) == Some(r),
        after.asks(Kind::Pdf, page, want_dpi) <==> want_dpi != r.dpi,
        !after.asks(Kind::Image, page, want_dpi),
{
    assert(!store.accepted(page, Some(r)).idle().contains(page));
}

/// A job that is answered as it asks settles the page: it is shown, and asking for it
/// at the same resolution sends out nothing more.
pub proof fn law_answered_job_settles_its_page(
    store: StoreView,
    doc: DocumentView,
    quarter_turns: u8,
    page: usize,
    want_dpi: u32,
    image: u32,
    after: StoreView,
)
    requires
        store.ensured(doc.kind, page, want_dpi).takes(
            after,
            store.job(doc, quarter_turns, page, want_dpi).generation,
            store.job(doc, quarter_turns, page, want_dpi).page,
            Some(
                Rendered { image, dpi: store.job(doc, quarter_turns, page, want_dpi).dpi },
            ),
        ),
    ensures
        after.shown(page) matches Some(r) && r.image == image,
        !after.asks(doc.kind, page, want_dpi),
{
    let asked = store.ensured(doc.kind, page, want_dpi);
    let job = store.job(doc, quarter_turns, page, want_dpi);
    let r = Rendered { image, dpi: job.dpi };
    assert(!asked.accepted(page, Some(r)).idle().contains(page));
}

/// A job asks for the page, of the file, as large and as turned as it is to be.
pub proof fn law_job_says_what_is_wanted(
    store: StoreView,
    doc: DocumentView,
    quarter_turns: u8,
    page: usize,
    want_dpi: u32,
)
    ensures
        ({
            let job = store.job(doc, quarter_turns, page, want_dpi);
            &&& job.page == page
            &&& job.dpi == want_dpi
            &&& job.path == doc.path
            &&& job.kind == doc.kind
            &&& job.size == doc.pages[page as int]
            &&& job.quarter_turns == quarter_turns
            &&& job.generation == store.generation
        }),
{
}

/// A page of which nothing is known is asked for, at whatever resolution and in
/// whatever document, and waits from then on; a page that waits or that failed is
/// not asked for, and neither is one that is being rendered anew.
pub proof fn law_only_unknown_pages_are_asked_for_first(
    store: StoreView,
    kind: Kind,
    page: usize,
    want_dpi: u32,
)
    ensures
        !store.states.contains_key(page) ==> store.asks(kind, page, want_dpi) && store.ensured(
            kind,
            page,
            want_dpi,
        ).states[page] is Pending,
        store.states.contains_key(page) && store.states[page] is Pending ==> !store.asks(
            kind,
            page,
            want_dpi,
        ),
        store.states.contains_key(page) && store.states[page] is Failed ==> !store.asks(
            kind,
            page,
            want_dpi,
        ),
        store.states.contains_key(page) && store.states[page] is Ready
            && store.states[page]->refreshing ==> !store.asks(kind, page, want_dpi),
{
}

/// Asking for a page counts as using it, and changes neither its image nor anything
/// else that is known: not of other pages, not of the store.
pub proof fn law_asking_counts_as_use(
    store: StoreView,
    kind: Kind,
    page: usize,
    want_dpi: u32,
    other: usize,
)
    ensures
        store.ensured(kind, page, want_dpi).shown(page) == store.shown(page),
        store.shown(page) is Some ==> store.ensured(kind, page, want_dpi).states[page]->last_used
            == store.frame,
        !store.ensured(kind, page, want_dpi).idle().contains(page),
        other != page ==> store.ensured(kind, page, want_dpi).states.contains_key(other)
            == store.states.contains_key(other),
        other != page && store.states.contains_key(other) ==> store.ensured(
            kind,
            page,
            want_dpi,
        ).states[other] == store.states[other],
        store.ensured(kind, page, want_dpi).frame == store.frame,
        store.ensured(kind, page, want_dpi).generation == store.generation,
        store.states.contains_key(page) && !(store.states[page] is Ready) ==> store.ensured(
            kind,
            page,
            want_dpi,
        ).states[page] == store.states[page],
{
}

/// A page is being rendered anew exactly from the job for it to its result.
pub proof fn law_refreshing_lasts_from_job_to_result(
    store: StoreView,
    kind: Kind,
    page: usize,
    want_dpi: u32,
    r: Rendered,
    after: StoreView,
)
    requires
        store.takes(after, store.generation, page, Some(r)),
    ensures
        store.shown(page) is Some ==> store.ensured(kind, page, want_dpi).states[page]->refreshing
            == (store.states[page]->refreshing || store.asks(kind, page, want_dpi)),
        !after.states[page]->refreshing,
{
    assert(!store.accepted(page, Some(r)).idle().contains(page));
}

/// Asking for several pages is asking for one after another: each of them sends out
/// the job that it needs, in their order.
pub proof fn law_pages_are_asked_for_one_by_one(
    store: StoreView,
    doc: DocumentView,
    quarter_turns: u8,
    pages: Seq<usize>,
    page: usize,
    want_dpi: u32,
)
    requires
        !pages.contains(page),
    ensures
        store.all_ensured(doc.kind, pages.push(page), want_dpi) == store.all_ensured(
            doc.kind,
            pages,
            want_dpi,
        ).ensured(doc.kind, page, want_dpi),
        store.all_jobs(doc, quarter_turns, pages.push(page), want_dpi) == if store.asks(
            doc.kind,
            page,
            want_dpi,
        ) {
            store.all_jobs(doc, quarter_turns, pages, want_dpi).push(
                store.job(doc, quarter_turns, page, want_dpi),
            )
        } else {
            store.all_jobs(doc, quarter_turns, pages, want_dpi)
        },
        store.all_ensured(doc.kind, Seq::empty(), want_dpi) == store,
        store.all_jobs(doc, quarter_turns, Seq::empty(), want_dpi) == Seq::<JobView>::empty(),
{
    let some = store.all_ensured(doc.kind, pages, want_dpi);
    let more = pages.push(page);
    let pred = |p: usize| store.asks(doc.kind, p, want_dpi);
    let f = |p: usize| store.job(doc, quarter_turns, p, want_dpi);
    assert forall|p: usize| more.contains(p) <==> pages.contains(p) || p == page by {
        vstd::seq_lib::lemma_seq_contains_after_push(pages, page, p);
    }
    assert(some.asks(doc.kind, page, want_dpi) == store.asks(doc.kind, page, want_dpi));
    assert(store.all_ensured(doc.kind, more, want_dpi).states =~= some.ensured(
        doc.kind,
        page,
        want_dpi,
    ).states);
    pages.lemma_filter_push(page, pred);
    assert(store.all_jobs(doc, quarter_turns, more, want_dpi) =~= if pred(page) {
        store.all_jobs(doc, quarter_turns, pages, want_dpi).push(f(page))
    } else {
        store.all_jobs(doc, quarter_turns, pages, want_dpi)
    });
    let none: Seq<usize> = Seq::empty();
    assert(store.all_ensured(doc.kind, none, want_dpi).states =~= store.states);
    reveal(Seq::filter);
    assert(none.filter(pred) =~= none);
    assert(store.all_jobs(doc, quarter_turns, none, want_dpi) =~= Seq::<JobView>::empty());
}

/// While there is room for twenty-four pages, none leaves.
pub proof fn law_nothing_leaves_while_there_is_room(
    store: StoreView,
    page: usize,
    result: Option<Rendered>,
    after: StoreView,
    other: usize,
)
    requires
        store.wf(),
        store.takes(after, store.generation, page, result),
        store.accepted(page, result).resident().len() <= 24,
        other != page,
    ensures
        after.states.contains_key(other) == store.states.contains_key(other),
        store.states.contains_key(other) ==> after.states[other] == store.states[other],
{
    let before = store.accepted(page, result);
    let gone = choose|gone: Set<usize>| before.evicts(after, gone);
    vstd::set_lib::lemma_set_subset_finite(before.idle(), gone);
    assert(gone.len() == 0);
    assert(!gone.contains(other)) by {
        if gone.contains(other) {
            gone.lemma_len0_is_empty();
        }
    }
}

/// What leaves is resident, was not used in this frame, and was used no later than any
/// idle page that stays; what stays is as it was.
pub proof fn law_least_recently_used_pages_leave(
    store: StoreView,
    page: usize,
    result: Option<Rendered>,
    after: StoreView,
    left: usize,
    stayed: usize,
)
    requires
        store.takes(after, store.generation, page, result),
        left != page,
        store.states.contains_key(left),
        !after.states.contains_key(left),
    ensures
        store.states[left] is Ready,
        store.states[left]->last_used < store.frame,
        stayed != page && after.states.contains_key(stayed) ==> store.states.contains_key(stayed)
            && after.states[stayed] == store.states[stayed],
        stayed != page && after.states.contains_key(stayed) && store.states[stayed] is Ready
            && store.states[stayed]->last_used < store.frame ==> store.states[left]->last_used
            <= store.states[stayed]->last_used,
{
    let before = store.accepted(page, result);
    let gone = choose|gone: Set<usize>| before.evicts(after, gone);
    assert(gone.contains(left));
    assert(before.states[left] == store.states[left]);
    assert(before.idle().contains(left));
    if stayed != page && after.states.contains_key(stayed) {
        assert(!gone.contains(stayed));
        assert(before.states[stayed] == store.states[stayed]);
    }
}

/// No more pages leave than are too many: twenty-four stay resident, if there were as
/// many.
pub proof fn law_no_more_leave_than_are_too_many(
    store: StoreView,
    page: usize,
    result: Option<Rendered>,
    after: StoreView,
)
    requires
        store.wf(),
        store.takes(after, store.generation, page, result),
        store.accepted(page, result).resident().len() >= 24,
    ensures
        after.resident().len() >= 24,
        after.resident().len() == 24 || after.idle() == Set::<usize>::empty(),
{
    let before = store.accepted(page, result);
    let gone = choose|gone: Set<usize>| before.evicts(after, gone);
    law_budget_is_kept(store, page, result, after);
    assert(after.resident() =~= before.resident().difference(gone));
    assert(before.resident().finite());
    assert(before.idle().finite());
    vstd::set_lib::lemma_set_subset_finite(before.idle(), gone);
    assert(gone.subset_of(before.resident()));
    vstd::set_lib::lemma_set_difference_len(before.resident(), gone);
    assert(before.resident().intersect(gone) =~= gone);
}

/// A page that waits, or that failed, waits or has failed still when the result for
/// another page was taken in.
pub proof fn law_other_results_leave_waiting_pages(
    store: StoreView,
    page: usize,
    result: Option<Rendered>,
    after: StoreView,
    other: usize,
)
    requires
        store.takes(after, store.generation, page, result),
        other != page,
        store.states.contains_key(other),
        !(store.states[other] is Ready),
    ensures
        after.states.contains_key(other),
        after.states[other] == store.states[other],
        after.frame == store.frame,
        after.generation == store.generation,
{
    let before = store.accepted(page, result);
    let gone = choose|gone: Set<usize>| before.evicts(after, gone);
    assert(!before.idle().contains(other));
}

/// A page whose rendering failed is known to have failed, even if it was resident.
pub proof fn law_failure_is_remembered(store: StoreView, page: usize, after: StoreView)
    requires
        store.takes(after, store.generation, page, None),
    ensures
        after.states.contains_key(page),
        after.states[page] is Failed,
        after.shown(page) is None,
{
    assert(!store.accepted(page, None).idle().contains(page));
}

/// Every resident page is idle when a frame begins, and is used by the frame that asks
/// for it.
pub proof fn law_frames_begin_without_used_pages(store: StoreView, page: usize)
    requires
        store.wf(),
        store.frame < u64::MAX,
    ensures
        store.next_frame().frame == store.frame + 1,
        store.next_frame().states == store.states,
        store.next_frame().idle().contains(page) <==> store.shown(page) is Some,
        store.resident().contains(page) <==> store.shown(page) is Some,
        store.next_frame().wf(),
{
}

/// An emptied store holds nothing, counts that it was emptied, and keeps its frame.
pub proof fn law_emptied_store_is_empty(store: StoreView, page: usize, image: u32)
    requires
        store.generation < u64::MAX,
    ensures
        !store.emptied().states.contains_key(page),
        store.emptied().copies(image) == 0,
        store.emptied().generation == store.generation + 1,
        store.emptied().frame == store.frame,
{
    assert(holders(store.emptied().states, image) =~= Set::empty());
}

/// How often an image is resident goes up by one with each page that is resident as
/// that image, and with no other.
pub proof fn law_copies_count_pages(
    store: StoreView,
    page: usize,
    state: PageState,
    image: u32,
)
    requires
        store.states.dom().finite(),
        !store.states.contains_key(page),
    ensures
        (StoreView { states: store.states.insert(page, state), ..store }).copies(image)
            == store.copies(image) + if state is Ready && state->r.image == image {
            1nat
        } else {
            0nat
        },
{
    lemma_holders_insert(store.states, page, state, image);
}

/// How often an image is in a list goes up by one with each time that it is added; a
/// result brings its image once, and a failure none.
pub proof fn law_lists_count_images(images: Seq<u32>, image: u32, other: u32, dpi: u32)
    ensures
        times(images.push(image), image) == times(images, image) + 1,
        other != image ==> times(images.push(image), other) == times(images, other),
        times(Seq::empty(), image) == 0,
        brought(Some(Rendered { image, dpi }), image) == 1,
        other != image ==> brought(Some(Rendered { image, dpi }), other) == 0,
        brought(None, image) == 0,
{
    images.to_multiset_ensures();
    let none: Seq<u32> = Seq::empty();
    none.to_multiset_ensures();
    assert(none.to_multiset() =~= vstd::multiset::Multiset::empty());
}

/// An image that is no longer resident is freed; one that is resident on no page before
/// and after is freed only if it was just brought; and one that is resident once is
/// either kept or freed, not both.
pub proof fn law_images_are_kept_or_freed(
    before: StoreView,
    result: Option<Rendered>,
    after: StoreView,
    freed: Seq<u32>,
    image: u32,
)
    requires
        balanced(before, result, after, freed),
    ensures
        after.copies(image) < before.copies(image) ==> freed.contains(image),
        result matches Some(r) ==> after.copies(r.image) <= before.copies(r.image) ==> freed.contains(
            r.image,
        ),
        before.copies(image) == 0 && (result matches Some(r) ==> r.image != image) ==> !freed.contains(
            image,
        ),
        before.copies(image) + brought(result, image) == 1 ==> (freed.contains(image) <==> after.copies(
            image,
        ) == 0),
        times(freed, image) == before.copies(image) + brought(result, image) - after.copies(image),
{
    freed.to_multiset_ensures();
    assert(times(freed, image) + after.copies(image) == before.copies(image) + brought(
        result,
        image,
    ));
    assert(freed.contains(image) <==> times(freed, image) > 0);
    if let Some(r) = result {
        assert(times(freed, r.image) + after.copies(r.image) == before.copies(r.image) + brought(
            result,
            r.image,
        ));
        assert(freed.contains(r.image) <==> times(freed, r.image) > 0);
    }
}

/// What a job asks for is everything that it holds, and a list of jobs asks for what each
/// of them does.
pub proof fn law_jobs_are_seen_whole(list: Seq<Job>, i: int)
    requires
        0 <= i < list.len(),
    ensures
        jobs(list).len() == list.len(),
        jobs(list)[i] == (JobView {
            generation: list[i].generation,
            page: list[i].page,
            dpi: list[i].dpi,
            path: list[i].path.bytes@,
            kind: list[i].kind,
            size: list[i].size,
            quarter_turns: list[i].quarter_turns,
        }),
{
}

} // verus!
