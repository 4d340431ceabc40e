//! What a document is: a file that is one image, or the pages of a PDF.

use vstd::prelude::*;

use crate::path::{
    extension, is_image, is_pdf, law_extensions_of_images_and_pdfs, spells, FilePath, DOCUMENT_EXTS,
    IMAGE_EXTS,
};
use crate::pdfinfo::{
    all_sizes, law_every_page_gets_its_size, page_count, page_sizes, read_pages, told, told_count,
    told_of_each, told_pages, PageEntry, PageFact, PageLine,
};
use crate::tool::{printed, read_output, ToolOutput};

verus! {

/// What kind of file a document is.
#[derive(Debug, Clone, Copy, PartialEq, Eq, Structural)]
pub enum Kind {
    Image,
    Pdf,
}

/// A length or a coordinate, held as the bit pattern of a 64-bit binary
/// floating-point number. The library hands such values on and trades their
/// places; it does not calculate with them.
#[derive(Debug, Clone, Copy, PartialEq, Eq, Structural)]
pub struct Scalar {
    pub bits: u64,
}

/// The size of a page in document units: points for a PDF, pixels for an image.
#[derive(Debug, Clone, Copy, PartialEq, Eq, Structural)]
pub struct PageSize {
    pub w: Scalar,
    pub h: Scalar,
}

impl PageSize {
    /// The size of the page once it lies on its side.
    pub open spec fn spec_turned(self) -> PageSize {
        PageSize { w: self.h, h: self.w }
    }

    /// The size of the page after a number of quarter turns.
    pub open spec fn spec_rotated(self, quarter_turns: int) -> PageSize {
        if quarter_turns % 2 == 1 {
            self.spec_turned()
        } else {
            self
        }
    }

    /// The size of the page after a number of quarter turns: an odd number
    /// trades its width for its height.
    pub fn rotated(self, quarter_turns: u8) -> (r: PageSize)
        ensures
            r == self.spec_rotated(quarter_turns as int),
    {
        if quarter_turns % 2 == 1 {
            PageSize { w: self.h, h: self.w }
        } else {
            self
        }
    }
}

/// An open document: its file, and the size of each of its pages.
pub struct Document {
    pub path: FilePath,
    pub kind: Kind,
    pub pages: Vec<PageSize>,
}

/// What a document is, apart from how it is held in memory.
#[verifier::ext_equal]
pub struct DocumentView {
    pub path: Seq<u8>,
    pub kind: Kind,
    pub pages: Seq<PageSize>,
}

impl View for Document {
    type V = DocumentView;

    open spec fn view(&self) -> DocumentView {
        DocumentView { path: self.path@, kind: self.kind, pages: self.pages@ }
    }
}

/// What kind of document a path leads to, by its extension.
pub open spec fn kind_of(path: Seq<u8>) -> Option<Kind> {
    if is_pdf(path) {
        Some(Kind::Pdf)
    } else if is_image(path) {
        Some(Kind::Image)
    } else {
        None
    }
}

/// How the file at a path is loaded, or why it is not.
pub open spec fn loads_as(path: Seq<u8>) -> Result<Kind, Seq<char>> {
    match kind_of(path) {
        Some(kind) => Ok(kind),
        None => Err("unsupported file type"@),
    }
}

/// What is known of an opened document, or why it could not be opened.
pub open spec fn outcome(loaded: Result<Document, String>) -> Result<DocumentView, Seq<char>> {
    match loaded {
        Ok(d) => Ok(d@),
        Err(e) => Err(e@),
    }
}

/// The page count that a run of `pdfinfo` tells, or why it tells none.
pub open spec fn run_count(run: Result<ToolOutput, String>) -> Result<int, Seq<char>> {
    match printed("pdfinfo"@, run) {
        Ok(text) => told_count(text),
        Err(words) => Err(words),
    }
}

/// The page count of a PDF, from a run of `pdfinfo` without arguments: what the
/// run says if it failed, and otherwise the count that it printed.
pub fn read_page_count(run: Result<ToolOutput, String>) -> (r: Result<usize, String>)
    ensures
        match run_count(run) {
            Ok(n) => r matches Ok(k) && k == n,
            Err(words) => r matches Err(e) && e@ == words,
        },
        r matches Ok(count) ==> count > 0,
{
    match read_output("pdfinfo", run) {
        Ok(text) => page_count(text.as_str()),
        Err(e) => Err(e),
    }
}

/// What a run of `pdfinfo` tells of the pages, or why it tells nothing.
pub open spec fn run_pages(run: Result<ToolOutput, String>) -> Result<Seq<PageFact>, Seq<char>> {
    match printed("pdfinfo"@, run) {
        Ok(text) => Ok(told_pages(text)),
        Err(words) => Err(words),
    }
}

/// What a run of `pdfinfo` over all pages tells of each page: what the run says
/// if it failed, and otherwise what the lines that it printed tell.
pub fn read_page_lines(run: Result<ToolOutput, String>) -> (r: Result<Vec<PageLine>, String>)
    ensures
        match run_pages(run) {
            Ok(list) => r matches Ok(read) && told(read@) == list,
            Err(words) => r matches Err(e) && e@ == words,
        },
{
    match read_output("pdfinfo", run) {
        Ok(text) => Ok(read_pages(text.as_str())),
        Err(e) => Err(e),
    }
}

/// The document that an image file is, or why there is none.
pub open spec fn image_document(path: Seq<u8>, size: Result<PageSize, String>) -> Result<
    DocumentView,
    Seq<char>,
> {
    match size {
        Ok(size) => Ok(DocumentView { path, kind: Kind::Image, pages: seq![size] }),
        Err(e) => Err(e@),
    }
}

/// The document that a PDF is, or why there is none.
pub open spec fn pdf_document(path: Seq<u8>, count: usize, entries: Seq<PageEntry>) -> Result<
    DocumentView,
    Seq<char>,
> {
    match all_sizes(count, entries) {
        Ok(pages) => Ok(DocumentView { path, kind: Kind::Pdf, pages }),
        Err(e) => Err(e),
    }
}

impl Document {
    /// How the file at a path has to be loaded: as a PDF or as an image. Any
    /// other file is refused.
    pub fn load(path: &FilePath) -> (r: Result<Kind, String>)
        ensures
            match loads_as(path@) {
                Ok(kind) => r == Ok::<Kind, String>(kind),
                Err(words) => r matches Err(e) && e@ == words,
            },
    {
        if path.is_pdf() {
            Ok(Kind::Pdf)
        } else if path.is_image() {
            Ok(Kind::Image)
        } else {
            Err("unsupported file type".to_string())
        }
    }

    /// The document that an image file is: one page of its size in pixels, if
    /// that size could be read.
    pub fn load_image(path: &FilePath, size: Result<PageSize, String>) -> (r: Result<
        Document,
        String,
    >)
        ensures
            outcome(r) == image_document(path@, size),
            r matches Ok(d) ==> d.pages@.len() == 1,
    {
        match size {
            Ok(size) => {
                let mut pages: Vec<PageSize> = Vec::new();
                pages.push(size);
                assert(pages@ =~= seq![size]);
                Ok(Document { path: path.copy(), kind: Kind::Image, pages })
            },
            Err(e) => Err(e),
        }
    }

    /// The document that a PDF is: as many pages as it counts, each of the size
    /// that was read of it.
    pub fn load_pdf(path: &FilePath, count: usize, entries: &Vec<PageEntry>) -> (r: Result<
        Document,
        String,
    >)
        ensures
            outcome(r) == pdf_document(path@, count, entries@),
            r matches Ok(d) ==> d.pages@.len() == count,
    {
        match page_sizes(count, entries) {
            Ok(pages) => Ok(Document { path: path.copy(), kind: Kind::Pdf, pages }),
            Err(e) => Err(e),
        }
    }
}

/// The files that can be opened are those with one of the listed extensions.
pub proof fn law_listed_extensions_open(path: Seq<u8>)
    ensures
        kind_of(path) is Some <==> (extension(path) matches Some(e) && exists|i: int|
            0 <= i < DOCUMENT_EXTS@.len() && spells(e, #[trigger] DOCUMENT_EXTS@[i]@)),
{
    assert(DOCUMENT_EXTS@[0]@ == "pdf"@);
    assert forall|i: int| 0 <= i < 9 implies #[trigger] IMAGE_EXTS@[i] == DOCUMENT_EXTS@[i + 1] by {
        assert(i == 0 || i == 1 || i == 2 || i == 3 || i == 4 || i == 5 || i == 6 || i == 7 || i == 8);
    }
    if let Some(e) = extension(path) {
        if is_image(path) {
            let i = choose|i: int|
                0 <= i < IMAGE_EXTS@.len() && spells(e, #[trigger] IMAGE_EXTS@[i]@);
            assert(spells(e, DOCUMENT_EXTS@[i + 1]@));
        }
        if exists|i: int| 0 <= i < DOCUMENT_EXTS@.len() && spells(e, #[trigger] DOCUMENT_EXTS@[i]@) {
            let i = choose|i: int|
                0 <= i < DOCUMENT_EXTS@.len() && spells(e, #[trigger] DOCUMENT_EXTS@[i]@);
            if i > 0 {
                assert(IMAGE_EXTS@[i - 1] == DOCUMENT_EXTS@[i]);
            }
        }
    }
}

/// A PDF whose every page is told with its size and its rotation opens with the
/// file's path and exactly those pages, each turned as it lies; an image opens with
/// one page of its size.
pub proof fn law_opened_document_has_its_pages(
    path: Seq<u8>,
    pages: Seq<(PageSize, i32)>,
    i: int,
    size: PageSize,
)
    requires
        pages.len() <= usize::MAX,
        0 <= i < pages.len(),
    ensures
        pdf_document(path, pages.len() as usize, told_of_each(pages)) matches Ok(d) && d.path == path
            && d.kind is Pdf && d.pages.len() == pages.len() && (if pages[i].1 == 90 || pages[i].1
            == 270 {
            d.pages[i].w == pages[i].0.h && d.pages[i].h == pages[i].0.w
        } else {
            d.pages[i] == pages[i].0
        }),
        image_document(path, Ok(size)) matches Ok(d) && d.path == path && d.kind is Image
            && d.pages.len() == 1 && d.pages[0] == size,
{
    law_every_page_gets_its_size(pages, i);
}

/// What could not be read is complained of in its own words, and what was printed is
/// read.
pub proof fn law_complaints_are_handed_on(
    path: Seq<u8>,
    e: String,
    run: Result<ToolOutput, String>,
    words: Seq<char>,
)
    ensures
        image_document(path, Err(e)) == Err::<DocumentView, Seq<char>>(e@),
        printed("pdfinfo"@, run) == Err::<Seq<char>, Seq<char>>(words) ==> run_count(run) == Err::<
            int,
            Seq<char>,
        >(words) && run_pages(run) == Err::<Seq<PageFact>, Seq<char>>(words),
        printed("pdfinfo"@, run) == Ok::<Seq<char>, Seq<char>>(words) ==> run_count(run)
            == told_count(words) && run_pages(run) == Ok::<Seq<PageFact>, Seq<char>>(
            told_pages(words),
        ),
{
}

/// A page lies on its side after one quarter turn, and as before after two.
pub proof fn law_two_turns_of_a_page_lead_back(size: PageSize, turns: int)
    ensures
        size.spec_rotated(1).w == size.h && size.spec_rotated(1).h == size.w,
        size.spec_rotated(turns).spec_rotated(1) == size.spec_rotated(turns + 1),
        size.spec_rotated(turns + 2) == size.spec_rotated(turns),
        size.spec_rotated(0) == size,
{
}

/// What a file is goes by its extension alone, and a PDF is no image.
pub proof fn law_kind_goes_by_extension(path: Seq<u8>, e: Seq<u8>)
    requires
        extension(path) == Some(e),
    ensures
        loads_as(path) == Ok::<Kind, Seq<char>>(Kind::Pdf) <==> spells(e, "pdf"@),
        loads_as(path) == Ok::<Kind, Seq<char>>(Kind::Image) <==> spells(e, "png"@) || spells(e, "jpg"@) || spells(
            e,
            "jpeg"@,
        ) || spells(e, "gif"@) || spells(e, "webp"@) || spells(e, "bmp"@) || spells(e, "tif"@)
            || spells(e, "tiff"@) || spells(e, "ico"@),
{
    law_extensions_of_images_and_pdfs(path, e);
}

/// A file without an extension is refused.
pub proof fn law_no_extension_no_document(path: Seq<u8>)
    requires
        extension(path) is None,
    ensures
        loads_as(path) == Err::<Kind, Seq<char>>("unsupported file type"@),
{
}

/// What is known of a document is everything that it holds.
pub proof fn law_document_is_seen_whole(d: Document)
    ensures
        d@.path == d.path.bytes@,
        d@.kind == d.kind,
        d@.pages == d.pages@,
{
}

} // verus!
