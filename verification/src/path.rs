//! File paths, as the bytes that the system knows them by.

use vstd::prelude::*;
use vstd::slice::slice_subrange;

use crate::text::{chars_of, lossy, lossy_text};

verus! {

/// A path: the bytes of a file's name and of the directories that lead to it,
/// separated by slashes.
pub struct FilePath {
    pub bytes: Vec<u8>,
}

impl View for FilePath {
    type V = Seq<u8>;

    open spec fn view(&self) -> Seq<u8> {
        self.bytes@
    }
}

/// A second copy of some bytes.
pub fn copy_bytes(bytes: &[u8]) -> (r: Vec<u8>)
    ensures
        r@ == bytes@,
{
    let mut r: Vec<u8> = Vec::new();
    r.extend_from_slice(bytes);
    assert(r@ =~= bytes@);
    r
}

/// One step of a path.
#[verifier::ext_equal]
pub enum Step {
    /// The root directory.
    Root,
    /// The directory that a relative path starts from, written as a dot.
    Here,
    /// The directory above, written as two dots.
    Up,
    /// A name.
    Name(Seq<u8>),
}

/// The byte that separates the steps of a path.
pub const SLASH: u8 = 47;

/// The byte that separates a file's name from its extension.
pub const DOT: u8 = 46;

/// The position of the first slash, or the length of the path without one.
pub open spec fn first_slash(s: Seq<u8>) -> int
    decreases s.len(),
{
    if s.len() == 0 || s[0] == SLASH {
        0
    } else {
        1 + first_slash(s.skip(1))
    }
}

/// The first slash lies within the path or at its end.
pub proof fn lemma_first_slash(s: Seq<u8>)
    ensures
        0 <= first_slash(s) <= s.len(),
    decreases s.len(),
{
    if s.len() > 0 && s[0] != SLASH {
        lemma_first_slash(s.skip(1));
    }
}

/// The step that a piece between two slashes makes: none if it is empty or a
/// single dot.
pub open spec fn step(piece: Seq<u8>) -> Option<Step> {
    if piece.len() == 0 || piece == seq![DOT] {
        None
    } else if piece == seq![DOT, DOT] {
        Some(Step::Up)
    } else {
        Some(Step::Name(piece))
    }
}

/// The steps of the pieces of a path, behind where it starts.
pub open spec fn later_steps(s: Seq<u8>) -> Seq<Step>
    decreases s.len(),
{
    proof {
        lemma_first_slash(s);
    }
    if s.len() == 0 {
        Seq::empty()
    } else {
        let n = first_slash(s);
        let rest = if n < s.len() {
            later_steps(s.skip(n + 1))
        } else {
            Seq::empty()
        };
        match step(s.take(n)) {
            Some(step) => seq![step] + rest,
            None => rest,
        }
    }
}

/// Where a path starts, if it says so.
pub open spec fn start(s: Seq<u8>) -> Seq<Step> {
    if s.len() > 0 && s[0] == SLASH {
        seq![Step::Root]
    } else if s.len() > 0 && s.take(first_slash(s)) == seq![DOT] {
        seq![Step::Here]
    } else {
        Seq::empty()
    }
}

/// The steps of a path. Two paths are the same when their steps are: slashes in
/// a row count as one, slashes at the end and single dots inside count for
/// nothing.
pub open spec fn steps(s: Seq<u8>) -> Seq<Step> {
    start(s) + later_steps(s)
}

/// A path's last step, if it is a name.
pub open spec fn file_name(s: Seq<u8>) -> Option<Seq<u8>> {
    let all = steps(s);
    if all.len() > 0 && all.last() is Name {
        Some(all.last()->Name_0)
    } else {
        None
    }
}

/// The position of the last dot, or -1 without one.
pub open spec fn last_dot(s: Seq<u8>) -> int
    decreases s.len(),
{
    if s.len() == 0 {
        -1
    } else if s.last() == DOT {
        s.len() - 1
    } else {
        last_dot(s.drop_last())
    }
}

/// What follows the last dot of a file's name; a dot that the name begins with
/// does not count.
pub open spec fn name_extension(name: Seq<u8>) -> Option<Seq<u8>> {
    if last_dot(name) > 0 {
        Some(name.skip(last_dot(name) + 1))
    } else {
        None
    }
}

/// The extension of the file that a path leads to.
pub open spec fn extension(s: Seq<u8>) -> Option<Seq<u8>> {
    match file_name(s) {
        Some(name) => name_extension(name),
        None => None,
    }
}

/// A step as it is held in memory.
pub enum PathStep {
    Root,
    Here,
    Up,
    Name(Vec<u8>),
}

impl View for PathStep {
    type V = Step;

    open spec fn view(&self) -> Step {
        match *self {
            PathStep::Root => Step::Root,
            PathStep::Here => Step::Here,
            PathStep::Up => Step::Up,
            PathStep::Name(name) => Step::Name(name@),
        }
    }
}

/// The steps of a list.
pub open spec fn seen(list: Seq<PathStep>) -> Seq<Step> {
    list.map_values(|p: PathStep| p@)
}

/// The step that a piece between two slashes makes.
fn read_step(piece: &[u8]) -> (r: Option<PathStep>)
    ensures
        match r {
            Some(p) => step(piece@) == Some(p@),
            None => step(piece@) is None,
        },
{
    if piece.len() == 0 {
        return None;
    }
    if piece.len() == 1 && piece[0] == DOT {
        assert(piece@ =~= seq![DOT]);
        return None;
    }
    if piece.len() == 2 && piece[0] == DOT && piece[1] == DOT {
        assert(piece@ =~= seq![DOT, DOT]);
        return Some(PathStep::Up);
    }
    assert(piece@ != seq![DOT]) by {
        if piece@ == seq![DOT] {
            assert(piece@[0] == DOT);
        }
    }
    assert(piece@ != seq![DOT, DOT]) by {
        if piece@ == seq![DOT, DOT] {
            assert(piece@[0] == DOT && piece@[1] == DOT);
        }
    }
    Some(PathStep::Name(copy_bytes(piece)))
}

/// The position of the first slash.
fn slash_position(s: &[u8]) -> (r: usize)
    ensures
        r == first_slash(s@),
        r <= s@.len(),
{
    let mut i: usize = 0;
    assert(s@.skip(0) =~= s@);
    while i < s.len() && s[i] != SLASH
        invariant
            i <= s@.len(),
            first_slash(s@) == i + first_slash(s@.skip(i as int)),
        decreases s@.len() - i,
    {
        assert(s@.skip(i as int).skip(1) =~= s@.skip(i + 1));
        i += 1;
    }
    i
}

/// The position of the last dot and one more, or 0 without one.
fn behind_last_dot(s: &[u8]) -> (r: usize)
    ensures
        r == last_dot(s@) + 1,
        r <= s@.len(),
{
    let mut n: usize = s.len();
    assert(s@.take(n as int) =~= s@);
    while n > 0 && s[n - 1] != DOT
        invariant
            n <= s@.len(),
            last_dot(s@) == last_dot(s@.take(n as int)),
        decreases n,
    {
        assert(s@.take(n as int).drop_last() =~= s@.take(n - 1));
        n -= 1;
    }
    n
}

impl FilePath {
    /// A second copy of the path.
    pub fn copy(&self) -> (r: FilePath)
        ensures
            r@ == self@,
    {
        FilePath { bytes: copy_bytes(self.bytes.as_slice()) }
    }

    /// The steps of the path.
    pub fn steps(&self) -> (r: Vec<PathStep>)
        ensures
            seen(r@) == steps(self@),
    {
        let mut r: Vec<PathStep> = Vec::new();
        let mut rest: &[u8] = self.bytes.as_slice();
        if rest.len() > 0 && rest[0] == SLASH {
            r.push(PathStep::Root);
        } else if rest.len() > 0 {
            let n = slash_position(rest);
            if n == 1 && rest[0] == DOT {
                r.push(PathStep::Here);
                assert(self@.take(1) =~= seq![DOT]);
            } else {
                assert(self@.take(n as int) != seq![DOT]) by {
                    if self@.take(n as int) == seq![DOT] {
                        assert(self@.take(n as int)[0] == DOT);
                        assert(self@.take(n as int).len() == 1);
                    }
                }
            }
        }
        assert(seen(r@) =~= start(self@));
        while rest.len() > 0
            invariant
                seen(r@) + later_steps(rest@) == steps(self@),
            decreases rest@.len(),
        {
            let ghost before = r@;
            let ghost whole = rest@;
            let n = slash_position(rest);
            let piece = slice_subrange(rest, 0, n);
            assert(piece@ =~= whole.take(n as int));
            let found = read_step(piece);
            if n < rest.len() {
                rest = slice_subrange(rest, n + 1, rest.len());
                assert(rest@ =~= whole.skip(n + 1));
            } else {
                rest = slice_subrange(rest, n, n);
                assert(later_steps(rest@) =~= Seq::empty());
            }
            if let Some(p) = found {
                r.push(p);
                assert(seen(r@) =~= seen(before).push(p@));
            }
            assert(seen(r@) + later_steps(rest@) =~= seen(before) + later_steps(whole));
        }
        assert(seen(r@) + later_steps(rest@) =~= seen(r@));
        r
    }

    /// The path's last step, if it is a name.
    pub fn file_name(&self) -> (r: Option<Vec<u8>>)
        ensures
            match r {
                Some(name) => file_name(self@) == Some(name@),
                None => file_name(self@) is None,
            },
    {
        let mut all = self.steps();
        let ghost listed = all@;
        match all.pop() {
            Some(last) => {
                assert(steps(self@).last() == last@);
                match last {
                    PathStep::Name(name) => Some(name),
                    _ => None,
                }
            },
            None => None,
        }
    }

    /// The extension of the file that the path leads to.
    pub fn extension(&self) -> (r: Option<Vec<u8>>)
        ensures
            match r {
                Some(e) => extension(self@) == Some(e@),
                None => extension(self@) is None,
            },
    {
        match self.file_name() {
            Some(name) => {
                let n = behind_last_dot(name.as_slice());
                if n > 1 {
                    Some(copy_bytes(slice_subrange(name.as_slice(), n, name.len())))
                } else {
                    None
                }
            },
            None => None,
        }
    }
}

/// The extensions of the images that can be opened.
pub const IMAGE_EXTS: [&'static str; 9] = [
    "png",
    "jpg",
    "jpeg",
    "gif",
    "webp",
    "bmp",
    "tif",
    "tiff",
    "ico",
];

/// The extensions of all files that can be opened.
pub const DOCUMENT_EXTS: [&'static str; 10] = [
    "pdf",
    "png",
    "jpg",
    "jpeg",
    "gif",
    "webp",
    "bmp",
    "tif",
    "tiff",
    "ico",
];

/// A byte with an ASCII capital letter made small.
pub open spec fn small(b: u8) -> u8 {
    if 65 <= b <= 90 {
        (b + 32) as u8
    } else {
        b
    }
}

/// Whether some bytes spell a word in ASCII, capital letters or small.
pub open spec fn spells(bytes: Seq<u8>, word: Seq<char>) -> bool {
    &&& bytes.len() == word.len()
    &&& forall|i: int| 0 <= i < bytes.len() ==> small(#[trigger] bytes[i]) as u32 == word[i] as u32
}

/// Whether some bytes spell a word in ASCII, capital letters or small.
pub fn spell(bytes: &[u8], word: &str) -> (r: bool)
    ensures
        r == spells(bytes@, word@),
{
    let w = chars_of(word);
    if bytes.len() != w.len() {
        return false;
    }
    let mut i: usize = 0;
    while i < bytes.len()
        invariant
            i <= bytes@.len() == w@.len(),
            w@ == word@,
            forall|j: int| 0 <= j < i ==> small(#[trigger] bytes@[j]) as u32 == word@[j] as u32,
        decreases bytes@.len() - i,
    {
        let b: u8 = bytes[i];
        let c: u8 = if 65 <= b && b <= 90 {
            b + 32
        } else {
            b
        };
        if c as u32 != w[i] as u32 {
            assert(small(bytes@[i as int]) as u32 != word@[i as int] as u32);
            return false;
        }
        i += 1;
    }
    true
}

/// Whether a path leads to an image, by its extension.
pub open spec fn is_image(s: Seq<u8>) -> bool {
    extension(s) matches Some(e) && exists|i: int|
        0 <= i < IMAGE_EXTS@.len() && spells(e, #[trigger] IMAGE_EXTS@[i]@)
}

/// Whether a path leads to a PDF, by its extension.
pub open spec fn is_pdf(s: Seq<u8>) -> bool {
    extension(s) matches Some(e) && spells(e, "pdf"@)
}

impl FilePath {
    /// Whether the path leads to an image, by its extension.
    pub fn is_image(&self) -> (r: bool)
        ensures
            r == is_image(self@),
    {
        match self.extension() {
            Some(e) => {
                let mut i: usize = 0;
                while i < 9
                    invariant
                        i <= 9,
                        extension(self@) == Some(e@),
                        forall|j: int| 0 <= j < i ==> !spells(e@, #[trigger] IMAGE_EXTS@[j]@),
                    decreases 9 - i,
                {
                    if spell(e.as_slice(), IMAGE_EXTS[i]) {
                        assert(spells(e@, IMAGE_EXTS@[i as int]@));
                        return true;
                    }
                    i += 1;
                }
                false
            },
            None => false,
        }
    }

    /// Whether the path leads to a PDF, by its extension.
    pub fn is_pdf(&self) -> (r: bool)
        ensures
            r == is_pdf(self@),
    {
        match self.extension() {
            Some(e) => spell(e.as_slice(), "pdf"),
            None => false,
        }
    }

    /// What is written of the path on screen.
    pub fn display(&self) -> (r: String)
        ensures
            r@ == lossy(self@),
    {
        lossy_text(self.bytes.as_slice())
    }
}

/// The first slash is where there is one and none before it.
proof fn lemma_slash_found(s: Seq<u8>, n: int)
    ensures
        first_slash(s) < s.len() ==> s[first_slash(s)] == SLASH,
        forall|k: int| 0 <= k < first_slash(s) ==> s[k] != SLASH,
        0 <= n <= s.len() && (n < s.len() ==> s[n] == SLASH) && (forall|k: int|
            0 <= k < n ==> s[k] != SLASH) ==> first_slash(s) == n,
    decreases s.len(),
{
    if s.len() > 0 && s[0] != SLASH {
        let t = s.skip(1);
        assert forall|k: int| 0 <= k < t.len() implies t[k] == s[k + 1] by {}
        lemma_first_slash(t);
        lemma_slash_found(t, n - 1);
        assert forall|k: int| 0 <= k < first_slash(s) implies s[k] != SLASH by {
            if k > 0 {
                assert(s[k] == t[k - 1]);
            }
        }
    }
}

/// A slash parts the steps before it from the steps behind it.
proof fn lemma_slash_parts_steps(a: Seq<u8>, b: Seq<u8>)
    ensures
        later_steps(a.push(SLASH) + b) == later_steps(a) + later_steps(b),
    decreases a.len(),
{
    let s = a.push(SLASH) + b;
    let n = first_slash(a);
    lemma_first_slash(a);
    lemma_slash_found(a, n);
    assert forall|k: int| 0 <= k < a.len() implies s[k] == a[k] by {}
    assert(s[a.len() as int] == SLASH);
    lemma_slash_found(s, n);
    assert(s.take(n) =~= a.take(n));
    if n < a.len() {
        assert(s.skip(n + 1) =~= a.skip(n + 1).push(SLASH) + b);
        lemma_slash_parts_steps(a.skip(n + 1), b);
        assert(later_steps(s) =~= later_steps(a) + later_steps(b));
    } else {
        assert(s.skip(n + 1) =~= b);
        assert(later_steps(s) =~= later_steps(a) + later_steps(b));
    }
}

/// Whether some bytes can stand between two slashes as a name.
pub open spec fn is_name(name: Seq<u8>) -> bool {
    &&& name.len() > 0
    &&& forall|i: int| 0 <= i < name.len() ==> #[trigger] name[i] != SLASH
    &&& name != seq![DOT]
    &&& name != seq![DOT, DOT]
}

/// The steps of a single piece.
proof fn lemma_one_piece(piece: Seq<u8>)
    requires
        forall|i: int| 0 <= i < piece.len() ==> #[trigger] piece[i] != SLASH,
    ensures
        later_steps(piece) == match step(piece) {
            Some(step) => seq![step],
            None => Seq::empty(),
        },
        first_slash(piece) == piece.len(),
{
    lemma_slash_found(piece, piece.len() as int);
    assert(piece.take(piece.len() as int) =~= piece);
    match step(piece) {
        Some(step) => {
            assert(later_steps(piece) =~= seq![step]);
        },
        None => {
            assert(later_steps(piece) =~= Seq::<Step>::empty());
        },
    }
}

/// A path starts where its first piece says, whatever follows the slash behind it.
proof fn lemma_start(dir: Seq<u8>, rest: Seq<u8>)
    requires
        dir.len() > 0,
    ensures
        start(dir.push(SLASH) + rest) == start(dir),
{
    let s = dir.push(SLASH) + rest;
    let n = first_slash(dir);
    lemma_first_slash(dir);
    lemma_slash_found(dir, n);
    assert forall|k: int| 0 <= k < dir.len() implies s[k] == dir[k] by {}
    assert(s[dir.len() as int] == SLASH);
    lemma_slash_found(s, n);
    assert(s.take(n) =~= dir.take(n));
}

/// A path into a directory goes on from the steps of the directory: a name is one
/// more step, two dots lead up, and an empty piece or a single dot is no step.
pub proof fn law_path_goes_on_from_its_directory(dir: Seq<u8>, name: Seq<u8>)
    requires
        dir.len() > 0,
    ensures
        is_name(name) ==> steps(dir.push(SLASH) + name) == steps(dir).push(Step::Name(name)),
        steps(dir.push(SLASH) + seq![DOT, DOT]) == steps(dir).push(Step::Up),
        steps(dir.push(SLASH) + seq![DOT]) == steps(dir),
        steps(dir.push(SLASH)) == steps(dir),
        steps(dir.push(SLASH).push(SLASH) + name) == steps(dir.push(SLASH) + name),
        steps(dir.push(SLASH) + seq![DOT] + seq![SLASH] + name) == steps(dir.push(SLASH) + name),
{
    let none: Seq<u8> = Seq::empty();
    lemma_start(dir, name);
    lemma_slash_parts_steps(dir, name);
    if is_name(name) {
        lemma_one_piece(name);
        assert(steps(dir.push(SLASH) + name) =~= steps(dir).push(Step::Name(name)));
    }
    let up = seq![DOT, DOT];
    lemma_one_piece(up);
    lemma_start(dir, up);
    lemma_slash_parts_steps(dir, up);
    assert(up != seq![DOT]) by {
        assert(up.len() == 2);
    }
    assert(steps(dir.push(SLASH) + up) =~= steps(dir).push(Step::Up));
    let here = seq![DOT];
    lemma_one_piece(here);
    lemma_start(dir, here);
    lemma_slash_parts_steps(dir, here);
    assert(steps(dir.push(SLASH) + here) =~= steps(dir));
    lemma_start(dir, none);
    lemma_slash_parts_steps(dir, none);
    assert(dir.push(SLASH) + none =~= dir.push(SLASH));
    assert(steps(dir.push(SLASH)) =~= steps(dir));
    lemma_start(dir.push(SLASH), name);
    lemma_slash_parts_steps(dir.push(SLASH), name);
    assert(steps(dir.push(SLASH).push(SLASH) + name) =~= steps(dir.push(SLASH) + name));
    let dotted = dir.push(SLASH) + here;
    lemma_start(dotted, name);
    lemma_slash_parts_steps(dotted, name);
    assert(dir.push(SLASH) + seq![DOT] + seq![SLASH] + name =~= dotted.push(SLASH) + name);
    assert(steps(dotted.push(SLASH) + name) =~= steps(dir.push(SLASH) + name));
}

/// A path begins at the root with a slash, where it stands with a single dot, and
/// else with its first name.
pub proof fn law_where_a_path_begins(name: Seq<u8>)
    requires
        is_name(name),
    ensures
        steps(name) == seq![Step::Name(name)],
        steps(seq![SLASH] + name) == seq![Step::Root, Step::Name(name)],
        steps(seq![DOT, SLASH] + name) == seq![Step::Here, Step::Name(name)],
        steps(seq![SLASH]) == seq![Step::Root],
        steps(Seq::empty()) == Seq::<Step>::empty(),
{
    let none: Seq<u8> = Seq::empty();
    lemma_one_piece(name);
    assert(name.take(name.len() as int) =~= name);
    assert(steps(name) =~= seq![Step::Name(name)]);
    lemma_slash_parts_steps(none, name);
    assert(none.push(SLASH) + name =~= seq![SLASH] + name);
    assert((seq![SLASH] + name)[0] == SLASH);
    assert(steps(seq![SLASH] + name) =~= seq![Step::Root, Step::Name(name)]);
    let here = seq![DOT];
    lemma_one_piece(here);
    assert(here.take(1) =~= here);
    lemma_slash_parts_steps(here, name);
    lemma_start(here, name);
    assert(here.push(SLASH) + name =~= seq![DOT, SLASH] + name);
    assert(steps(seq![DOT, SLASH] + name) =~= seq![Step::Here, Step::Name(name)]);
    lemma_slash_parts_steps(none, none);
    assert(none.push(SLASH) + none =~= seq![SLASH]);
    assert(steps(seq![SLASH]) =~= seq![Step::Root]);
    assert(steps(none) =~= Seq::<Step>::empty());
}

/// The name of a file is what follows the last slash of its path; slashes behind
/// it change nothing, and a path that ends by leading up names no file.
pub proof fn law_file_name_follows_the_last_slash(dir: Seq<u8>, name: Seq<u8>)
    requires
        is_name(name),
    ensures
        file_name(name) == Some(name),
        file_name(dir.push(SLASH) + name) == Some(name),
        file_name((dir.push(SLASH) + name).push(SLASH)) == Some(name),
        file_name(dir.push(SLASH) + seq![DOT, DOT]) is None,
        file_name(seq![SLASH]) is None,
        file_name(Seq::empty()) is None,
{
    law_where_a_path_begins(name);
    let up = seq![DOT, DOT];
    if dir.len() > 0 {
        law_path_goes_on_from_its_directory(dir, name);
    } else {
        assert(dir.push(SLASH) + name =~= seq![SLASH] + name);
        lemma_one_piece(up);
        lemma_slash_parts_steps(dir, up);
        assert(up != seq![DOT]) by {
            assert(up.len() == 2);
        }
        assert((dir.push(SLASH) + up)[0] == SLASH);
        assert(steps(dir.push(SLASH) + up) =~= seq![Step::Root, Step::Up]);
    }
    law_path_goes_on_from_its_directory(dir.push(SLASH) + name, name);
}

/// The last dot is where there is one and none behind it.
proof fn lemma_last_dot(stem: Seq<u8>, ext: Seq<u8>)
    requires
        !ext.contains(DOT),
    ensures
        last_dot(stem.push(DOT) + ext) == stem.len(),
        last_dot(ext) == -1,
    decreases ext.len(),
{
    let s = stem.push(DOT) + ext;
    if ext.len() > 0 {
        let shorter = ext.drop_last();
        assert(ext[ext.len() - 1] != DOT);
        assert(!shorter.contains(DOT)) by {
            if shorter.contains(DOT) {
                let i = choose|i: int| 0 <= i < shorter.len() && shorter[i] == DOT;
                assert(ext[i] == DOT);
            }
        }
        assert(s.last() == ext.last());
        assert(s.drop_last() =~= stem.push(DOT) + shorter);
        lemma_last_dot(stem, shorter);
    } else {
        assert(s =~= stem.push(DOT));
    }
}

/// The extension is what follows the last dot of a file's name, whatever stands
/// before that dot, unless nothing does; a name without a dot has none.
pub proof fn law_extension_follows_the_last_dot(path: Seq<u8>, stem: Seq<u8>, ext: Seq<u8>)
    requires
        !ext.contains(DOT),
    ensures
        stem.len() > 0 && file_name(path) == Some(stem.push(DOT) + ext) ==> extension(path) == Some(
            ext,
        ),
        file_name(path) == Some(seq![DOT] + ext) ==> extension(path) is None,
        file_name(path) == Some(ext) ==> extension(path) is None,
        file_name(path) is None ==> extension(path) is None,
{
    lemma_last_dot(stem, ext);
    assert((stem.push(DOT) + ext).skip(stem.len() as int + 1) =~= ext);
    lemma_last_dot(Seq::empty(), ext);
    assert(Seq::<u8>::empty().push(DOT) + ext =~= seq![DOT] + ext);
}

/// Whether two bytes are the same letter of ASCII, capital or small, or the same
/// byte.
pub open spec fn same_letter(a: u8, b: u8) -> bool {
    ||| a == b
    ||| 65 <= a <= 90 && b == a + 32
    ||| 65 <= b <= 90 && a == b + 32
}

/// Capital letters and small letters spell the same word.
pub proof fn law_case_does_not_matter(a: Seq<u8>, b: Seq<u8>, word: Seq<char>)
    requires
        a.len() == b.len(),
        forall|i: int| 0 <= i < a.len() ==> same_letter(#[trigger] a[i], b[i]),
    ensures
        spells(a, word) == spells(b, word),
{
    assert forall|i: int| 0 <= i < a.len() implies small(#[trigger] a[i]) == small(b[i]) by {
        assert(same_letter(a[i], b[i]));
    }
    if spells(a, word) {
        assert forall|i: int| 0 <= i < b.len() implies small(#[trigger] b[i]) as u32
            == word[i] as u32 by {
            assert(small(a[i]) as u32 == word[i] as u32);
        }
    }
    if spells(b, word) {
        assert forall|i: int| 0 <= i < a.len() implies small(#[trigger] a[i]) as u32
            == word[i] as u32 by {
            assert(small(b[i]) as u32 == word[i] as u32);
        }
    }
}

/// Bytes in small letters spell exactly the word that has the same numbers.
pub proof fn law_small_letters_spell_themselves(bytes: Seq<u8>, word: Seq<char>)
    requires
        forall|i: int| 0 <= i < bytes.len() ==> !(65 <= #[trigger] bytes[i] <= 90),
    ensures
        spells(bytes, word) <==> bytes.len() == word.len() && forall|i: int|
            0 <= i < bytes.len() ==> #[trigger] bytes[i] as u32 == word[i] as u32,
{
    if spells(bytes, word) {
        assert forall|i: int| 0 <= i < bytes.len() implies #[trigger] bytes[i] as u32
            == word[i] as u32 by {
            assert(small(bytes[i]) as u32 == word[i] as u32);
        }
    }
}

/// An image is a file with one of these nine extensions, and a PDF is a file with
/// this one.
pub proof fn law_extensions_of_images_and_pdfs(path: Seq<u8>, e: Seq<u8>)
    requires
        extension(path) == Some(e),
    ensures
        is_image(path) <==> spells(e, "png"@) || spells(e, "jpg"@) || spells(e, "jpeg"@) || spells(
            e,
            "gif"@,
        ) || spells(e, "webp"@) || spells(e, "bmp"@) || spells(e, "tif"@) || spells(e, "tiff"@)
            || spells(e, "ico"@),
        is_pdf(path) <==> spells(e, "pdf"@),
        is_pdf(path) ==> !is_image(path),
{
    let exts = IMAGE_EXTS@;
    assert(exts[0]@ == "png"@ && exts[1]@ == "jpg"@ && exts[2]@ == "jpeg"@ && exts[3]@ == "gif"@
        && exts[4]@ == "webp"@ && exts[5]@ == "bmp"@ && exts[6]@ == "tif"@ && exts[7]@ == "tiff"@
        && exts[8]@ == "ico"@);
    if is_image(path) {
        let i = choose|i: int| 0 <= i < IMAGE_EXTS@.len() && spells(e, #[trigger] IMAGE_EXTS@[i]@);
        assert(i == 0 || i == 1 || i == 2 || i == 3 || i == 4 || i == 5 || i == 6 || i == 7 || i == 8);
    }
    reveal_strlit("pdf");
    reveal_strlit("png");
    reveal_strlit("jpg");
    reveal_strlit("jpeg");
    reveal_strlit("gif");
    reveal_strlit("webp");
    reveal_strlit("bmp");
    reveal_strlit("tif");
    reveal_strlit("tiff");
    reveal_strlit("ico");
    if is_pdf(path) {
        assert(small(e[0]) as u32 == 'p' as u32);
        assert(small(e[1]) as u32 == 'd' as u32);
        assert(small(e[2]) as u32 == 'f' as u32);
        assert(e.len() == 3);
    }
}

/// What a step is is what it holds, and a list of steps is each of them in its place.
pub proof fn law_steps_are_seen_whole(list: Seq<PathStep>, i: int)
    requires
        0 <= i < list.len(),
    ensures
        seen(list).len() == list.len(),
        list[i] matches PathStep::Name(name) ==> seen(list)[i] == Step::Name(name@),
        list[i] is Root ==> seen(list)[i] is Root,
        list[i] is Here ==> seen(list)[i] is Here,
        list[i] is Up ==> seen(list)[i] is Up,
{
}

} // verus!
