//! The files that are browsed with the arrow keys.

use vstd::prelude::*;

use crate::path::{
    is_image, is_name, law_path_goes_on_from_its_directory, law_where_a_path_begins, seen, steps,
    FilePath, PathStep, Step, SLASH,
};

verus! {

/// Whether one string of bytes comes before another, or is the same.
pub open spec fn bytes_le(a: Seq<u8>, b: Seq<u8>) -> bool
    decreases a.len(),
{
    if a.len() == 0 {
        true
    } else if b.len() == 0 {
        false
    } else if a[0] == b[0] {
        bytes_le(a.skip(1), b.skip(1))
    } else {
        a[0] < b[0]
    }
}

/// The place of a step among the kinds of steps.
pub open spec fn rank(s: Step) -> int {
    match s {
        Step::Root => 0,
        Step::Here => 1,
        Step::Up => 2,
        Step::Name(_) => 3,
    }
}

/// Whether one step comes before another, or is the same: names come last, and
/// among themselves in the order of their bytes.
pub open spec fn step_le(a: Step, b: Step) -> bool {
    match (a, b) {
        (Step::Name(x), Step::Name(y)) => bytes_le(x, y),
        _ => rank(a) <= rank(b),
    }
}

/// Whether one path comes before another, or is the same: the first step in
/// which they differ decides, and a path comes before those that go on from it.
pub open spec fn steps_le(a: Seq<Step>, b: Seq<Step>) -> bool
    decreases a.len(),
{
    if a.len() == 0 {
        true
    } else if b.len() == 0 {
        false
    } else if a[0] == b[0] {
        steps_le(a.skip(1), b.skip(1))
    } else {
        step_le(a[0], b[0])
    }
}

/// Whether one path comes before another, or is the same.
pub open spec fn path_le(a: Seq<u8>, b: Seq<u8>) -> bool {
    steps_le(steps(a), steps(b))
}

proof fn lemma_bytes_total(a: Seq<u8>, b: Seq<u8>)
    ensures
        bytes_le(a, b) || bytes_le(b, a),
        bytes_le(a, b) && bytes_le(b, a) ==> a == b,
        bytes_le(a, a),
    decreases a.len(),
{
    if a.len() > 0 && b.len() > 0 && a[0] == b[0] {
        lemma_bytes_total(a.skip(1), b.skip(1));
        if a.skip(1) == b.skip(1) {
            assert(a =~= seq![a[0]] + a.skip(1));
            assert(b =~= seq![b[0]] + b.skip(1));
        }
    } else if a.len() > 0 {
        lemma_bytes_total(a.skip(1), a.skip(1));
    } else if b.len() == 0 {
        assert(a =~= b);
    }
}

proof fn lemma_bytes_transitive(a: Seq<u8>, b: Seq<u8>, c: Seq<u8>)
    requires
        bytes_le(a, b),
        bytes_le(b, c),
    ensures
        bytes_le(a, c),
    decreases a.len(),
{
    if a.len() > 0 && a[0] == b[0] && b[0] == c[0] {
        lemma_bytes_transitive(a.skip(1), b.skip(1), c.skip(1));
    }
}

proof fn lemma_step_total(a: Step, b: Step)
    ensures
        step_le(a, b) || step_le(b, a),
        step_le(a, b) && step_le(b, a) ==> a == b,
        step_le(a, a),
{
    if a is Name {
        lemma_bytes_total(a->Name_0, a->Name_0);
        if b is Name {
            lemma_bytes_total(a->Name_0, b->Name_0);
        }
    }
}

proof fn lemma_step_transitive(a: Step, b: Step, c: Step)
    requires
        step_le(a, b),
        step_le(b, c),
    ensures
        step_le(a, c),
{
    if a is Name && b is Name && c is Name {
        lemma_bytes_transitive(a->Name_0, b->Name_0, c->Name_0);
    }
}

proof fn lemma_steps_total(a: Seq<Step>, b: Seq<Step>)
    ensures
        steps_le(a, b) || steps_le(b, a),
        steps_le(a, b) && steps_le(b, a) ==> a == b,
        steps_le(a, a),
    decreases a.len(),
{
    if a.len() > 0 {
        lemma_steps_total(a.skip(1), a.skip(1));
    }
    if a.len() > 0 && b.len() > 0 {
        lemma_step_total(a[0], b[0]);
        if a[0] == b[0] {
            lemma_steps_total(a.skip(1), b.skip(1));
            if a.skip(1) == b.skip(1) {
                assert(a =~= seq![a[0]] + a.skip(1));
                assert(b =~= seq![b[0]] + b.skip(1));
            }
        }
    } else if a.len() == 0 && b.len() == 0 {
        assert(a =~= b);
    }
}

proof fn lemma_steps_transitive(a: Seq<Step>, b: Seq<Step>, c: Seq<Step>)
    requires
        steps_le(a, b),
        steps_le(b, c),
    ensures
        steps_le(a, c),
    decreases a.len(),
{
    if a.len() > 0 {
        lemma_step_total(a[0], b[0]);
        lemma_step_total(b[0], c[0]);
        lemma_step_total(a[0], c[0]);
        if a[0] == b[0] && b[0] == c[0] {
            lemma_steps_transitive(a.skip(1), b.skip(1), c.skip(1));
        } else {
            if step_le(a[0], b[0]) && step_le(b[0], c[0]) {
                lemma_step_transitive(a[0], b[0], c[0]);
            }
        }
    }
}

/// The order of paths is a total order of what they lead to: of two paths one
/// comes before the other, and both do only when they are the same.
pub proof fn law_paths_are_in_order(a: Seq<u8>, b: Seq<u8>, c: Seq<u8>)
    ensures
        path_le(a, b) || path_le(b, a),
        path_le(a, b) && path_le(b, a) <==> steps(a) == steps(b),
        path_le(a, b) && path_le(b, c) ==> path_le(a, c),
{
    lemma_steps_total(steps(a), steps(b));
    lemma_steps_total(steps(a), steps(a));
    if path_le(a, b) && path_le(b, c) {
        lemma_steps_transitive(steps(a), steps(b), steps(c));
    }
}

/// Whether one string of bytes comes before another, or is the same.
fn bytes_in_order(a: &[u8], b: &[u8]) -> (r: bool)
    ensures
        r == bytes_le(a@, b@),
{
    let mut i: usize = 0;
    assert(a@.skip(0) =~= a@);
    assert(b@.skip(0) =~= b@);
    while i < a.len() && i < b.len() && a[i] == b[i]
        invariant
            i <= a@.len(),
            i <= b@.len(),
            bytes_le(a@, b@) == bytes_le(a@.skip(i as int), b@.skip(i as int)),
        decreases a@.len() - i,
    {
        assert(a@.skip(i as int).skip(1) =~= a@.skip(i + 1));
        assert(b@.skip(i as int).skip(1) =~= b@.skip(i + 1));
        i += 1;
    }
    if i == a.len() {
        true
    } else if i == b.len() {
        false
    } else {
        a[i] < b[i]
    }
}

/// Whether two strings of bytes are the same.
fn same_bytes(a: &[u8], b: &[u8]) -> (r: bool)
    ensures
        r == (a@ == b@),
{
    if a.len() != b.len() {
        return false;
    }
    let mut i: usize = 0;
    while i < a.len()
        invariant
            i <= a@.len() == b@.len(),
            forall|j: int| 0 <= j < i ==> a@[j] == b@[j],
        decreases a@.len() - i,
    {
        if a[i] != b[i] {
            return false;
        }
        i += 1;
    }
    assert(a@ =~= b@);
    true
}

/// The place of a step among the kinds of steps.
fn kind_of_step(s: &PathStep) -> (r: u8)
    ensures
        r == rank(s@),
{
    match s {
        PathStep::Root => 0,
        PathStep::Here => 1,
        PathStep::Up => 2,
        PathStep::Name(_) => 3,
    }
}

/// Whether two steps are the same.
fn same_step(a: &PathStep, b: &PathStep) -> (r: bool)
    ensures
        r == (a@ == b@),
{
    match (a, b) {
        (PathStep::Name(x), PathStep::Name(y)) => same_bytes(x.as_slice(), y.as_slice()),
        _ => kind_of_step(a) == kind_of_step(b),
    }
}

/// Whether one step comes before another, or is the same.
fn step_in_order(a: &PathStep, b: &PathStep) -> (r: bool)
    ensures
        r == step_le(a@, b@),
{
    match (a, b) {
        (PathStep::Name(x), PathStep::Name(y)) => bytes_in_order(x.as_slice(), y.as_slice()),
        _ => kind_of_step(a) <= kind_of_step(b),
    }
}

/// Whether one path comes before another, or is the same.
fn steps_in_order(a: &Vec<PathStep>, b: &Vec<PathStep>) -> (r: bool)
    ensures
        r == steps_le(seen(a@), seen(b@)),
{
    let mut i: usize = 0;
    assert(seen(a@).skip(0) =~= seen(a@));
    assert(seen(b@).skip(0) =~= seen(b@));
    while i < a.len() && i < b.len() && same_step(&a[i], &b[i])
        invariant
            i <= a@.len(),
            i <= b@.len(),
            steps_le(seen(a@), seen(b@)) == steps_le(
                seen(a@).skip(i as int),
                seen(b@).skip(i as int),
            ),
        decreases a@.len() - i,
    {
        assert(seen(a@).skip(i as int).skip(1) =~= seen(a@).skip(i + 1));
        assert(seen(b@).skip(i as int).skip(1) =~= seen(b@).skip(i + 1));
        assert(seen(a@).skip(i as int)[0] == a@[i as int]@);
        assert(seen(b@).skip(i as int)[0] == b@[i as int]@);
        i += 1;
    }
    if i == a.len() {
        true
    } else if i == b.len() {
        false
    } else {
        assert(seen(a@).skip(i as int)[0] == a@[i as int]@);
        assert(seen(b@).skip(i as int)[0] == b@[i as int]@);
        step_in_order(&a[i], &b[i])
    }
}

/// Whether two paths are the same.
fn same_steps(a: &Vec<PathStep>, b: &Vec<PathStep>) -> (r: bool)
    ensures
        r == (seen(a@) == seen(b@)),
{
    if a.len() != b.len() {
        assert(seen(a@).len() != seen(b@).len());
        return false;
    }
    let mut i: usize = 0;
    while i < a.len()
        invariant
            i <= a@.len() == b@.len(),
            forall|j: int| 0 <= j < i ==> (#[trigger] a@[j])@ == b@[j]@,
        decreases a@.len() - i,
    {
        if !same_step(&a[i], &b[i]) {
            assert(seen(a@)[i as int] != seen(b@)[i as int]);
            return false;
        }
        i += 1;
    }
    assert(seen(a@) =~= seen(b@));
    true
}

/// The paths of a list.
pub open spec fn paths(list: Seq<FilePath>) -> Seq<Seq<u8>> {
    list.map_values(|p: FilePath| p@)
}

/// Whether the paths of a list are in order.
pub open spec fn in_order(list: Seq<Seq<u8>>) -> bool {
    forall|i: int, j: int| 0 <= i <= j < list.len() ==> path_le(#[trigger] list[i], #[trigger] list[j])
}

/// Those paths of a list that take the given steps.
pub open spec fn taking(list: Seq<Seq<u8>>, way: Seq<Step>) -> Seq<Seq<u8>> {
    list.filter(|p: Seq<u8>| steps(p) == way)
}

/// Whether one list holds the paths of another, the same ones in the order in
/// which they stood.
pub open spec fn rearranged(from: Seq<Seq<u8>>, to: Seq<Seq<u8>>) -> bool {
    &&& from.len() == to.len()
    &&& forall|way: Seq<Step>| #[trigger] taking(from, way) == taking(to, way)
}

/// A path with its steps.
struct Entry {
    path: FilePath,
    steps: Vec<PathStep>,
}

/// The paths of a list of entries.
spec fn entry_paths(list: Seq<Entry>) -> Seq<Seq<u8>> {
    list.map_values(|e: Entry| e.path@)
}

/// Whether each entry holds the steps of its own path.
spec fn entries_wf(list: Seq<Entry>) -> bool {
    forall|i: int|
        #![trigger list[i]]
        0 <= i < list.len() ==> seen(list[i].steps@) == steps(list[i].path@)
}

/// A path that is put behind all that come before it or are the same, and
/// before all that come after it, keeps a list in order.
proof fn lemma_insert(from: Seq<Seq<u8>>, list: Seq<Seq<u8>>, at: int, path: Seq<u8>)
    requires
        in_order(list),
        rearranged(from, list),
        0 <= at <= list.len(),
        forall|k: int| 0 <= k < at ==> path_le(#[trigger] list[k], path),
        forall|k: int| at <= k < list.len() ==> !path_le(#[trigger] list[k], path),
    ensures
        in_order(list.insert(at, path)),
        rearranged(from.push(path), list.insert(at, path)),
{
    let more = list.insert(at, path);
    assert forall|i: int, j: int| 0 <= i <= j < more.len() implies path_le(
        #[trigger] more[i],
        #[trigger] more[j],
    ) by {
        law_paths_are_in_order(path, path, path);
        if i != at && j != at {
            let i0 = if i < at {
                i
            } else {
                i - 1
            };
            let j0 = if j < at {
                j
            } else {
                j - 1
            };
            assert(path_le(list[i0], list[j0]));
        } else if i == at && j > at {
            assert(!path_le(list[j - 1], path));
            law_paths_are_in_order(list[j - 1], path, path);
        }
    }
    assert forall|way: Seq<Step>| #[trigger] taking(from.push(path), way) == taking(more, way) by {
        let pred = |p: Seq<u8>| steps(p) == way;
        let front = list.take(at);
        let back = list.skip(at);
        assert(list =~= front + back);
        assert(more =~= front.push(path) + back);
        Seq::filter_distributes_over_add(front, back, pred);
        Seq::filter_distributes_over_add(front.push(path), back, pred);
        front.lemma_filter_push(path, pred);
        from.lemma_filter_push(path, pred);
        assert(taking(from, way) == taking(list, way));
        if steps(path) == way {
            assert forall|k: int| 0 <= k < back.len() implies !pred(#[trigger] back[k]) by {
                assert(!path_le(list[at + k], path));
                law_paths_are_in_order(list[at + k], path, path);
            }
            back.lemma_all_neg_filter_empty(pred);
            assert(more.filter(pred) =~= list.filter(pred).push(path));
        } else {
            assert(more.filter(pred) =~= list.filter(pred));
        }
    }
}

/// With one more path beside its steps, every path still stands beside its own.
proof fn lemma_entries_insert(list: Seq<Entry>, at: int, entry: Entry)
    requires
        entries_wf(list),
        0 <= at <= list.len(),
        seen(entry.steps@) == steps(entry.path@),
    ensures
        entries_wf(list.insert(at, entry)),
{
    let more = list.insert(at, entry);
    assert forall|k: int| #![trigger more[k]] 0 <= k < more.len() implies seen(more[k].steps@)
        == steps(more[k].path@) by {
        if k < at {
            assert(more[k] == list[k]);
        } else if k > at {
            assert(more[k] == list[k - 1]);
        }
    }
}

/// Puts paths in order. Paths that are the same stay in the order they were in.
pub fn sort(list: Vec<FilePath>) -> (r: Vec<FilePath>)
    ensures
        in_order(paths(r@)),
        rearranged(paths(list@), paths(r@)),
{
    let ghost all = paths(list@);
    let mut sorted: Vec<Entry> = Vec::new();
    let mut i: usize = 0;
    assert(entry_paths(sorted@) =~= all.take(0));
    while i < list.len()
        invariant
            i <= list@.len(),
            all == paths(list@),
            entries_wf(sorted@),
            in_order(entry_paths(sorted@)),
            rearranged(all.take(i as int), entry_paths(sorted@)),
        decreases list@.len() - i,
    {
        let path = list[i].copy();
        let steps = path.steps();
        let mut low: usize = 0;
        let mut high: usize = sorted.len();
        while low < high
            invariant
                low <= high <= sorted@.len(),
                entries_wf(sorted@),
                in_order(entry_paths(sorted@)),
                seen(steps@) == crate::path::steps(path@),
                forall|k: int| 0 <= k < low ==> path_le(#[trigger] entry_paths(sorted@)[k], path@),
                forall|k: int|
                    high <= k < sorted@.len() ==> !path_le(
                        #[trigger] entry_paths(sorted@)[k],
                        path@,
                    ),
            decreases high - low,
        {
            let mid: usize = low + (high - low) / 2;
            let ghost them = entry_paths(sorted@);
            assert(seen(sorted@[mid as int].steps@) == crate::path::steps(them[mid as int]));
            if steps_in_order(&sorted[mid].steps, &steps) {
                assert forall|k: int| 0 <= k < mid + 1 implies path_le(#[trigger] them[k], path@) by {
                    law_paths_are_in_order(them[k], them[mid as int], path@);
                }
                low = mid + 1;
            } else {
                assert forall|k: int| mid <= k < them.len() implies !path_le(
                    #[trigger] them[k],
                    path@,
                ) by {
                    law_paths_are_in_order(them[mid as int], them[k], path@);
                }
                high = mid;
            }
        }
        let ghost before = sorted@;
        let entry = Entry { path, steps };
        sorted.insert(low, entry);
        proof {
            lemma_insert(all.take(i as int), entry_paths(before), low as int, entry.path@);
            assert(entry_paths(sorted@) =~= entry_paths(before).insert(low as int, entry.path@));
            assert(all.take(i + 1) =~= all.take(i as int).push(entry.path@));
            lemma_entries_insert(before, low as int, entry);
        }
        i += 1;
    }
    assert(all.take(i as int) =~= all);
    let mut r: Vec<FilePath> = Vec::new();
    let ghost them = entry_paths(sorted@);
    i = 0;
    while i < sorted.len()
        invariant
            i <= sorted@.len(),
            them == entry_paths(sorted@),
            paths(r@) == them.take(i as int),
        decreases sorted@.len() - i,
    {
        let ghost before = r@;
        r.push(sorted[i].path.copy());
        assert(paths(r@) =~= paths(before).push(them[i as int]));
        i += 1;
        assert(paths(r@) =~= them.take(i as int));
    }
    assert(paths(r@) =~= them);
    r
}

/// The images of a list.
pub open spec fn images(list: Seq<Seq<u8>>) -> Seq<Seq<u8>> {
    list.filter(|p: Seq<u8>| is_image(p))
}

/// The position of the first path of a list that is the same as `path`, or the
/// length of the list without one.
pub open spec fn place(list: Seq<Seq<u8>>, path: Seq<u8>) -> int
    decreases list.len(),
{
    if list.len() == 0 || steps(list[0]) == steps(path) {
        0
    } else {
        1 + place(list.skip(1), path)
    }
}

/// What `place` says: nothing before it is the same path, and what stands there is.
proof fn lemma_place(list: Seq<Seq<u8>>, path: Seq<u8>)
    ensures
        0 <= place(list, path) <= list.len(),
        place(list, path) < list.len() ==> steps(list[place(list, path)]) == steps(path),
        forall|i: int|
            #![trigger list[i]]
            0 <= i < place(list, path) ==> steps(list[i]) != steps(path),
    decreases list.len(),
{
    if list.len() > 0 && steps(list[0]) != steps(path) {
        lemma_place(list.skip(1), path);
        assert forall|i: int| #![trigger list[i]] 0 <= i < place(list, path) implies steps(list[i])
            != steps(path) by {
            if i > 0 {
                assert(list.skip(1)[i - 1] == list[i]);
            }
        }
    }
}

/// The images of a list of files, in its order.
fn keep_images(list: Vec<FilePath>) -> (r: Vec<FilePath>)
    ensures
        paths(r@) == images(paths(list@)),
{
    let ghost all = paths(list@);
    let mut r: Vec<FilePath> = Vec::new();
    let mut i: usize = 0;
    assert(paths(r@) =~= images(all.take(0))) by {
        reveal(Seq::filter);
    }
    while i < list.len()
        invariant
            i <= list@.len(),
            all == paths(list@),
            paths(r@) == images(all.take(i as int)),
        decreases list@.len() - i,
    {
        let ghost before = r@;
        proof {
            assert(all.take(i + 1) =~= all.take(i as int).push(list@[i as int]@));
            all.take(i as int).lemma_filter_push(list@[i as int]@, |p: Seq<u8>| is_image(p));
        }
        if list[i].is_image() {
            let path = list[i].copy();
            r.push(path);
            assert(paths(r@) =~= paths(before).push(path@));
        }
        i += 1;
    }
    assert(all.take(i as int) =~= all);
    r
}

/// The position of the first file of a list that is the same as `path`, or 0.
fn place_or_first(list: &Vec<FilePath>, path: &FilePath) -> (r: usize)
    ensures
        r == if place(paths(list@), path@) < list@.len() {
            place(paths(list@), path@)
        } else {
            0
        },
{
    let ghost all = paths(list@);
    let way = path.steps();
    let mut i: usize = 0;
    assert(all.skip(0) =~= all);
    while i < list.len()
        invariant
            i <= list@.len(),
            all == paths(list@),
            seen(way@) == steps(path@),
            place(all, path@) == i + place(all.skip(i as int), path@),
        decreases list@.len() - i,
    {
        assert(all.skip(i as int)[0] == list@[i as int]@);
        assert(all.skip(i as int).skip(1) =~= all.skip(i + 1));
        let other = list[i].steps();
        if same_steps(&other, &way) {
            return i;
        }
        i += 1;
    }
    0
}

/// The list that holds one path alone.
fn alone(path: &FilePath) -> (r: Vec<FilePath>)
    ensures
        paths(r@) == seq![path@],
{
    let mut r: Vec<FilePath> = Vec::new();
    r.push(path.copy());
    assert(paths(r@) =~= seq![path@]);
    r
}

/// `files` are what is browsed once the file at `path` was opened, and `at` is
/// the place of that file: the images that its directory lists, in order; the
/// file alone if it is no image or nothing is listed.
pub open spec fn collects(
    path: Seq<u8>,
    listing: Seq<Seq<u8>>,
    files: Seq<Seq<u8>>,
    at: int,
) -> bool {
    if is_image(path) && images(listing).len() > 0 {
        &&& in_order(files)
        &&& rearranged(images(listing), files)
        &&& at == if place(files, path) < files.len() {
            place(files, path)
        } else {
            0
        }
    } else {
        files == seq![path] && at == 0
    }
}

/// The files that are browsed beside `path`, and its place among them.
///
/// These are the images of its directory, in order, where `listing` is what the
/// directory holds. A file that is no image is browsed alone, and so is one
/// whose directory shows no images.
pub fn collection_for(path: &FilePath, listing: Vec<FilePath>) -> (r: (Vec<FilePath>, usize))
    ensures
        collects(path@, paths(listing@), paths(r.0@), r.1 as int),
        r.1 < r.0@.len(),
{
    if !path.is_image() {
        let files = alone(path);
        assert(paths(files@).len() == files@.len());
        return (files, 0);
    }
    let found = keep_images(listing);
    assert(paths(found@).len() == found@.len());
    let files = sort(found);
    assert(paths(files@).len() == files@.len());
    let at = place_or_first(&files, path);
    if files.len() == 0 {
        let files = alone(path);
        assert(paths(files@).len() == files@.len());
        (files, 0)
    } else {
        proof {
            lemma_place(paths(files@), path@);
        }
        (files, at)
    }
}

/// Two ways of writing the same path lead to the same kind of file.
proof fn lemma_same_path_same_kind(a: Seq<u8>, b: Seq<u8>)
    requires
        steps(a) == steps(b),
    ensures
        is_image(a) == is_image(b),
{
}

/// An element of a list is found again in a rearrangement of it.
proof fn lemma_rearranged_contains(from: Seq<Seq<u8>>, to: Seq<Seq<u8>>, path: Seq<u8>)
    requires
        rearranged(from, to),
        from.contains(path),
    ensures
        to.contains(path),
{
    let way = steps(path);
    let pred = |p: Seq<u8>| steps(p) == way;
    let i = choose|i: int| 0 <= i < from.len() && from[i] == path;
    from.lemma_filter_contains(pred, i);
    assert(taking(from, way) == taking(to, way));
    to.lemma_filter_contains_rev(pred, path);
}

/// Browsing starts at the opened file: where its directory lists it, the place
/// that comes with the collection is a place where it stands. (`files` and `at`
/// are what `collection_for` returns.)
pub proof fn law_browsing_starts_at_the_opened_file(
    path: Seq<u8>,
    listing: Seq<Seq<u8>>,
    files: Seq<Seq<u8>>,
    at: int,
    entry: int,
)
    requires
        is_image(path),
        0 <= entry < listing.len(),
        steps(listing[entry]) == steps(path),
        collects(path, listing, files, at),
    ensures
        0 <= at < files.len(),
        steps(files[at]) == steps(path),
{
    let pred = |p: Seq<u8>| is_image(p);
    lemma_same_path_same_kind(path, listing[entry]);
    listing.lemma_filter_contains(pred, entry);
    lemma_rearranged_contains(images(listing), files, listing[entry]);
    lemma_place(files, path);
}

/// Everything that is browsed is an image that the directory lists, and every
/// image that the directory lists is browsed.
pub proof fn law_browsed_files_are_the_listed_images(
    listing: Seq<Seq<u8>>,
    files: Seq<Seq<u8>>,
    file: Seq<u8>,
)
    requires
        rearranged(images(listing), files),
    ensures
        files.contains(file) <==> listing.contains(file) && is_image(file),
{
    let pred = |p: Seq<u8>| is_image(p);
    let found = images(listing);
    if files.contains(file) {
        assert(rearranged(files, found)) by {
            assert forall|way: Seq<Step>| #[trigger] taking(files, way) == taking(found, way) by {
                assert(taking(found, way) == taking(files, way));
            }
        }
        lemma_rearranged_contains(files, found, file);
        listing.lemma_filter_contains_rev(pred, file);
        let k = choose|k: int| 0 <= k < found.len() && found[k] == file;
        listing.lemma_filter_pred(pred, k);
    }
    if listing.contains(file) && is_image(file) {
        let i = choose|i: int| 0 <= i < listing.len() && listing[i] == file;
        listing.lemma_filter_contains(pred, i);
        lemma_rearranged_contains(found, files, file);
    }
}

/// Names are in the order of their bytes as numbers: the first byte in which two of
/// them differ decides, and a name comes before those that go on from it.
pub proof fn law_names_are_in_the_order_of_their_bytes(x: Seq<u8>, y: Seq<u8>, i: int)
    requires
        0 <= i <= x.len(),
        0 <= i <= y.len(),
        forall|k: int| 0 <= k < i ==> #[trigger] x[k] == y[k],
    ensures
        i < x.len() && i < y.len() && x[i] != y[i] ==> (bytes_le(x, y) <==> x[i] < y[i]),
        i == x.len() ==> bytes_le(x, y),
        i == y.len() && i < x.len() ==> !bytes_le(x, y),
    decreases i,
{
    if i > 0 {
        let (a, b) = (x.skip(1), y.skip(1));
        assert forall|k: int| 0 <= k < i - 1 implies #[trigger] a[k] == b[k] by {
            assert(x[k + 1] == y[k + 1]);
        }
        assert(x[0] == y[0]);
        law_names_are_in_the_order_of_their_bytes(a, b, i - 1);
    }
}

/// Steps of a path that are the same are passed over.
proof fn lemma_common_steps(front: Seq<Step>, a: Seq<Step>, b: Seq<Step>)
    ensures
        steps_le(front + a, front + b) == steps_le(a, b),
    decreases front.len(),
{
    if front.len() > 0 {
        assert((front + a).skip(1) =~= front.skip(1) + a);
        assert((front + b).skip(1) =~= front.skip(1) + b);
        lemma_common_steps(front.skip(1), a, b);
    } else {
        assert(front + a =~= a);
        assert(front + b =~= b);
    }
}

/// Files of one directory are in the order of the bytes of their names.
pub proof fn law_files_of_a_directory_are_in_the_order_of_their_names(
    dir: Seq<u8>,
    x: Seq<u8>,
    y: Seq<u8>,
)
    requires
        dir.len() > 0,
        is_name(x),
        is_name(y),
    ensures
        path_le(dir.push(SLASH) + x, dir.push(SLASH) + y) <==> bytes_le(x, y),
        path_le(x, y) <==> bytes_le(x, y),
{
    law_where_a_path_begins(x);
    law_where_a_path_begins(y);
    law_path_goes_on_from_its_directory(dir, x);
    law_path_goes_on_from_its_directory(dir, y);
    let (a, b) = (seq![Step::Name(x)], seq![Step::Name(y)]);
    assert(steps(dir).push(Step::Name(x)) =~= steps(dir) + a);
    assert(steps(dir).push(Step::Name(y)) =~= steps(dir) + b);
    lemma_common_steps(steps(dir), a, b);
    lemma_bytes_total(x, y);
    assert(a.skip(1) =~= Seq::empty());
    assert(b.skip(1) =~= Seq::empty());
    lemma_bytes_total(x, x);
    reveal_with_fuel(steps_le, 2);
    assert(steps_le(a, b) <==> bytes_le(x, y));
}

/// A directory comes before what lies in it, and the kinds of steps have a fixed
/// order: the root, where one stands, up, and names.
pub proof fn law_directories_come_first(front: Seq<Step>, rest: Seq<Step>, name: Seq<u8>)
    ensures
        steps_le(front, front + rest),
        rest.len() > 0 ==> !steps_le(front + rest, front),
        step_le(Step::Root, Step::Here) && step_le(Step::Here, Step::Up) && step_le(
            Step::Up,
            Step::Name(name),
        ),
        !step_le(Step::Name(name), Step::Up) && !step_le(Step::Up, Step::Here) && !step_le(
            Step::Here,
            Step::Root,
        ),
{
    lemma_common_steps(front, Seq::empty(), rest);
    lemma_common_steps(front, rest, Seq::empty());
    assert(front + Seq::empty() =~= front);
}

/// What is browsed is in order, from each file to every later one.
pub proof fn law_browsing_is_in_order(
    path: Seq<u8>,
    listing: Seq<Seq<u8>>,
    files: Seq<Seq<u8>>,
    at: int,
    i: int,
    j: int,
)
    requires
        collects(path, listing, files, at),
        0 <= i < j < files.len(),
    ensures
        path_le(files[i], files[j]),
{
}

/// How often a value occurs among those that take its steps is how often it occurs.
proof fn lemma_count_taking(list: Seq<Seq<u8>>, file: Seq<u8>)
    ensures
        taking(list, steps(file)).to_multiset().count(file) == list.to_multiset().count(file),
    decreases list.len(),
{
    let pred = |p: Seq<u8>| steps(p) == steps(file);
    broadcast use vstd::seq_lib::group_to_multiset_ensures;

    reveal(Seq::filter);
    if list.len() > 0 {
        let front = list.drop_last();
        lemma_count_taking(front, file);
        assert(list =~= front.push(list.last()));
        front.lemma_filter_push(list.last(), pred);
    }
}

/// What is browsed is what the directory lists of images, each as often as it is
/// listed, and the same path in the order in which it is listed.
pub proof fn law_browsed_files_are_as_many_as_listed(
    path: Seq<u8>,
    listing: Seq<Seq<u8>>,
    files: Seq<Seq<u8>>,
    at: int,
    file: Seq<u8>,
)
    requires
        is_image(path),
        listing.contains(file),
        is_image(file),
        collects(path, listing, files, at),
    ensures
        files.contains(file),
        files.len() == images(listing).len(),
        files.to_multiset().count(file) == images(listing).to_multiset().count(file),
        taking(files, steps(file)) == taking(images(listing), steps(file)),
{
    let i = choose|i: int| 0 <= i < listing.len() && listing[i] == file;
    listing.lemma_filter_contains(|p: Seq<u8>| is_image(p), i);
    law_browsed_files_are_the_listed_images(listing, files, file);
    lemma_count_taking(files, file);
    lemma_count_taking(images(listing), file);
    assert(taking(images(listing), steps(file)) == taking(files, steps(file)));
}

/// A file that is no image is browsed alone, and so is an image beside which none
/// is listed; an image that is not listed itself is browsed from the first.
pub proof fn law_other_files_are_browsed_alone(
    path: Seq<u8>,
    listing: Seq<Seq<u8>>,
    files: Seq<Seq<u8>>,
    at: int,
)
    requires
        collects(path, listing, files, at),
    ensures
        !is_image(path) ==> files == seq![path] && at == 0,
        (forall|i: int| 0 <= i < listing.len() ==> !is_image(#[trigger] listing[i])) ==> files
            == seq![path] && at == 0,
        (forall|i: int| 0 <= i < files.len() ==> steps(#[trigger] files[i]) != steps(path)) ==> at
            == 0,
        0 <= at < files.len(),
        forall|i: int|
            #![trigger files[i]]
            0 <= i < at ==> steps(files[i]) != steps(path),
{
    lemma_place(files, path);
    if forall|i: int| 0 <= i < listing.len() ==> !is_image(#[trigger] listing[i]) {
        let pred = |p: Seq<u8>| is_image(p);
        assert forall|i: int| 0 <= i < listing.len() implies !pred(#[trigger] listing[i]) by {}
        listing.lemma_all_neg_filter_empty(pred);
    }
}

} // verus!
