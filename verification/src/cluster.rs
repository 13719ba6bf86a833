//! Grouping of recognised words into items, one per column of text.
//!
//! The layouts this library reads hold a single row of fields that are set
//! apart horizontally, so the words are segmented along the x axis alone: a
//! column ends wherever the horizontal gap between two neighbouring words is
//! wider than a threshold.

use crate::geometry::Aabb;
use vstd::prelude::*;
use vstd::string::StringExecFns;

verus! {

/// A recognised word with its bounding box in image pixel space.
#[derive(Clone, Debug)]
pub struct Word {
    pub text: String,
    pub bounds: Aabb,
}

/// One column of words read as a single entry: the words' texts joined by
/// single spaces, and the union of their bounding boxes.
#[derive(Debug)]
pub struct Item {
    pub name: String,
    pub bounds: Aabb,
}

/// What a [`Word`] stands for in contracts.
pub struct WordView {
    pub text: Seq<char>,
    pub bounds: Aabb,
}

/// What an [`Item`] stands for in contracts.
pub struct ItemView {
    pub name: Seq<char>,
    pub bounds: Aabb,
}

impl View for Word {
    type V = WordView;

    open spec fn view(&self) -> WordView {
        WordView { text: self.text@, bounds: self.bounds }
    }
}

impl View for Item {
    type V = ItemView;

    open spec fn view(&self) -> ItemView {
        ItemView { name: self.name@, bounds: self.bounds }
    }
}

/// The views of a sequence of words, in order.
pub open spec fn word_views(words: Seq<Word>) -> Seq<WordView> {
    words.map_values(|w: Word| w@)
}

/// The views of a sequence of items, in order.
pub open spec fn item_views(items: Seq<Item>) -> Seq<ItemView> {
    items.map_values(|i: Item| i@)
}

/// The bounding boxes of a sequence of words, in order.
pub open spec fn boxes_of(words: Seq<WordView>) -> Seq<Aabb> {
    words.map_values(|w: WordView| w.bounds)
}

/// `sorted` with `b` put behind the last box whose left edge is not to the
/// right of `b`'s.
pub open spec fn insert_by_left(sorted: Seq<Aabb>, b: Aabb) -> Seq<Aabb>
    decreases sorted.len(),
{
    if sorted.len() == 0 {
        seq![b]
    } else if sorted.last().min.x <= b.min.x {
        sorted.push(b)
    } else {
        insert_by_left(sorted.drop_last(), b).push(sorted.last())
    }
}

/// The boxes in ascending order of their left edge; boxes with the same left
/// edge keep the order they came in.
pub open spec fn sorted_by_left(boxes: Seq<Aabb>) -> Seq<Aabb>
    decreases boxes.len(),
{
    if boxes.len() == 0 {
        Seq::empty()
    } else {
        insert_by_left(sorted_by_left(boxes.drop_last()), boxes.last())
    }
}

/// Whether the left edges of `boxes` never decrease.
pub open spec fn ordered_by_left(boxes: Seq<Aabb>) -> bool {
    forall|i: int, j: int| 0 <= i <= j < boxes.len() ==> boxes[i].min.x <= boxes[j].min.x
}

/// The predicate "the left edge is at `x`".
pub open spec fn left_edge_at(x: int) -> spec_fn(Aabb) -> bool {
    |b: Aabb| b.min.x == x
}

/// The column boundaries between boxes sorted by their left edge. Wherever a
/// box starts more than `gap` to the right of the end of the box before it, a
/// boundary lies in the middle of that gap. Each boundary is given as twice
/// its x coordinate, which is the sum of the two edges around the gap.
pub open spec fn boundaries(sorted: Seq<Aabb>, gap: int) -> Seq<int>
    decreases sorted.len(),
{
    if sorted.len() < 2 {
        Seq::empty()
    } else {
        let before = boundaries(sorted.drop_last(), gap);
        let left = sorted[sorted.len() - 2];
        let right = sorted.last();
        if right.min.x - left.max.x > gap {
            before.push(left.max.x + right.min.x)
        } else {
            before
        }
    }
}

/// The predicate "lies strictly left of the doubled coordinate `center2`".
pub open spec fn left_of(center2: int) -> spec_fn(int) -> bool {
    |boundary2: int| boundary2 < center2
}

/// The column of a box: the number of boundaries strictly left of its
/// centre.
pub open spec fn column_index(bounds: Aabb, boundaries2: Seq<int>) -> nat {
    boundaries2.filter(left_of(bounds.center_x2())).len()
}

/// The predicate "the word's centre lies in column `col`".
pub open spec fn in_column(boundaries2: Seq<int>, col: int) -> spec_fn(WordView) -> bool {
    |w: WordView| column_index(w.bounds, boundaries2) == col
}

/// The texts of `members` joined by single spaces.
pub open spec fn joined_text(members: Seq<WordView>) -> Seq<char>
    decreases members.len(),
{
    if members.len() == 0 {
        Seq::empty()
    } else if members.len() == 1 {
        members[0].text
    } else {
        joined_text(members.drop_last()) + seq![' '] + members.last().text
    }
}

/// The union of the bounding boxes of `members`, merged one by one from the
/// first to the last.
pub open spec fn united_bounds(members: Seq<WordView>) -> Aabb
    recommends
        members.len() > 0,
    decreases members.len(),
{
    if members.len() <= 1 {
        members[0].bounds
    } else {
        united_bounds(members.drop_last()).merged(members.last().bounds)
    }
}

/// The item that a non-empty column of words makes.
pub open spec fn column_item(members: Seq<WordView>) -> ItemView
    recommends
        members.len() > 0,
{
    ItemView { name: joined_text(members), bounds: united_bounds(members) }
}

/// The items of the first `ncols` columns, from left to right. A column's
/// words come in the order of `words`; a column without words gives no item.
pub open spec fn items_of_columns(words: Seq<WordView>, boundaries2: Seq<int>, ncols: nat) -> Seq<
    ItemView,
>
    decreases ncols,
{
    if ncols == 0 {
        Seq::empty()
    } else {
        let before = items_of_columns(words, boundaries2, (ncols - 1) as nat);
        let members = words.filter(in_column(boundaries2, ncols - 1));
        if members.len() == 0 {
            before
        } else {
            before.push(column_item(members))
        }
    }
}

/// The items that `words` cluster into with the gap threshold `gap`.
pub open spec fn clustered(words: Seq<WordView>, gap: int) -> Seq<ItemView> {
    let boundaries2 = boundaries(sorted_by_left(boxes_of(words)), gap);
    items_of_columns(words, boundaries2, boundaries2.len() + 1)
}

/// The mathematical integers that a sequence of machine integers holds.
pub open spec fn ints(s: Seq<i128>) -> Seq<int> {
    s.map_values(|v: i128| v as int)
}

/// Inserting by left edge puts the box at the one position behind which
/// every box starts further right and before which the nearest box does not.
proof fn lemma_insert_by_left_at(s: Seq<Aabb>, b: Aabb, pos: int)
    requires
        0 <= pos <= s.len(),
        forall|k: int| pos <= k < s.len() ==> s[k].min.x > b.min.x,
        pos > 0 ==> s[pos - 1].min.x <= b.min.x,
    ensures
        insert_by_left(s, b) == s.insert(pos, b),
    decreases s.len(),
{
    if s.len() == 0 {
        assert(s.insert(pos, b) =~= seq![b]);
    } else if pos == s.len() {
        assert(s.insert(pos, b) =~= s.push(b));
    } else {
        lemma_insert_by_left_at(s.drop_last(), b, pos);
        assert(s.drop_last().insert(pos, b).push(s.last()) =~= s.insert(pos, b));
    }
}

/// The position at which `insert_by_left` puts `b` into `s`.
pub open spec fn insert_position(s: Seq<Aabb>, b: Aabb) -> int
    decreases s.len(),
{
    if s.len() == 0 {
        0
    } else if s.last().min.x <= b.min.x {
        s.len() as int
    } else {
        insert_position(s.drop_last(), b)
    }
}

proof fn lemma_insert_position(s: Seq<Aabb>, b: Aabb)
    ensures
        0 <= insert_position(s, b) <= s.len(),
        forall|k: int| insert_position(s, b) <= k < s.len() ==> s[k].min.x > b.min.x,
        insert_position(s, b) > 0 ==> s[insert_position(s, b) - 1].min.x <= b.min.x,
        insert_by_left(s, b) == s.insert(insert_position(s, b), b),
    decreases s.len(),
{
    if s.len() > 0 && !(s.last().min.x <= b.min.x) {
        let front = s.drop_last();
        lemma_insert_position(front, b);
        let pos = insert_position(front, b);
        assert forall|k: int| pos <= k < s.len() implies s[k].min.x > b.min.x by {
            if k < front.len() {
                assert(s[k] == front[k]);
            }
        }
        if pos > 0 {
            assert(s[pos - 1] == front[pos - 1]);
        }
    }
    lemma_insert_by_left_at(s, b, insert_position(s, b));
}

proof fn lemma_insert_keeps_order(s: Seq<Aabb>, b: Aabb)
    requires
        ordered_by_left(s),
    ensures
        ordered_by_left(insert_by_left(s, b)),
{
    lemma_insert_position(s, b);
    let pos = insert_position(s, b);
    let r = s.insert(pos, b);
    assert forall|i: int, j: int| 0 <= i <= j < r.len() implies r[i].min.x <= r[j].min.x by {
        if i < pos {
            assert(r[i] == s[i]);
            assert(s[i].min.x <= s[pos - 1].min.x);
        } else if i > pos {
            assert(r[i] == s[i - 1]);
        }
        if j < pos {
            assert(r[j] == s[j]);
        } else if j > pos {
            assert(r[j] == s[j - 1]);
        }
    }
}

proof fn lemma_insert_keeps_runs(s: Seq<Aabb>, b: Aabb, x: int)
    ensures
        insert_by_left(s, b).filter(left_edge_at(x)) == s.push(b).filter(left_edge_at(x)),
{
    lemma_insert_position(s, b);
    let pos = insert_position(s, b);
    let pred = left_edge_at(x);
    let head = s.take(pos);
    let tail = s.skip(pos);
    assert(s.insert(pos, b) =~= head.push(b) + tail);
    assert(s.push(b) =~= (head + tail).push(b));
    Seq::filter_distributes_over_add(head.push(b), tail, pred);
    Seq::filter_distributes_over_add(head, tail, pred);
    head.lemma_filter_push(b, pred);
    (head + tail).lemma_filter_push(b, pred);
    if pred(b) {
        assert(tail.all(|e: Aabb| !pred(e))) by {
            assert forall|k: int| 0 <= k < tail.len() implies !pred(tail[k]) by {
                assert(tail[k] == s[pos + k]);
            }
        }
        tail.lemma_all_neg_filter_empty(pred);
        assert(tail.filter(pred) =~= Seq::<Aabb>::empty());
        assert(head.filter(pred).push(b) + tail.filter(pred) =~= (head.filter(pred)
            + tail.filter(pred)).push(b));
    }
}

/// Sorting by left edge is a stable sort: the result is in ascending order of
/// the left edges, it holds the same boxes as often as the input does, and
/// the boxes that share a left edge stand in the order in which they came.
pub proof fn lemma_sorted_by_left_is_stable_sort(boxes: Seq<Aabb>)
    ensures
        ordered_by_left(sorted_by_left(boxes)),
        sorted_by_left(boxes).to_multiset() == boxes.to_multiset(),
        forall|x: int|
            #[trigger] sorted_by_left(boxes).filter(left_edge_at(x)) == boxes.filter(
                left_edge_at(x),
            ),
    decreases boxes.len(),
{
    if boxes.len() == 0 {
        assert(boxes =~= Seq::<Aabb>::empty());
    } else {
        let front = boxes.drop_last();
        let b = boxes.last();
        let sorted_front = sorted_by_left(front);
        lemma_sorted_by_left_is_stable_sort(front);
        lemma_insert_keeps_order(sorted_front, b);
        lemma_insert_position(sorted_front, b);
        assert(boxes =~= front.push(b));
        vstd::seq_lib::to_multiset_insert(sorted_front, insert_position(sorted_front, b), b);
        vstd::seq_lib::to_multiset_build(front, b);
        assert forall|x: int|
            #[trigger] sorted_by_left(boxes).filter(left_edge_at(x)) == boxes.filter(
                left_edge_at(x),
            ) by {
            let pred = left_edge_at(x);
            lemma_insert_keeps_runs(sorted_front, b, x);
            sorted_front.lemma_filter_push(b, pred);
            front.lemma_filter_push(b, pred);
            assert(sorted_front.filter(pred) == front.filter(pred));
        }
    }
}

/// There is at most one boundary per pair of neighbouring boxes.
pub proof fn lemma_boundaries_len(sorted: Seq<Aabb>, gap: int)
    ensures
        sorted.len() == 0 ==> boundaries(sorted, gap).len() == 0,
        sorted.len() > 0 ==> boundaries(sorted, gap).len() < sorted.len(),
    decreases sorted.len(),
{
    if sorted.len() >= 2 {
        lemma_boundaries_len(sorted.drop_last(), gap);
    }
}

/// With N boundaries there are N + 1 columns, and every box lies in one of
/// them.
pub proof fn lemma_column_index_in_range(bounds: Aabb, boundaries2: Seq<int>)
    ensures
        column_index(bounds, boundaries2) <= boundaries2.len(),
{
    boundaries2.lemma_filter_len(left_of(bounds.center_x2()));
}

/// The further right a centre lies, the more boundaries lie left of it.
proof fn lemma_column_index_grows(marks: Seq<int>, near2: int, far2: int)
    requires
        near2 <= far2,
    ensures
        marks.filter(left_of(near2)).len() <= marks.filter(left_of(far2)).len(),
    decreases marks.len(),
{
    if marks.len() == 0 {
        marks.lemma_filter_len(left_of(near2));
    } else {
        let front = marks.drop_last();
        lemma_column_index_grows(front, near2, far2);
        front.lemma_filter_push(marks.last(), left_of(near2));
        front.lemma_filter_push(marks.last(), left_of(far2));
        assert(front.push(marks.last()) =~= marks);
    }
}

/// Columns are counted from left to right: a box in an earlier column has
/// its centre left of the centre of every box in a later column.
pub proof fn lemma_columns_ascend(a: Aabb, b: Aabb, boundaries2: Seq<int>)
    requires
        column_index(a, boundaries2) < column_index(b, boundaries2),
    ensures
        a.center_x2() < b.center_x2(),
{
    if a.center_x2() >= b.center_x2() {
        lemma_column_index_grows(boundaries2, b.center_x2(), a.center_x2());
    }
}

fn sort_by_left(words: &[Word]) -> (sorted: Vec<Aabb>)
    ensures
        sorted@ == sorted_by_left(boxes_of(word_views(words@))),
        sorted@.len() == words@.len(),
{
    let ghost boxes = boxes_of(word_views(words@));
    let mut sorted: Vec<Aabb> = Vec::new();
    let mut i: usize = 0;
    while i < words.len()
        invariant
            0 <= i <= words.len(),
            boxes == boxes_of(word_views(words@)),
            sorted@ == sorted_by_left(boxes.take(i as int)),
            sorted@.len() == i,
        decreases words.len() - i,
    {
        let b = words[i].bounds;
        let mut pos: usize = sorted.len();
        while pos > 0 && sorted[pos - 1].min.x > b.min.x
            invariant
                0 <= pos <= sorted.len(),
                forall|k: int| pos <= k < sorted.len() ==> sorted@[k].min.x > b.min.x,
            decreases pos,
        {
            pos -= 1;
        }
        proof {
            lemma_insert_by_left_at(sorted@, b, pos as int);
            assert(boxes.take(i + 1).drop_last() =~= boxes.take(i as int));
            assert(boxes.take(i + 1).last() == b);
        }
        sorted.insert(pos, b);
        i += 1;
    }
    proof {
        assert(boxes.take(i as int) =~= boxes);
    }
    sorted
}

fn find_boundaries(sorted: &Vec<Aabb>, gap: i64) -> (found: Vec<i128>)
    ensures
        ints(found@) == boundaries(sorted@, gap as int),
{
    let mut found: Vec<i128> = Vec::new();
    if sorted.len() < 2 {
        assert(ints(found@) =~= Seq::<int>::empty());
        return found;
    }
    let mut i: usize = 1;
    proof {
        assert(boundaries(sorted@.take(1), gap as int) =~= Seq::<int>::empty());
        assert(ints(found@) =~= Seq::<int>::empty());
    }
    while i < sorted.len()
        invariant
            1 <= i <= sorted.len(),
            ints(found@) == boundaries(sorted@.take(i as int), gap as int),
        decreases sorted.len() - i,
    {
        let left = sorted[i - 1];
        let right = sorted[i];
        let ghost before = found@;
        proof {
            assert(sorted@.take(i + 1).drop_last() =~= sorted@.take(i as int));
        }
        if right.min.x as i128 - left.max.x as i128 > gap as i128 {
            found.push(left.max.x as i128 + right.min.x as i128);
            proof {
                assert(ints(found@) =~= ints(before).push(left.max.x + right.min.x));
            }
        }
        i += 1;
    }
    proof {
        assert(sorted@.take(i as int) =~= sorted@);
    }
    found
}

fn column_of(bounds: &Aabb, boundaries2: &Vec<i128>) -> (col: usize)
    ensures
        col == column_index(*bounds, ints(boundaries2@)),
        col <= boundaries2@.len(),
{
    let center2: i128 = bounds.min.x as i128 + bounds.max.x as i128;
    let ghost all = ints(boundaries2@);
    let ghost pred = left_of(bounds.center_x2());
    let mut col: usize = 0;
    let mut k: usize = 0;
    proof {
        assert(all.take(0) =~= Seq::<int>::empty());
        all.take(0).lemma_filter_len(pred);
    }
    while k < boundaries2.len()
        invariant
            0 <= k <= boundaries2.len(),
            all == ints(boundaries2@),
            pred == left_of(bounds.center_x2()),
            center2 == bounds.center_x2(),
            col == all.take(k as int).filter(pred).len(),
            col <= k,
        decreases boundaries2.len() - k,
    {
        proof {
            all.lemma_take_succ_push(k as int);
            all.take(k as int).lemma_filter_push(all[k as int], pred);
        }
        if boundaries2[k] < center2 {
            col += 1;
        }
        k += 1;
    }
    proof {
        assert(all.take(k as int) =~= all);
    }
    col
}

fn assign_columns(words: &[Word], boundaries2: &Vec<i128>) -> (columns: Vec<usize>)
    ensures
        columns@.len() == words@.len(),
        forall|j: int|
            0 <= j < words@.len() ==> columns@[j] == column_index(
                #[trigger] words@[j].bounds,
                ints(boundaries2@),
            ),
{
    let mut columns: Vec<usize> = Vec::new();
    let mut j: usize = 0;
    while j < words.len()
        invariant
            0 <= j <= words.len(),
            columns@.len() == j,
            forall|m: int|
                0 <= m < j ==> columns@[m] == column_index(
                    #[trigger] words@[m].bounds,
                    ints(boundaries2@),
                ),
        decreases words.len() - j,
    {
        let col = column_of(&words[j].bounds, boundaries2);
        columns.push(col);
        j += 1;
    }
    columns
}

/// The item of column `col`, if any word lies in it.
fn collect_column(words: &[Word], columns: &Vec<usize>, col: usize, Ghost(boundaries2): Ghost<
    Seq<int>,
>) -> (item: Option<Item>)
    requires
        columns@.len() == words@.len(),
        forall|j: int|
            0 <= j < words@.len() ==> columns@[j] == column_index(
                #[trigger] words@[j].bounds,
                boundaries2,
            ),
    ensures
        ({
            let members = word_views(words@).filter(in_column(boundaries2, col as int));
            match item {
                Some(it) => members.len() > 0 && it@ == column_item(members),
                None => members.len() == 0,
            }
        }),
{
    let ghost all = word_views(words@);
    let ghost pred = in_column(boundaries2, col as int);
    let mut name = String::new();
    let mut bounds = Aabb {
        min: crate::geometry::Point { x: 0, y: 0 },
        max: crate::geometry::Point { x: 0, y: 0 },
    };
    let mut any = false;
    let mut j: usize = 0;
    proof {
        assert(all.take(0) =~= Seq::<WordView>::empty());
        all.take(0).lemma_filter_len(pred);
    }
    while j < words.len()
        invariant
            0 <= j <= words.len(),
            all == word_views(words@),
            pred == in_column(boundaries2, col as int),
            columns@.len() == words@.len(),
            forall|m: int|
                0 <= m < words@.len() ==> columns@[m] == column_index(
                    #[trigger] words@[m].bounds,
                    boundaries2,
                ),
            any <==> all.take(j as int).filter(pred).len() > 0,
            any ==> name@ == joined_text(all.take(j as int).filter(pred)),
            any ==> bounds == united_bounds(all.take(j as int).filter(pred)),
        decreases words.len() - j,
    {
        let ghost before = all.take(j as int).filter(pred);
        proof {
            all.lemma_take_succ_push(j as int);
            all.take(j as int).lemma_filter_push(all[j as int], pred);
            assert(all[j as int] == words@[j as int]@);
            assert(pred(all[j as int]) <==> columns@[j as int] == col);
        }
        if columns[j] == col {
            let word = &words[j];
            let ghost members = before.push(all[j as int]);
            proof {
                assert(members.drop_last() =~= before);
            }
            if any {
                proof {
                    reveal_strlit(" ");
                    assert(" "@ =~= seq![' ']);
                }
                name.append(" ");
                name.append(word.text.as_str());
                bounds = bounds.merge(&word.bounds);
            } else {
                name = word.text.clone();
                bounds = word.bounds;
                any = true;
            }
        }
        j += 1;
    }
    proof {
        assert(all.take(j as int) =~= all);
    }
    if any {
        Some(Item { name, bounds })
    } else {
        None
    }
}

/// Groups `words` into items, one per column, from left to right.
///
/// The words are ordered by their left edge, and a column boundary is put in
/// the middle of every gap between two neighbours in that order that is wider
/// than `gap_threshold`. A word belongs to the column that holds its
/// horizontal centre. Each column with words gives one item: its words' texts
/// in the order of `words`, joined by single spaces, and the union of their
/// boxes.
pub fn detect_columns(words: &[Word], gap_threshold: i64) -> (items: Vec<Item>)
    ensures
        item_views(items@) == clustered(word_views(words@), gap_threshold as int),
        words@.len() == 0 ==> items@.len() == 0,
{
    let sorted = sort_by_left(words);
    let boundaries2 = find_boundaries(&sorted, gap_threshold);
    let columns = assign_columns(words, &boundaries2);
    let ghost all = word_views(words@);
    let ghost marks = ints(boundaries2@);
    let count = sorted.len();
    proof {
        lemma_boundaries_len(sorted@, gap_threshold as int);
        assert(marks.len() == boundaries2@.len());
        assert(marks.len() == 0 || marks.len() < count);
    }
    let ncols: usize = boundaries2.len() + 1;
    let mut items: Vec<Item> = Vec::new();
    let mut col: usize = 0;
    proof {
        assert(item_views(items@) =~= Seq::<ItemView>::empty());
    }
    while col < ncols
        invariant
            0 <= col <= ncols,
            ncols == marks.len() + 1,
            all == word_views(words@),
            marks == ints(boundaries2@),
            columns@.len() == words@.len(),
            forall|j: int|
                0 <= j < words@.len() ==> columns@[j] == column_index(
                    #[trigger] words@[j].bounds,
                    marks,
                ),
            item_views(items@) == items_of_columns(all, marks, col as nat),
            words@.len() == 0 ==> items@.len() == 0,
        decreases ncols - col,
    {
        let ghost before = items@;
        match collect_column(words, &columns, col, Ghost(marks)) {
            Some(item) => {
                proof {
                    assert(all.len() > 0) by {
                        all.lemma_filter_len(in_column(marks, col as int));
                    }
                }
                let ghost view = item@;
                items.push(item);
                proof {
                    assert(item_views(items@) =~= item_views(before).push(view));
                }
            },
            None => {},
        }
        col += 1;
    }
    items
}

} // verus!
