use vstd::prelude::*;

verus! {

// ---------------------------------------------------------------------------
// Specification of the column layout.
//
// A batch of items is laid out row-major into `n` columns: item `i` lands in
// column `i % n`.  Each column is as wide as the longest item it holds, and
// columns are separated by a fixed number of spaces.
// ---------------------------------------------------------------------------

/// The views of a sequence of strings.
pub open spec fn views_of(items: Seq<String>) -> Seq<Seq<char>> {
    items.map_values(|s: String| s@)
}

/// The values of a sequence of machine integers, as mathematical integers.
pub open spec fn ints_of(s: Seq<usize>) -> Seq<int> {
    s.map_values(|x: usize| x as int)
}

/// Width of column `p` in an `n`-column layout of `items`: the maximum
/// length of any item whose index is congruent to `p` modulo `n`.
pub open spec fn col_width(items: Seq<Seq<char>>, n: int, p: int) -> int
    decreases items.len(),
{
    if items.len() == 0 {
        0
    } else {
        let rest = col_width(items.drop_last(), n, p);
        let i = items.len() - 1;
        if i % n == p && items[i].len() > rest {
            items[i].len() as int
        } else {
            rest
        }
    }
}

/// All `n` column widths of an `n`-column layout.
pub open spec fn col_widths(items: Seq<Seq<char>>, n: int) -> Seq<int> {
    Seq::new(n as nat, |p: int| col_width(items, n, p))
}

/// Total width taken by columns of the given widths, with `spacing` blanks
/// between each pair of adjacent columns.
pub open spec fn total_width(cols: Seq<int>, spacing: int) -> int
    decreases cols.len(),
{
    if cols.len() == 0 {
        0
    } else if cols.len() == 1 {
        cols[0]
    } else {
        total_width(cols.drop_last(), spacing) + spacing + cols.last()
    }
}

/// Offset (column position in a row string) at which column `i` starts.
pub open spec fn offset_at(cols: Seq<int>, spacing: int, i: int) -> int
    decreases i,
{
    if i <= 0 {
        0
    } else {
        offset_at(cols, spacing, i - 1) + cols[i - 1] + spacing
    }
}

/// The offsets of all columns.
pub open spec fn offsets_spec(cols: Seq<int>, spacing: int) -> Seq<int> {
    Seq::new(cols.len(), |i: int| offset_at(cols, spacing, i))
}

// ---------------------------------------------------------------------------
// Specification of the column-count search.
//
// Candidate column counts are tried in increasing order.  A candidate is
// accepted when it fills the width exactly, or when it fits and is dense
// enough relative to both the item count and the width.  The first candidate
// that overflows the width ends the search, falling back to the last
// candidate that fit.
// ---------------------------------------------------------------------------

/// The early-accept rule: a candidate layout of total width `t` is taken
/// without trying wider layouts when it fills the target width exactly, or
/// when it fits and uses at least half the width with at least half as many
/// columns as there are items.
pub open spec fn accept_cols(t: int, width: int, n: int, n_items: int) -> bool {
    t == width || (t <= width && 2 * n >= n_items && 2 * t >= width)
}

/// The column-count search, beginning at candidate `n` with fallback `prev`.
pub open spec fn search_cols(
    items: Seq<Seq<char>>,
    width: int,
    spacing: int,
    n: int,
    prev: Seq<int>,
) -> Seq<int>
    decreases items.len() + 1 - n,
{
    if n > items.len() || n < 1 {
        prev
    } else {
        let cols = col_widths(items, n);
        let t = total_width(cols, spacing);
        if accept_cols(t, width, n, items.len() as int) {
            cols
        } else if t < width {
            search_cols(items, width, spacing, n + 1, cols)
        } else {
            prev
        }
    }
}

/// The column widths the layout engine settles on for a batch of items.
pub open spec fn chosen_cols(items: Seq<Seq<char>>, width: int, spacing: int) -> Seq<int> {
    search_cols(items, width, spacing, 1, seq![0])
}

/// A sequence of `k` blanks.
pub open spec fn blanks(k: int) -> Seq<char> {
    Seq::new(if k >= 0 { k as nat } else { 0 }, |i: int| ' ')
}

/// `b` padded with blanks up to length `k` (unchanged if already longer).
pub open spec fn padded(b: Seq<char>, k: int) -> Seq<char> {
    if b.len() >= k {
        b
    } else {
        b + blanks(k - b.len())
    }
}

// ---------------------------------------------------------------------------
// Basic lemmas about the specs above.
// ---------------------------------------------------------------------------

/// Column widths are never negative.
pub proof fn lemma_col_width_nonneg(items: Seq<Seq<char>>, n: int, p: int)
    ensures
        col_width(items, n, p) >= 0,
    decreases items.len(),
{
    if items.len() > 0 {
        lemma_col_width_nonneg(items.drop_last(), n, p);
    }
}

/// Every item is no longer than the width of the column it lands in.
pub proof fn lemma_col_width_covers(items: Seq<Seq<char>>, n: int, i: int)
    requires
        0 <= i < items.len(),
        n >= 1,
    ensures
        items[i].len() <= col_width(items, n, i % n),
    decreases items.len(),
{
    if i == items.len() - 1 {
        lemma_col_width_nonneg(items.drop_last(), n, i % n);
    } else {
        lemma_col_width_covers(items.drop_last(), n, i);
        assert(items.drop_last()[i] == items[i]);
    }
}

/// Offsets grow monotonically with the column index.
pub proof fn lemma_offset_monotone(cols: Seq<int>, spacing: int, i: int, j: int)
    requires
        0 <= i <= j <= cols.len(),
        spacing >= 0,
        forall|p: int| 0 <= p < cols.len() ==> cols[p] >= 0,
    ensures
        offset_at(cols, spacing, i) <= offset_at(cols, spacing, j),
    decreases j - i,
{
    if i < j {
        lemma_offset_monotone(cols, spacing, i, j - 1);
    }
}

/// The end of the last column sits exactly at the total width.
pub proof fn lemma_offset_total(cols: Seq<int>, spacing: int)
    requires
        cols.len() >= 1,
    ensures
        offset_at(cols, spacing, cols.len() - 1) + cols[cols.len() - 1] == total_width(
            cols,
            spacing,
        ),
    decreases cols.len(),
{
    if cols.len() > 1 {
        let dl = cols.drop_last();
        let k = cols.len() - 1;
        lemma_offset_total(dl, spacing);
        lemma_offset_prefix(dl, cols, spacing, k - 1);
        assert(offset_at(cols, spacing, k) == offset_at(cols, spacing, k - 1) + cols[k - 1]
            + spacing);
        assert(offset_at(dl, spacing, k - 1) + dl[k - 1] == total_width(dl, spacing));
        assert(dl[k - 1] == cols[k - 1]);
        assert(total_width(cols, spacing) == total_width(dl, spacing) + spacing + cols[k]);
    }
}

/// Offsets only depend on the columns before them.
pub proof fn lemma_offset_prefix(short: Seq<int>, long: Seq<int>, spacing: int, i: int)
    requires
        0 <= i <= short.len(),
        short.len() <= long.len(),
        forall|p: int| 0 <= p < short.len() ==> short[p] == long[p],
    ensures
        offset_at(short, spacing, i) == offset_at(long, spacing, i),
    decreases i,
{
    if i > 0 {
        lemma_offset_prefix(short, long, spacing, i - 1);
    }
}

// ---------------------------------------------------------------------------
// Executable layout engine.
// ---------------------------------------------------------------------------

/// Offsets at which the columns of the given widths start, with `spaces`
/// blanks between adjacent columns.
pub fn calc_offsets(cols: &Vec<usize>, spaces: usize) -> (r: Vec<usize>)
    requires
        cols@.len() >= 1 ==> offset_at(ints_of(cols@), spaces as int, cols@.len() - 1)
            <= usize::MAX,
    ensures
        r@.len() == cols@.len(),
        forall|i: int|
            0 <= i < r@.len() ==> r@[i] as int == offset_at(ints_of(cols@), spaces as int, i),
{
    let mut offsets: Vec<usize> = Vec::new();
    if cols.len() == 0 {
        return offsets;
    }
    let n = cols.len();
    let mut acc: usize = 0;
    let mut i: usize = 0;
    while i < n
        invariant
            n == cols@.len(),
            1 <= n,
            0 <= i <= n,
            offsets@.len() == i,
            i < n ==> acc as int == offset_at(ints_of(cols@), spaces as int, i as int),
            forall|j: int|
                0 <= j < i ==> offsets@[j] as int == offset_at(ints_of(cols@), spaces as int, j),
            offset_at(ints_of(cols@), spaces as int, n - 1) <= usize::MAX,
        decreases n - i,
    {
        offsets.push(acc);
        if i + 1 < n {
            proof {
                let ci = ints_of(cols@);
                assert(forall|p: int| 0 <= p < ci.len() ==> ci[p] >= 0);
                lemma_offset_monotone(ci, spaces as int, i + 1, n - 1);
                assert(offset_at(ci, spaces as int, i + 1) == acc as int + ci[i as int]
                    + spaces as int);
                assert(ci[i as int] == cols@[i as int] as int);
            }
            acc = acc + cols[i] + spaces;
        }
        i += 1;
    }
    offsets
}

/// The widths of the `n_col` columns of a row-major layout of `items`.
fn compute_col_widths(items: &Vec<String>, n_col: usize) -> (r: Vec<usize>)
    requires
        1 <= n_col,
    ensures
        r@.len() == n_col,
        forall|p: int|
            0 <= p < n_col ==> r@[p] as int == col_width(views_of(items@), n_col as int, p),
{
    let mut cols: Vec<usize> = Vec::new();
    let mut p: usize = 0;
    while p < n_col
        invariant
            0 <= p <= n_col,
            cols@.len() == p,
            forall|q: int| 0 <= q < p ==> cols@[q] == 0,
        decreases n_col - p,
    {
        cols.push(0);
        p += 1;
    }
    let ghost views = views_of(items@);
    proof {
        assert(views.take(0) =~= Seq::<Seq<char>>::empty());
    }
    let mut i: usize = 0;
    while i < items.len()
        invariant
            1 <= n_col,
            0 <= i <= items@.len(),
            views == views_of(items@),
            cols@.len() == n_col,
            forall|q: int|
                0 <= q < n_col ==> cols@[q] as int == col_width(
                    views.take(i as int),
                    n_col as int,
                    q,
                ),
        decreases items@.len() - i,
    {
        let w = items[i].as_str().unicode_len();
        let p = i % n_col;
        proof {
            let prev = views.take(i as int);
            let cur = views.take(i + 1);
            assert(cur.drop_last() =~= prev);
            assert(cur[i as int] == items@[i as int]@);
            assert(w as int == cur[i as int].len());
            assert(p < n_col) by {
                vstd::arithmetic::div_mod::lemma_mod_bound(i as int, n_col as int);
            }
            assert(i as int % n_col as int == p as int);
        }
        if w > cols[p] {
            cols.set(p, w);
        }
        proof {
            let cur = views.take(i + 1);
            assert forall|q: int| 0 <= q < n_col implies cols@[q] as int == col_width(
                cur,
                n_col as int,
                q,
            ) by {
                assert(cur.drop_last() =~= views.take(i as int));
            }
        }
        i += 1;
    }
    proof {
        assert(views.take(items@.len() as int) =~= views);
    }
    cols
}

/// Total width of the candidate columns, computed without overflow: when the
/// running total would pass `width` the exact value no longer matters, only
/// that it is too large.
fn capped_total(cols: &Vec<usize>, spacing: usize, width: usize) -> (r: (usize, bool))
    requires
        cols@.len() >= 1,
    ensures
        ({
            let t = total_width(ints_of(cols@), spacing as int);
            if r.1 {
                t > width
            } else {
                r.0 as int == t && t <= width
            }
        }),
{
    let ghost ci = ints_of(cols@);
    let n = cols.len();
    let mut acc: usize = cols[0];
    let mut over = false;
    if acc > width {
        over = true;
    }
    proof {
        assert(ci.take(1) =~= seq![ci[0]]);
        assert(total_width(ci.take(1), spacing as int) == ci[0]);
    }
    let mut i: usize = 1;
    while i < n
        invariant
            1 <= i <= n,
            n == cols@.len(),
            ci == ints_of(cols@),
            ({
                let t = total_width(ci.take(i as int), spacing as int);
                if over {
                    t > width
                } else {
                    acc as int == t && t <= width
                }
            }),
        decreases n - i,
    {
        proof {
            let prev = ci.take(i as int);
            let cur = ci.take(i + 1);
            assert(cur.drop_last() =~= prev);
            assert(cur.last() == ci[i as int]);
            assert(total_width(cur, spacing as int) == total_width(prev, spacing as int)
                + spacing as int + ci[i as int]);
            assert(ci[i as int] == cols@[i as int] as int);
        }
        if !over {
            if spacing > width - acc {
                over = true;
            } else {
                acc = acc + spacing;
                if cols[i] > width - acc {
                    over = true;
                } else {
                    acc = acc + cols[i];
                }
            }
        }
        i += 1;
    }
    proof {
        assert(ci.take(n as int) =~= ci);
    }
    (acc, over)
}

/// The early-accept rule of the column search, decided without overflow.
/// `t` must be the exact total width of the candidate layout.
pub fn early_accept(t: usize, width: usize, n_col: usize, n_items: usize) -> (r: bool)
    ensures
        r == accept_cols(t as int, width as int, n_col as int, n_items as int),
{
    let dense_cols = if n_col >= n_items {
        true
    } else {
        n_col >= n_items - n_col
    };
    t == width || (t <= width && dense_cols && t >= width - t)
}

/// The column-count search: widths of the columns the layout settles on.
fn choose_cols(items: &Vec<String>, width: usize, min_spaces: usize) -> (r: Vec<usize>)
    ensures
        ints_of(r@) == chosen_cols(views_of(items@), width as int, min_spaces as int),
        r@.len() >= 1,
        offset_at(ints_of(r@), min_spaces as int, r@.len() - 1) <= usize::MAX,
{
    let ghost views = views_of(items@);
    let ghost w = width as int;
    let ghost m = min_spaces as int;
    let n_items = items.len();
    let mut n_col: usize = 1;
    let mut prev_cols: Vec<usize> = Vec::new();
    prev_cols.push(0);
    proof {
        assert(ints_of(prev_cols@) =~= seq![0int]);
    }
    while n_col <= n_items
        invariant
            1 <= n_col,
            n_items == items@.len(),
            views == views_of(items@),
            w == width as int,
            m == min_spaces as int,
            prev_cols@.len() >= 1,
            offset_at(ints_of(prev_cols@), m, prev_cols@.len() - 1) <= usize::MAX,
            search_cols(views, w, m, n_col as int, ints_of(prev_cols@)) == chosen_cols(
                views,
                w,
                m,
            ),
        decreases n_items + 1 - n_col,
    {
        let cols = compute_col_widths(items, n_col);
        proof {
            assert(ints_of(cols@) =~= col_widths(views, n_col as int));
        }
        let (t, over) = capped_total(&cols, min_spaces, width);
        let ghost tw = total_width(col_widths(views, n_col as int), m);
        if !over && early_accept(t, width, n_col, n_items) {
            proof {
                assert(accept_cols(tw, w, n_col as int, n_items as int));
                assert(chosen_cols(views, w, m) == col_widths(views, n_col as int));
                lemma_cols_offsets_fit(ints_of(cols@), m, w);
            }
            return cols;
        } else if !over {
            proof {
                assert(tw < w);
                assert(!accept_cols(tw, w, n_col as int, n_items as int));
                lemma_cols_offsets_fit(ints_of(cols@), m, w);
            }
            prev_cols = cols;
            if n_col == n_items {
                proof {
                    assert(search_cols(views, w, m, n_col as int + 1, ints_of(prev_cols@))
                        == ints_of(prev_cols@));
                }
                return prev_cols;
            }
            n_col += 1;
        } else {
            proof {
                assert(tw > w);
                assert(!accept_cols(tw, w, n_col as int, n_items as int));
            }
            return prev_cols;
        }
    }
    prev_cols
}

/// Offsets of columns whose total width fits the target also fit the machine.
proof fn lemma_cols_offsets_fit(cols: Seq<int>, spacing: int, width: int)
    requires
        cols.len() >= 1,
        spacing >= 0,
        forall|p: int| 0 <= p < cols.len() ==> cols[p] >= 0,
        total_width(cols, spacing) <= width,
        width <= usize::MAX,
    ensures
        offset_at(cols, spacing, cols.len() - 1) <= usize::MAX,
{
    lemma_offset_total(cols, spacing);
}

/// A builder that packs items, pushed one at a time, into rows whose columns
/// start at the precomputed offsets.
pub struct RowBuf {
    pub offsets: Vec<usize>,
    pub index: usize,
    pub buf: String,
}

impl RowBuf {
    /// Sets up the row builder for a batch of items and a target width by
    /// running the column-count search.
    pub fn new(width: usize, items: &Vec<String>, min_spaces: usize) -> (r: RowBuf)
        ensures
            ints_of(r.offsets@) == offsets_spec(
                chosen_cols(views_of(items@), width as int, min_spaces as int),
                min_spaces as int,
            ),
            r.offsets@.len() >= 1,
            r.index == 0,
            r.buf@ == Seq::<char>::empty(),
    {
        let cols = choose_cols(items, width, min_spaces);
        let offsets = calc_offsets(&cols, min_spaces);
        proof {
            assert(ints_of(offsets@) =~= offsets_spec(ints_of(cols@), min_spaces as int));
        }
        RowBuf { offsets, index: 0, buf: String::new() }
    }

    /// Adds the next item to the current row.  When the row is already full
    /// the finished row is handed back and the item starts a new row;
    /// otherwise the item is appended at its column's offset, padding with
    /// blanks as needed.
    pub fn push(&mut self, s: String) -> (r: Option<String>)
        ensures
            final(self).offsets == old(self).offsets,
            old(self).index >= old(self).offsets@.len() ==> ({
                &&& r == Some(old(self).buf)
                &&& final(self).index == 1
                &&& final(self).buf == s
            }),
            old(self).index < old(self).offsets@.len() ==> r is None,
            old(self).index == 0 && old(self).index < old(self).offsets@.len() ==> ({
                &&& final(self).index == 1
                &&& final(self).buf@ == old(self).buf@ + s@
            }),
            0 < old(self).index < old(self).offsets@.len() ==> ({
                &&& final(self).index == old(self).index + 1
                &&& final(self).buf@ == padded(
                    old(self).buf@,
                    old(self).offsets@[old(self).index as int] as int,
                ) + s@
            }),
    {
        if self.index >= self.offsets.len() {
            let mut val = s;
            core::mem::swap(&mut val, &mut self.buf);
            self.index = 1;
            Some(val)
        } else if self.index == 0 {
            self.index = 1;
            self.buf.append(s.as_str());
            None
        } else {
            let ghost offs = self.offsets;
            let ghost idx = self.index;
            let ghost b0 = self.buf@;
            let target = self.offsets[self.index];
            let cur = self.buf.as_str().unicode_len();
            if cur < target {
                let mut k = cur;
                while k < target
                    invariant
                        cur <= k <= target,
                        cur as int == b0.len(),
                        self.offsets == offs,
                        self.index == idx,
                        self.buf@ == b0 + blanks(k as int - cur as int),
                    decreases target - k,
                {
                    self.buf.append(" ");
                    proof {
                        reveal_strlit(" ");
                        assert(" "@ =~= seq![' ']);
                        assert(b0 + blanks(k + 1 - cur as int) =~= (b0 + blanks(
                            k as int - cur as int,
                        )) + " "@);
                    }
                    k += 1;
                }
                proof {
                    assert(self.buf@ =~= padded(b0, target as int));
                }
            } else {
                proof {
                    assert(blanks(0) =~= Seq::<char>::empty());
                    assert(self.buf@ =~= padded(b0, target as int));
                }
            }
            self.buf.append(s.as_str());
            self.index = self.index + 1;
            None
        }
    }

    /// Hands back the partially filled last row, leaving the builder empty.
    pub fn flush(&mut self) -> (r: String)
        ensures
            r == old(self).buf,
            final(self).buf@ == Seq::<char>::empty(),
            final(self).index == old(self).index,
            final(self).offsets == old(self).offsets,
    {
        let mut val = String::new();
        core::mem::swap(&mut val, &mut self.buf);
        val
    }

    /// True iff no item has been placed in the current row.
    pub fn is_empty(&self) -> (r: bool)
        ensures
            r == (self.buf@.len() == 0),
    {
        self.buf.as_str().is_empty()
    }
}

} // verus!
