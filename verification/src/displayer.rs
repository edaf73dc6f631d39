use crate::table::{
    accept_cols, blanks, chosen_cols, col_widths, ints_of, offset_at, offsets_spec, padded,
    search_cols, total_width, views_of, RowBuf,
};
use std::io::Write;
use vstd::prelude::*;

verus! {

// ---------------------------------------------------------------------------
// Space-aware formatting of a single path.
// ---------------------------------------------------------------------------

/// How paths containing spaces are written out.
pub enum SpaceOpt {
    /// Written as they are.
    Bare,
    /// Wrapped in single quotes; in double quotes, with backslashes doubled,
    /// when the path itself holds a single quote.
    Quoted,
    /// Backslashes doubled, then every space preceded by a backslash.
    Escaped,
}

/// `s` with every backslash doubled.
pub open spec fn escape_backslashes(s: Seq<char>) -> Seq<char>
    decreases s.len(),
{
    if s.len() == 0 {
        Seq::empty()
    } else {
        let rest = escape_backslashes(s.drop_last());
        if s.last() == '\\' {
            rest + seq!['\\', '\\']
        } else {
            rest.push(s.last())
        }
    }
}

/// `s` with every space preceded by a backslash.
pub open spec fn escape_spaces(s: Seq<char>) -> Seq<char>
    decreases s.len(),
{
    if s.len() == 0 {
        Seq::empty()
    } else {
        let rest = escape_spaces(s.drop_last());
        if s.last() == ' ' {
            rest + seq!['\\', ' ']
        } else {
            rest.push(s.last())
        }
    }
}

/// What formatting a path under the given option produces.
pub open spec fn format_spec(o: SpaceOpt, s: Seq<char>) -> Seq<char> {
    match o {
        SpaceOpt::Bare => s,
        SpaceOpt::Quoted => if s.contains(' ') && s.contains('\'') {
            seq!['"'] + escape_backslashes(s) + seq!['"']
        } else if s.contains(' ') {
            seq!['\''] + s + seq!['\'']
        } else {
            s
        },
        SpaceOpt::Escaped => if s.contains(' ') {
            escape_spaces(escape_backslashes(s))
        } else {
            s
        },
    }
}

/// Reports whether `s` holds the character `c`.
fn contains_char(s: &str, c: char) -> (r: bool)
    ensures
        r == s@.contains(c),
{
    let len = s.unicode_len();
    let mut i: usize = 0;
    while i < len
        invariant
            len == s@.len(),
            0 <= i <= len,
            forall|j: int| 0 <= j < i ==> s@[j] != c,
        decreases len - i,
    {
        if s.get_char(i) == c {
            assert(s@.contains(c));
            return true;
        }
        i += 1;
    }
    assert(!s@.contains(c));
    false
}

/// Appends `s` to `out`, doubling every backslash.
fn append_escaping_backslashes(out: &mut String, s: &str)
    ensures
        final(out)@ == old(out)@ + escape_backslashes(s@),
{
    let ghost base = old(out)@;
    let len = s.unicode_len();
    let mut i: usize = 0;
    proof {
        assert(s@.take(0) =~= Seq::<char>::empty());
        assert(out@ =~= base + escape_backslashes(s@.take(0)));
    }
    while i < len
        invariant
            len == s@.len(),
            0 <= i <= len,
            out@ == base + escape_backslashes(s@.take(i as int)),
        decreases len - i,
    {
        let c = s.get_char(i);
        proof {
            assert(s@.take(i + 1).drop_last() =~= s@.take(i as int));
            assert(s@.take(i + 1).last() == s@[i as int]);
        }
        if c == '\\' {
            out.append("\\\\");
            proof {
                reveal_strlit("\\\\");
                assert("\\\\"@ =~= seq!['\\', '\\']);
                assert(out@ =~= base + escape_backslashes(s@.take(i + 1)));
            }
        } else {
            let piece = s.substring_char(i, i + 1);
            out.append(piece);
            proof {
                assert(piece@ =~= seq![s@[i as int]]);
                assert(out@ =~= base + escape_backslashes(s@.take(i + 1)));
            }
        }
        i += 1;
    }
    proof {
        assert(s@.take(len as int) =~= s@);
    }
}

/// Appends `s` to `out`, putting a backslash before every space.
fn append_escaping_spaces(out: &mut String, s: &str)
    ensures
        final(out)@ == old(out)@ + escape_spaces(s@),
{
    let ghost base = old(out)@;
    let len = s.unicode_len();
    let mut i: usize = 0;
    proof {
        assert(s@.take(0) =~= Seq::<char>::empty());
        assert(out@ =~= base + escape_spaces(s@.take(0)));
    }
    while i < len
        invariant
            len == s@.len(),
            0 <= i <= len,
            out@ == base + escape_spaces(s@.take(i as int)),
        decreases len - i,
    {
        let c = s.get_char(i);
        proof {
            assert(s@.take(i + 1).drop_last() =~= s@.take(i as int));
            assert(s@.take(i + 1).last() == s@[i as int]);
        }
        if c == ' ' {
            out.append("\\ ");
            proof {
                reveal_strlit("\\ ");
                assert("\\ "@ =~= seq!['\\', ' ']);
                assert(out@ =~= base + escape_spaces(s@.take(i + 1)));
            }
        } else {
            let piece = s.substring_char(i, i + 1);
            out.append(piece);
            proof {
                assert(piece@ =~= seq![s@[i as int]]);
                assert(out@ =~= base + escape_spaces(s@.take(i + 1)));
            }
        }
        i += 1;
    }
    proof {
        assert(s@.take(len as int) =~= s@);
    }
}

impl SpaceOpt {
    /// Formats one path for display according to `self`.
    pub fn format(&self, s: &str) -> (r: String)
        ensures
            r@ == format_spec(*self, s@),
    {
        match self {
            SpaceOpt::Bare => String::from_str(s),
            SpaceOpt::Quoted => {
                if contains_char(s, ' ') {
                    if contains_char(s, '\'') {
                        let mut out = String::from_str("\"");
                        append_escaping_backslashes(&mut out, s);
                        out.append("\"");
                        proof {
                            reveal_strlit("\"");
                            assert("\""@ =~= seq!['"']);
                            assert(out@ =~= seq!['"'] + escape_backslashes(s@) + seq!['"']);
                        }
                        out
                    } else {
                        let mut out = String::from_str("'");
                        out.append(s);
                        out.append("'");
                        proof {
                            reveal_strlit("'");
                            assert("'"@ =~= seq!['\'']);
                            assert(out@ =~= seq!['\''] + s@ + seq!['\'']);
                        }
                        out
                    }
                } else {
                    String::from_str(s)
                }
            },
            SpaceOpt::Escaped => {
                if contains_char(s, ' ') {
                    let mut escaped = String::new();
                    append_escaping_backslashes(&mut escaped, s);
                    proof {
                        assert(escaped@ =~= escape_backslashes(s@));
                    }
                    let mut out = String::new();
                    append_escaping_spaces(&mut out, escaped.as_str());
                    proof {
                        assert(out@ =~= escape_spaces(escape_backslashes(s@)));
                    }
                    out
                } else {
                    String::from_str(s)
                }
            },
        }
    }
}

// ---------------------------------------------------------------------------
// Specification of the emitted rows.
//
// Items fill rows left to right, `n` per row where `n` is the number of
// column offsets.  Within a row each item is appended at its column's
// offset, the gap being filled with blanks; an item that overshoots its
// column is never truncated, the following items simply start late.
// ---------------------------------------------------------------------------

/// The characters of one row holding the given chunk of items.
pub open spec fn row_string(chunk: Seq<Seq<char>>, offs: Seq<int>) -> Seq<char>
    decreases chunk.len(),
{
    if chunk.len() == 0 {
        Seq::empty()
    } else {
        padded(row_string(chunk.drop_last(), offs), offs[chunk.len() - 1]) + chunk.last()
    }
}

/// All rows of a batch of items, in order.
pub open spec fn spec_rows(items: Seq<Seq<char>>, offs: Seq<int>) -> Seq<Seq<char>>
    decreases items.len(),
{
    let n = offs.len() as int;
    if items.len() == 0 || n < 1 {
        Seq::empty()
    } else if items.len() <= n {
        seq![row_string(items, offs)]
    } else {
        seq![row_string(items.take(n), offs)] + spec_rows(items.skip(n), offs)
    }
}

/// The rows the engine actually hands out: a final row that is completely
/// empty is withheld.
pub open spec fn emitted_rows(items: Seq<Seq<char>>, offs: Seq<int>) -> Seq<Seq<char>> {
    let rs = spec_rows(items, offs);
    if rs.len() > 0 && rs.last().len() == 0 {
        rs.drop_last()
    } else {
        rs
    }
}

/// Rows split at any row boundary: the rows of a concatenation are the rows
/// of each part, provided the first part fills its rows completely.
pub proof fn lemma_spec_rows_append(u: Seq<Seq<char>>, v: Seq<Seq<char>>, offs: Seq<int>)
    requires
        offs.len() >= 1,
        u.len() as int % (offs.len() as int) == 0,
    ensures
        spec_rows(u + v, offs) == spec_rows(u, offs) + spec_rows(v, offs),
    decreases u.len(),
{
    let n = offs.len() as int;
    if u.len() == 0 {
        assert(u + v =~= v);
        assert(spec_rows(u, offs) =~= Seq::<Seq<char>>::empty());
        assert(spec_rows(u + v, offs) =~= spec_rows(u, offs) + spec_rows(v, offs));
    } else {
        assert(u.len() >= n) by {
            if u.len() < n {
                vstd::arithmetic::div_mod::lemma_small_mod(u.len(), n as nat);
            }
        }
        let w = u + v;
        assert(w.take(n) =~= u.take(n));
        assert(w.skip(n) =~= u.skip(n) + v);
        assert(u.skip(n).len() as int % n == 0) by {
            vstd::arithmetic::div_mod::lemma_mod_sub_multiples_vanish(u.len() as int, n);
        }
        lemma_spec_rows_append(u.skip(n), v, offs);
        if u.len() == n {
            assert(u.take(n) =~= u);
            assert(u.skip(n) =~= Seq::<Seq<char>>::empty());
            if v.len() == 0 {
                assert(w =~= u);
            }
            assert(spec_rows(u + v, offs) =~= spec_rows(u, offs) + spec_rows(v, offs));
        } else {
            assert(spec_rows(u, offs) == seq![row_string(u.take(n), offs)] + spec_rows(
                u.skip(n),
                offs,
            ));
            assert(spec_rows(u + v, offs) =~= spec_rows(u, offs) + spec_rows(v, offs));
        }
    }
}

/// Each row of the grid is the row string of its aligned chunk of items.
proof fn lemma_spec_rows_index(items: Seq<Seq<char>>, offs: Seq<int>, k: int)
    requires
        offs.len() >= 1,
        0 <= k < spec_rows(items, offs).len(),
    ensures
        ({
            let n = offs.len() as int;
            let lo = k * n;
            let hi = if (k + 1) * n <= items.len() {
                (k + 1) * n
            } else {
                items.len() as int
            };
            0 <= lo < hi <= items.len() && spec_rows(items, offs)[k] == row_string(
                items.subrange(lo, hi),
                offs,
            )
        }),
    decreases k,
{
    let n = offs.len() as int;
    if items.len() <= n {
        assert(spec_rows(items, offs) == seq![row_string(items, offs)]);
        assert(spec_rows(items, offs).len() == 1);
        assert(k == 0);
        assert(k * n == 0) by (nonlinear_arith)
            requires k == 0;
        assert((k + 1) * n == n) by (nonlinear_arith)
            requires k == 0;
        assert(items.subrange(0, items.len() as int) =~= items);
        assert(spec_rows(items, offs)[0] == row_string(items, offs));
    } else if k == 0 {
        assert(k * n == 0) by (nonlinear_arith)
            requires k == 0;
        assert((k + 1) * n == n) by (nonlinear_arith)
            requires k == 0;
        assert(items.subrange(0, n) =~= items.take(n));
        assert(spec_rows(items, offs)[0] == row_string(items.take(n), offs));
    } else {
        let rest = items.skip(n);
        lemma_spec_rows_index(rest, offs, k - 1);
        let lo = k * n;
        let hi = if (k + 1) * n <= items.len() {
            (k + 1) * n
        } else {
            items.len() as int
        };
        assert((k - 1) * n == k * n - n) by (nonlinear_arith);
        assert((k - 1 + 1) * n == (k + 1) * n - n) by (nonlinear_arith);
        assert(rest.subrange(lo - n, hi - n) =~= items.subrange(lo, hi));
        assert(spec_rows(items, offs)[k] == spec_rows(rest, offs)[k - 1]);
    }
}

/// A row whose items all fit their columns ends no later than the end of the
/// last column it uses.
proof fn lemma_row_string_fits(chunk: Seq<Seq<char>>, cols: Seq<int>, spacing: int)
    requires
        spacing >= 0,
        1 <= chunk.len() <= cols.len(),
        forall|p: int| 0 <= p < cols.len() ==> cols[p] >= 0,
        forall|p: int| 0 <= p < chunk.len() ==> #[trigger] chunk[p].len() <= cols[p],
    ensures
        row_string(chunk, offsets_spec(cols, spacing)).len() <= offset_at(
            cols,
            spacing,
            chunk.len() - 1,
        ) + cols[chunk.len() - 1],
    decreases chunk.len(),
{
    let offs = offsets_spec(cols, spacing);
    let c = chunk.len() as int;
    let prev = row_string(chunk.drop_last(), offs);
    assert(row_string(chunk, offs) == padded(prev, offs[c - 1]) + chunk.last());
    if c == 1 {
        assert(offs[0] == 0);
        assert(prev.len() == 0);
        assert(padded(prev, 0) == prev);
    } else {
        lemma_row_string_fits(chunk.drop_last(), cols, spacing);
        assert(offset_at(cols, spacing, c - 1) == offset_at(cols, spacing, c - 2) + cols[c - 2]
            + spacing);
        assert(prev.len() <= offset_at(cols, spacing, c - 1));
        assert(padded(prev, offs[c - 1]).len() <= offset_at(cols, spacing, c - 1));
    }
}

/// Whatever the column search hands back is either the degenerate single
/// zero-width column or a genuine set of column widths whose total fits.
proof fn lemma_search_good(
    items: Seq<Seq<char>>,
    width: int,
    spacing: int,
    n: int,
    prev: Seq<int>,
)
    requires
        n >= 1,
        prev == seq![0int] || (1 <= prev.len() && prev == col_widths(items, prev.len() as int)
            && total_width(prev, spacing) <= width),
    ensures
        ({
            let r = search_cols(items, width, spacing, n, prev);
            r == seq![0int] || (1 <= r.len() && r == col_widths(items, r.len() as int)
                && total_width(r, spacing) <= width)
        }),
    decreases items.len() + 1 - n,
{
    if n > items.len() {
    } else {
        let cols = col_widths(items, n);
        let t = total_width(cols, spacing);
        if accept_cols(t, width, n, items.len() as int) {
            assert(cols.len() == n);
        } else if t < width {
            assert(cols.len() == n);
            lemma_search_good(items, width, spacing, n + 1, cols);
        }
    }
}

/// Every row the layout engine emits fits the target width, except that a
/// row holding one single item that alone exceeds the width is exactly that
/// item, written out in full.
pub proof fn lemma_rows_fit(items: Seq<Seq<char>>, width: int, spacing: int)
    requires
        spacing >= 0,
    ensures
        ({
            let cols = chosen_cols(items, width, spacing);
            let rows = emitted_rows(items, offsets_spec(cols, spacing));
            forall|k: int|
                0 <= k < rows.len() ==> rows[k].len() <= width || (exists|i: int|
                    0 <= i < items.len() && rows[k] == items[i] && items[i].len() > width)
        }),
{
    let cols = chosen_cols(items, width, spacing);
    let offs = offsets_spec(cols, spacing);
    let rs = spec_rows(items, offs);
    let rows = emitted_rows(items, offs);
    assert(seq![0int] == chosen_cols(items, width, spacing) || cols == col_widths(
        items,
        cols.len() as int,
    ) && 1 <= cols.len() && total_width(cols, spacing) <= width) by {
        lemma_search_good(items, width, spacing, 1, seq![0int]);
    }
    let n = cols.len() as int;
    assert(n >= 1);
    assert(offs.len() == n);
    assert forall|k: int|
        0 <= k < rows.len() implies rows[k].len() <= width || (exists|i: int|
        0 <= i < items.len() && rows[k] == items[i] && items[i].len() > width) by {
        assert(rows[k] == rs[k]);
        lemma_spec_rows_index(items, offs, k);
        let lo = k * n;
        let hi = if (k + 1) * n <= items.len() {
            (k + 1) * n
        } else {
            items.len() as int
        };
        let chunk = items.subrange(lo, hi);
        assert(rs[k] == row_string(chunk, offs));
        if cols == seq![0int] {
            assert(n == 1);
            assert(offs[0] == 0);
            assert(chunk =~= seq![items[lo]]);
            assert(chunk.drop_last() =~= Seq::<Seq<char>>::empty());
            assert(chunk.last() == items[lo]);
            assert(row_string(chunk, offs) == padded(
                row_string(Seq::<Seq<char>>::empty(), offs),
                offs[0],
            ) + items[lo]);
            assert(row_string(chunk, offs) == padded(Seq::<char>::empty(), 0) + items[lo]);
            assert(padded(Seq::<char>::empty(), 0) =~= Seq::<char>::empty());
            assert(row_string(chunk, offs) =~= items[lo]);
            if rows[k].len() > width {
                assert(rows[k] == items[lo] && items[lo].len() > width);
            }
        } else {
            assert(cols == col_widths(items, n) && total_width(cols, spacing) <= width);
            assert forall|p: int| 0 <= p < cols.len() implies cols[p] >= 0 by {
                crate::table::lemma_col_width_nonneg(items, n, p);
            }
            assert((k + 1) * n == k * n + n) by (nonlinear_arith);
            assert(chunk.len() <= n);
            assert forall|p: int| 0 <= p < chunk.len() implies #[trigger] chunk[p].len()
                <= cols[p] by {
                assert(chunk[p] == items[lo + p]);
                assert(p < n);
                assert((lo + p) % n == p) by {
                    vstd::arithmetic::div_mod::lemma_mod_multiples_vanish(k, p, n);
                    assert(n * k == k * n) by (nonlinear_arith);
                    vstd::arithmetic::div_mod::lemma_small_mod(p as nat, n as nat);
                }
                crate::table::lemma_col_width_covers(items, n, lo + p);
            }
            lemma_row_string_fits(chunk, cols, spacing);
            let c = chunk.len() as int;
            assert(1 <= c <= n);
            assert(offset_at(cols, spacing, c - 1) + cols[c - 1] <= total_width(cols, spacing))
                by {
                crate::table::lemma_offset_monotone(cols, spacing, c, n);
                crate::table::lemma_offset_total(cols, spacing);
                assert(offset_at(cols, spacing, c - 1) + cols[c - 1] <= offset_at(
                    cols,
                    spacing,
                    c,
                ));
            }
        }
    }
}

// ---------------------------------------------------------------------------
// The row producer.
// ---------------------------------------------------------------------------

/// Turns a batch of items into printable rows, consuming the items.
pub struct Rows {
    pub buf: RowBuf,
    pub items: Vec<String>,
}

impl Rows {
    /// Prepares the rows of `items` packed into `max_size` character wide
    /// lines with at least `min_spaces` blanks between columns.
    pub fn new(max_size: usize, items: Vec<String>, min_spaces: usize) -> (r: Rows)
        ensures
            r.items == items,
            ints_of(r.buf.offsets@) == offsets_spec(
                chosen_cols(views_of(items@), max_size as int, min_spaces as int),
                min_spaces as int,
            ),
            r.buf.offsets@.len() >= 1,
            r.buf.index == 0,
            r.buf.buf@ == Seq::<char>::empty(),
    {
        let buf = RowBuf::new(max_size, &items, min_spaces);
        Rows { buf, items }
    }

    /// Produces all rows, in order.
    pub fn collect_rows(self) -> (r: Vec<String>)
        requires
            self.buf.index == 0,
            self.buf.buf@.len() == 0,
            self.buf.offsets@.len() >= 1,
            self.buf.offsets@[0] == 0,
        ensures
            views_of(r@) == emitted_rows(views_of(self.items@), ints_of(self.buf.offsets@)),
    {
        let mut buf = self.buf;
        let mut items = self.items;
        let ghost all = views_of(items@);
        let ghost offs = ints_of(buf.offsets@);
        let ghost n = offs.len() as int;
        let ghost offsets0 = buf.offsets;
        let mut rows: Vec<String> = Vec::new();
        let ghost mut row_start: int = 0;
        while items.len() > 0
            invariant
                1 <= n,
                offs == ints_of(offsets0@),
                offs[0] == 0,
                n == offs.len() as int,
                buf.offsets == offsets0,
                views_of(items@) =~= all.skip(all.len() - items@.len()),
                items@.len() <= all.len(),
                0 <= row_start <= all.len() - items@.len(),
                row_start % n == 0,
                ({
                    let c = all.len() - items@.len();
                    if c == 0 {
                        rows@.len() == 0 && buf.index == 0 && buf.buf@.len() == 0 && row_start
                            == 0
                    } else {
                        &&& 1 <= c - row_start <= n
                        &&& buf.index == c - row_start
                        &&& buf.buf@ == row_string(all.subrange(row_start, c), offs)
                        &&& views_of(rows@) == spec_rows(all.take(row_start), offs)
                    }
                }),
            decreases items@.len(),
        {
            let ghost c = all.len() - items@.len();
            let ghost items0 = items@;
            let s = items.remove(0);
            proof {
                assert(views_of(items0)[0] == items0[0]@);
                assert(views_of(items0)[0] == all.skip(c)[0]);
                assert(s@ == all[c]);
                assert forall|j: int| 0 <= j < items@.len() implies views_of(items@)[j] == all.skip(
                    c + 1,
                )[j] by {
                    assert(items@[j] == items0.remove(0)[j]);
                    assert(items0.remove(0)[j] == items0[j + 1]);
                    assert(views_of(items@)[j] == items@[j]@);
                    assert(views_of(items0)[j + 1] == items0[j + 1]@);
                }
                assert(views_of(items@) =~= all.skip(c + 1));
            }
            let res = buf.push(s);
            match res {
                Some(row) => {
                    proof {
                        // the finished row covered items row_start .. c, a full row
                        assert(c - row_start == n);
                        let u = all.take(row_start);
                        let full = all.take(c);
                        assert(full =~= u + all.subrange(row_start, c));
                        lemma_spec_rows_append(u, all.subrange(row_start, c), offs);
                        assert(all.subrange(row_start, c).len() == n);
                        assert(spec_rows(all.subrange(row_start, c), offs) =~= seq![
                            row_string(all.subrange(row_start, c), offs),
                        ]);
                    }
                    rows.push(row);
                    proof {
                        assert(views_of(rows@) =~= spec_rows(all.take(c), offs));
                        row_start = c;
                        assert(row_start % n == 0) by {
                            vstd::arithmetic::div_mod::lemma_mod_add_multiples_vanish(
                                row_start - n,
                                n,
                            );
                        }
                        assert(all.subrange(row_start, c + 1) =~= seq![all[c]]);
                        assert(seq![all[c]].drop_last() =~= Seq::<Seq<char>>::empty());
                        assert(seq![all[c]].last() == all[c]);
                        assert(row_string(seq![all[c]], offs) == padded(
                            row_string(Seq::<Seq<char>>::empty(), offs),
                            offs[0],
                        ) + all[c]);
                        assert(padded(Seq::<char>::empty(), 0) =~= Seq::<char>::empty());
                        assert(buf.buf@ =~= row_string(all.subrange(row_start, c + 1), offs));
                    }
                },
                None => {
                    proof {
                        let chunk_old = all.subrange(row_start, c);
                        let chunk_new = all.subrange(row_start, c + 1);
                        assert(chunk_new.drop_last() =~= chunk_old);
                        assert(chunk_new.last() == all[c]);
                        if c == 0 {
                            assert(chunk_new =~= seq![all[0]]);
                            assert(seq![all[0]].drop_last() =~= Seq::<Seq<char>>::empty());
                            assert(seq![all[0]].last() == all[0]);
                            assert(row_string(chunk_new, offs) == padded(
                                row_string(Seq::<Seq<char>>::empty(), offs),
                                offs[0],
                            ) + all[0]);
                            assert(padded(Seq::<char>::empty(), 0) =~= Seq::<char>::empty());
                            assert(all.take(0) =~= Seq::<Seq<char>>::empty());
                            assert(buf.buf@ =~= row_string(chunk_new, offs));
                        } else {
                            assert(buf.buf@ =~= row_string(chunk_new, offs));
                        }
                    }
                },
            }
        }
        proof {
            assert(all.len() == all.len() - items@.len());
        }
        if !buf.is_empty() {
            let last = buf.flush();
            rows.push(last);
        }
        proof {
            let c = all.len() as int;
            if c == 0 {
                assert(all =~= Seq::<Seq<char>>::empty());
                assert(views_of(rows@) =~= emitted_rows(all, offs));
            } else {
                let u = all.take(row_start);
                let tail = all.subrange(row_start, c);
                assert(all =~= u + tail);
                lemma_spec_rows_append(u, tail, offs);
                assert(1 <= tail.len() <= n);
                assert(spec_rows(tail, offs) =~= seq![row_string(tail, offs)]);
                assert(spec_rows(all, offs) =~= spec_rows(u, offs) + seq![
                    row_string(tail, offs),
                ]);
                assert(spec_rows(all, offs).last() == row_string(tail, offs));
                assert(spec_rows(all, offs).drop_last() =~= spec_rows(u, offs));
                assert(views_of(rows@) =~= emitted_rows(all, offs));
            }
        }
        rows
    }
}

// ---------------------------------------------------------------------------
// The displayer.
// ---------------------------------------------------------------------------

/// Relies on std::io::Stdout::write_fmt, reached through `writeln!`:
/// writes the line followed by a newline to standard output.
#[verifier::external_body]
fn print_line(s: &str) {
    let _ = writeln!(std::io::stdout(), "{}", s);
}

/// Writes every line to standard output, in order.
pub fn print_lines(lines: &Vec<String>) {
    let mut i: usize = 0;
    while i < lines.len()
        decreases lines@.len() - i,
    {
        print_line(lines[i].as_str());
        i += 1;
    }
}

/// How a batch of already-selected paths is put on the screen.
pub struct Displayer {
    /// When set, every path gets its own line and no grid is attempted.
    pub one_per_line: bool,
    /// How paths with spaces are written.
    pub space_opt: SpaceOpt,
    /// The width, in characters, that grid rows should fit into.
    pub width: usize,
}

/// The lines that displaying a batch of paths produces: each path formatted
/// for spaces, then either one per line or packed into grid rows.
pub open spec fn render_spec(d: Displayer, files: Seq<Seq<char>>) -> Seq<Seq<char>> {
    let formatted = files.map_values(|s: Seq<char>| format_spec(d.space_opt, s));
    if d.one_per_line {
        formatted
    } else {
        emitted_rows(
            formatted,
            offsets_spec(chosen_cols(formatted, d.width as int, 4), 4),
        )
    }
}

impl Displayer {
    /// The output lines for a batch of paths.
    pub fn render(&self, files: Vec<String>) -> (r: Vec<String>)
        ensures
            views_of(r@) == render_spec(*self, views_of(files@)),
    {
        let ghost in_views = views_of(files@);
        let mut formatted: Vec<String> = Vec::new();
        let n = files.len();
        let mut i: usize = 0;
        while i < n
            invariant
                n == files@.len(),
                in_views == views_of(files@),
                0 <= i <= n,
                formatted@.len() == i,
                forall|j: int|
                    0 <= j < i ==> #[trigger] formatted@[j]@ == format_spec(
                        self.space_opt,
                        in_views[j],
                    ),
            decreases n - i,
        {
            let f = self.space_opt.format(files[i].as_str());
            formatted.push(f);
            i += 1;
        }
        proof {
            assert(views_of(formatted@) =~= in_views.map_values(
                |s: Seq<char>| format_spec(self.space_opt, s),
            ));
        }
        if self.one_per_line {
            formatted
        } else {
            let rows = Rows::new(self.width, formatted, 4);
            proof {
                let cols = chosen_cols(views_of(formatted@), self.width as int, 4);
                assert(ints_of(rows.buf.offsets@).len() == rows.buf.offsets@.len());
                assert(offsets_spec(cols, 4).len() == cols.len());
                assert(cols.len() >= 1);
                assert(offsets_spec(cols, 4)[0] == offset_at(cols, 4, 0));
                assert(offset_at(cols, 4, 0) == 0);
                assert(ints_of(rows.buf.offsets@)[0] == rows.buf.offsets@[0] as int);
            }
            rows.collect_rows()
        }
    }

    /// Pretty-prints the given paths to standard output.
    pub fn print(&self, files: Vec<String>) {
        let lines = self.render(files);
        print_lines(&lines);
    }
}

} // verus!
