use crate::filepath::{FileMeta, FilePath};
use vstd::multiset::Multiset;
use vstd::prelude::*;

verus! {

// ---------------------------------------------------------------------------
// The sort keys and their orderings.
// ---------------------------------------------------------------------------

/// The key a batch of entries is ordered by.
#[derive(PartialEq, Eq, Structural, Clone, Copy, Debug)]
pub enum SortBy {
    NoSort,
    Name,
    DateCreated,
    LastModified,
    LastAccessed,
    Size,
}

/// An absent value sorts before any present one.
pub open spec fn opt_le(a: Option<u64>, b: Option<u64>) -> bool {
    match (a, b) {
        (Option::None, _) => true,
        (Option::Some(_), Option::None) => false,
        (Option::Some(x), Option::Some(y)) => x <= y,
    }
}

/// How two optional values compare, an absent value being the least.
pub open spec fn opt_cmp_spec(a: Option<u64>, b: Option<u64>) -> core::cmp::Ordering {
    match (a, b) {
        (Option::None, Option::None) => core::cmp::Ordering::Equal,
        (Option::None, Option::Some(_)) => core::cmp::Ordering::Less,
        (Option::Some(_), Option::None) => core::cmp::Ordering::Greater,
        (Option::Some(x), Option::Some(y)) => if x < y {
            core::cmp::Ordering::Less
        } else if x == y {
            core::cmp::Ordering::Equal
        } else {
            core::cmp::Ordering::Greater
        },
    }
}

/// Compares two optional values, an absent value being the least.
pub fn cmp_opt(a: &Option<u64>, b: &Option<u64>) -> (r: core::cmp::Ordering)
    ensures
        r == opt_cmp_spec(*a, *b),
{
    match (a, b) {
        (Option::None, Option::None) => core::cmp::Ordering::Equal,
        (Option::None, Option::Some(_)) => core::cmp::Ordering::Less,
        (Option::Some(_), Option::None) => core::cmp::Ordering::Greater,
        (Option::Some(x), Option::Some(y)) => if *x < *y {
            core::cmp::Ordering::Less
        } else if *x == *y {
            core::cmp::Ordering::Equal
        } else {
            core::cmp::Ordering::Greater
        },
    }
}

fn opt_le_exec(a: &Option<u64>, b: &Option<u64>) -> (r: bool)
    ensures
        r == opt_le(*a, *b),
{
    match cmp_opt(a, b) {
        core::cmp::Ordering::Greater => false,
        _ => true,
    }
}

/// Lexicographic order on character sequences, by code point.
pub open spec fn lex_le(a: Seq<char>, b: Seq<char>) -> bool
    decreases a.len(),
{
    if a.len() == 0 {
        true
    } else if b.len() == 0 {
        false
    } else if (a[0] as int) < (b[0] as int) {
        true
    } else if a[0] == b[0] {
        lex_le(a.drop_first(), b.drop_first())
    } else {
        false
    }
}

// ---------------------------------------------------------------------------
// File stems: the comparable representation of a path under the name key.
// ---------------------------------------------------------------------------

/// The part of a path after its last slash; empty when the path ends in one.
pub open spec fn file_name_of(p: Seq<char>) -> Seq<char>
    decreases p.len(),
{
    if p.len() == 0 {
        p
    } else if p.last() == '/' {
        Seq::empty()
    } else {
        file_name_of(p.drop_last()).push(p.last())
    }
}

/// The index of the last dot in a name, or -1 when there is none.
pub open spec fn last_dot(name: Seq<char>) -> int
    decreases name.len(),
{
    if name.len() == 0 {
        -1
    } else if name.last() == '.' {
        name.len() - 1
    } else {
        last_dot(name.drop_last())
    }
}

/// The name without its extension: everything before the last dot, unless
/// that dot is the name's first character or there is no dot at all.
pub open spec fn stem_of(name: Seq<char>) -> Seq<char> {
    let d = last_dot(name);
    if d > 0 {
        name.take(d)
    } else {
        name
    }
}

/// The stem a path is compared by under the name key; absent when the path
/// has no file name.
pub open spec fn stem_key(p: Seq<char>) -> Option<Seq<char>> {
    let n = file_name_of(p);
    if n.len() == 0 {
        Option::None
    } else {
        Option::Some(stem_of(n))
    }
}

/// An absent stem sorts before any present one; present stems compare
/// lexicographically.
pub open spec fn opt_seq_le(a: Option<Seq<char>>, b: Option<Seq<char>>) -> bool {
    match (a, b) {
        (Option::None, _) => true,
        (Option::Some(_), Option::None) => false,
        (Option::Some(x), Option::Some(y)) => lex_le(x, y),
    }
}

/// A scan that found the last slash pins down the file name.
proof fn lemma_file_name_at(p: Seq<char>, k: int)
    requires
        0 <= k <= p.len(),
        forall|j: int| k <= j < p.len() ==> p[j] != '/',
        k == 0 || p[k - 1] == '/',
    ensures
        file_name_of(p) == p.skip(k),
    decreases p.len(),
{
    if p.len() == 0 {
        assert(p.skip(0) =~= p);
    } else if p.last() == '/' {
        assert(k == p.len());
        assert(p.skip(k) =~= Seq::<char>::empty());
    } else {
        assert(k <= p.len() - 1);
        lemma_file_name_at(p.drop_last(), k);
        assert(p.drop_last().skip(k).push(p.last()) =~= p.skip(k));
    }
}

/// A scan that found the last dot pins down `last_dot`.
proof fn lemma_last_dot_at(name: Seq<char>, d: int)
    requires
        0 <= d < name.len(),
        name[d] == '.',
        forall|j: int| d < j < name.len() ==> name[j] != '.',
    ensures
        last_dot(name) == d,
    decreases name.len(),
{
    if name.last() == '.' {
        assert(d == name.len() - 1);
    } else {
        lemma_last_dot_at(name.drop_last(), d);
    }
}

/// A scan that found no dot pins down `last_dot`.
proof fn lemma_no_dot(name: Seq<char>)
    requires
        forall|j: int| 0 <= j < name.len() ==> name[j] != '.',
    ensures
        last_dot(name) == -1,
    decreases name.len(),
{
    if name.len() > 0 {
        lemma_no_dot(name.drop_last());
    }
}

/// The character index at which the file name of `p` starts.
pub(crate) fn name_start(p: &str) -> (r: usize)
    ensures
        r <= p@.len(),
        file_name_of(p@) == p@.skip(r as int),
        r == 0 || p@[r as int - 1] == '/',
        forall|j: int| r <= j < p@.len() ==> p@[j] != '/',
{
    let len = p.unicode_len();
    let mut i: usize = len;
    while i > 0 && p.get_char(i - 1) != '/'
        invariant
            len == p@.len(),
            0 <= i <= len,
            forall|j: int| i <= j < len ==> p@[j] != '/',
        decreases i,
    {
        i -= 1;
    }
    proof {
        lemma_file_name_at(p@, i as int);
    }
    i
}

/// The character range `[start, end)` of the stem of `p`, where `start` is
/// where the file name begins.
fn stem_end(p: &str, start: usize) -> (r: usize)
    requires
        start <= p@.len(),
    ensures
        start <= r <= p@.len(),
        p@.skip(start as int).take(r as int - start as int) == stem_of(
            p@.subrange(start as int, p@.len() as int),
        ),
{
    let len = p.unicode_len();
    let ghost name = p@.subrange(start as int, len as int);
    let mut e: usize = len;
    while e > start && p.get_char(e - 1) != '.'
        invariant
            len == p@.len(),
            start <= e <= len,
            forall|j: int| e <= j < len ==> p@[j] != '.',
        decreases e,
    {
        e -= 1;
    }
    if e == start {
        proof {
            assert forall|j: int| 0 <= j < name.len() implies name[j] != '.' by {
                assert(name[j] == p@[start + j]);
            }
            lemma_no_dot(name);
            assert(p@.skip(start as int).take(len as int - start as int) =~= name);
        }
        len
    } else {
        proof {
            let d = e - 1 - start as int;
            assert(name[d] == p@[e - 1]);
            assert forall|j: int| d < j < name.len() implies name[j] != '.' by {
                assert(name[j] == p@[start + j]);
            }
            lemma_last_dot_at(name, d);
        }
        if e - 1 > start {
            proof {
                let d = e - 1 - start as int;
                assert(p@.skip(start as int).take(d) =~= name.take(d));
            }
            e - 1
        } else {
            proof {
                assert(last_dot(name) == 0);
                assert(p@.skip(start as int).take(len as int - start as int) =~= name);
            }
            len
        }
    }
}

/// Lexicographic comparison of two strings, by code point.
fn str_lex_le(a: &str, b: &str) -> (r: bool)
    ensures
        r == lex_le(a@, b@),
{
    let alen = a.unicode_len();
    let blen = b.unicode_len();
    let mut i: usize = 0;
    proof {
        assert(a@.skip(0) =~= a@);
        assert(b@.skip(0) =~= b@);
    }
    loop
        invariant
            alen == a@.len(),
            blen == b@.len(),
            0 <= i <= alen,
            0 <= i <= blen,
            forall|j: int| 0 <= j < i ==> a@[j] == b@[j],
            lex_le(a@, b@) == lex_le(a@.skip(i as int), b@.skip(i as int)),
        decreases alen - i,
    {
        if i >= alen {
            proof {
                assert(a@.skip(i as int).len() == 0);
            }
            return true;
        }
        if i >= blen {
            proof {
                assert(b@.skip(i as int).len() == 0);
                assert(a@.skip(i as int).len() > 0);
            }
            return false;
        }
        let ca = a.get_char(i);
        let cb = b.get_char(i);
        proof {
            assert(a@.skip(i as int)[0] == a@[i as int]);
            assert(b@.skip(i as int)[0] == b@[i as int]);
        }
        if (ca as u32) < (cb as u32) {
            return true;
        }
        if ca != cb {
            return false;
        }
        proof {
            assert(a@.skip(i as int).drop_first() =~= a@.skip(i + 1));
            assert(b@.skip(i as int).drop_first() =~= b@.skip(i + 1));
        }
        i += 1;
    }
}

/// Compares two paths by their stems, an absent stem coming first.
fn stem_le(a: &str, b: &str) -> (r: bool)
    ensures
        r == opt_seq_le(stem_key(a@), stem_key(b@)),
{
    let a_start = name_start(a);
    let b_start = name_start(b);
    let a_len = a.unicode_len();
    let b_len = b.unicode_len();
    if a_start == a_len {
        proof {
            assert(file_name_of(a@).len() == 0);
        }
        true
    } else if b_start == b_len {
        proof {
            assert(file_name_of(a@) =~= a@.skip(a_start as int));
            assert(file_name_of(a@).len() > 0);
            assert(file_name_of(b@).len() == 0);
        }
        false
    } else {
        let a_end = stem_end(a, a_start);
        let b_end = stem_end(b, b_start);
        let sa = a.substring_char(a_start, a_end);
        let sb = b.substring_char(b_start, b_end);
        proof {
            assert(file_name_of(a@) =~= a@.subrange(a_start as int, a_len as int));
            assert(file_name_of(b@) =~= b@.subrange(b_start as int, b_len as int));
            assert(file_name_of(a@).len() > 0);
            assert(file_name_of(b@).len() > 0);
            assert(sa@ =~= a@.skip(a_start as int).take(a_end - a_start as int));
            assert(sb@ =~= b@.skip(b_start as int).take(b_end - b_start as int));
        }
        str_lex_le(sa, sb)
    }
}

// ---------------------------------------------------------------------------
// The comparator a sort runs under.
// ---------------------------------------------------------------------------

/// The ascending order under one sort key.
pub open spec fn key_le(sort_by: SortBy, a: FilePath, b: FilePath) -> bool {
    match sort_by {
        SortBy::NoSort => true,
        SortBy::Size => a.size <= b.size,
        SortBy::Name => opt_seq_le(stem_key(a.path@), stem_key(b.path@)),
        SortBy::DateCreated => opt_le(a.date_created, b.date_created),
        SortBy::LastModified => opt_le(a.last_modified, b.last_modified),
        SortBy::LastAccessed => opt_le(a.last_accessed, b.last_accessed),
    }
}

/// The order a sort runs under: ascending by the key, or its mirror image
/// when descending.  Without a sort key the order keeps every pair in
/// place, in either direction.
pub open spec fn file_le(sort_by: SortBy, descending: bool, a: FilePath, b: FilePath) -> bool {
    if sort_by is NoSort {
        true
    } else if descending {
        key_le(sort_by, b, a)
    } else {
        key_le(sort_by, a, b)
    }
}

fn le_asc(sort_by: &SortBy, a: &FilePath, b: &FilePath) -> (r: bool)
    ensures
        r == key_le(*sort_by, *a, *b),
{
    match sort_by {
        SortBy::NoSort => true,
        SortBy::Size => a.size <= b.size,
        SortBy::Name => stem_le(a.path.as_str(), b.path.as_str()),
        SortBy::DateCreated => opt_le_exec(&a.date_created, &b.date_created),
        SortBy::LastModified => opt_le_exec(&a.last_modified, &b.last_modified),
        SortBy::LastAccessed => opt_le_exec(&a.last_accessed, &b.last_accessed),
    }
}

fn le(sort_by: &SortBy, descending: bool, a: &FilePath, b: &FilePath) -> (r: bool)
    ensures
        r == file_le(*sort_by, descending, *a, *b),
{
    if matches!(sort_by, SortBy::NoSort) {
        true
    } else if descending {
        le_asc(sort_by, b, a)
    } else {
        le_asc(sort_by, a, b)
    }
}

// ---------------------------------------------------------------------------
// The sort itself: a stable insertion sort, specified functionally.
// ---------------------------------------------------------------------------

/// Where stable insertion puts `x` into `s`: after the last element that
/// compares no greater than `x`, so that equal elements keep their order.
pub open spec fn insert_le(
    sort_by: SortBy,
    descending: bool,
    s: Seq<FilePath>,
    x: FilePath,
) -> Seq<FilePath>
    decreases s.len(),
{
    if s.len() == 0 {
        seq![x]
    } else if file_le(sort_by, descending, s.last(), x) {
        s.push(x)
    } else {
        insert_le(sort_by, descending, s.drop_last(), x).push(s.last())
    }
}

/// The stable sort of `s`: each element, in order, inserted into the sorted
/// batch of the elements before it.
pub open spec fn sort_spec(sort_by: SortBy, descending: bool, s: Seq<FilePath>) -> Seq<FilePath>
    decreases s.len(),
{
    if s.len() == 0 {
        s
    } else {
        insert_le(sort_by, descending, sort_spec(sort_by, descending, s.drop_last()), s.last())
    }
}

/// Adjacent pairs are in order.
pub open spec fn sorted_by(sort_by: SortBy, descending: bool, s: Seq<FilePath>) -> bool {
    forall|i: int| 0 <= i < s.len() - 1 ==> file_le(sort_by, descending, #[trigger] s[i], s[i + 1])
}

/// Stable insertion at the position an insertion scan finds.
proof fn lemma_insert_le_at(
    sort_by: SortBy,
    descending: bool,
    s: Seq<FilePath>,
    x: FilePath,
    k: int,
)
    requires
        0 <= k <= s.len(),
        forall|j: int| k <= j < s.len() ==> !file_le(sort_by, descending, #[trigger] s[j], x),
        k > 0 ==> file_le(sort_by, descending, s[k - 1], x),
    ensures
        insert_le(sort_by, descending, s, x) == s.subrange(0, k) + seq![x] + s.skip(k),
    decreases s.len(),
{
    if s.len() == 0 {
        assert(s.subrange(0, 0) + seq![x] + s.skip(0) =~= seq![x]);
    } else if file_le(sort_by, descending, s.last(), x) {
        assert(k == s.len());
        assert(s.subrange(0, k) + seq![x] + s.skip(k) =~= s.push(x));
    } else {
        assert(k < s.len());
        let dl = s.drop_last();
        assert(forall|j: int|
            k <= j < dl.len() ==> !file_le(sort_by, descending, #[trigger] dl[j], x));
        assert(k > 0 ==> dl[k - 1] == s[k - 1]);
        lemma_insert_le_at(sort_by, descending, dl, x, k);
        assert((dl.subrange(0, k) + seq![x] + dl.skip(k)).push(s.last()) =~= s.subrange(0, k)
            + seq![x] + s.skip(k));
    }
}

/// Inserts `x` into the already-built prefix `out`.
fn insert_sorted(sort_by: &SortBy, descending: bool, out: &mut Vec<FilePath>, x: FilePath)
    ensures
        final(out)@ == insert_le(*sort_by, descending, old(out)@, x),
{
    let mut k = out.len();
    while k > 0 && !le(sort_by, descending, &out[k - 1], &x)
        invariant
            0 <= k <= out@.len(),
            forall|j: int|
                k <= j < out@.len() ==> !file_le(*sort_by, descending, #[trigger] out@[j], x),
        decreases k,
    {
        k -= 1;
    }
    proof {
        lemma_insert_le_at(*sort_by, descending, out@, x, k as int);
        assert(out@.insert(k as int, x) =~= out@.subrange(0, k as int) + seq![x] + out@.skip(
            k as int,
        ));
    }
    out.insert(k, x);
}

/// Sorts the batch under the given key and direction.
fn sort_files(sort_by: &SortBy, descending: bool, files: &mut Vec<FilePath>)
    ensures
        final(files)@ == sort_spec(*sort_by, descending, old(files)@),
{
    let ghost orig = old(files)@;
    let mut out: Vec<FilePath> = Vec::new();
    proof {
        assert(orig.take(0) =~= Seq::<FilePath>::empty());
        assert(orig.skip(0) =~= orig);
    }
    while files.len() > 0
        invariant
            files@ == orig.skip(orig.len() - files@.len()),
            files@.len() <= orig.len(),
            out@ == sort_spec(*sort_by, descending, orig.take(orig.len() - files@.len())),
        decreases files@.len(),
    {
        let ghost c = orig.len() - files@.len();
        let x = files.remove(0);
        proof {
            assert(x == orig.skip(c)[0]);
            assert(orig.skip(c)[0] == orig[c]);
            assert(files@ =~= orig.skip(c + 1));
        }
        insert_sorted(sort_by, descending, &mut out, x);
        proof {
            assert(orig.take(c + 1).drop_last() =~= orig.take(c));
            assert(orig.take(c + 1).last() == orig[c]);
        }
    }
    proof {
        assert(orig.take(orig.len() as int) =~= orig);
    }
    core::mem::swap(files, &mut out);
}

impl SortBy {
    /// Sorts the batch ascending by this key; without a key the batch is
    /// left in its enumeration order.
    pub fn sort_ascending(&self, files: &mut Vec<FilePath>)
        ensures
            final(files)@ == sort_spec(*self, false, old(files)@),
    {
        sort_files(self, false, files);
    }

    /// Sorts the batch descending by this key, the mirror image of the
    /// ascending order so that equal keys keep their enumeration order;
    /// without a key the batch is left in its enumeration order.
    pub fn sort_descending(&self, files: &mut Vec<FilePath>)
        ensures
            final(files)@ == sort_spec(*self, true, old(files)@),
    {
        sort_files(self, true, files);
    }

    /// Builds the entry for one selected path, carrying exactly the
    /// metadata field this key sorts by.
    pub fn new_filepath(&self, p: String, md: &FileMeta) -> (r: FilePath)
        ensures
            r == new_filepath_spec(*self, p, *md),
    {
        match self {
            SortBy::NoSort | SortBy::Name => FilePath::new(p),
            SortBy::Size => FilePath::with_size(p, md.size),
            SortBy::DateCreated => FilePath::with_date_created(p, md.created),
            SortBy::LastModified => FilePath::with_last_modified(p, md.modified),
            SortBy::LastAccessed => FilePath::with_last_accessed(p, md.accessed),
        }
    }
}

/// The entry built for one selected path under a sort key: only the field
/// that key orders by is taken from the metadata.
pub open spec fn new_filepath_spec(sort_by: SortBy, p: String, md: FileMeta) -> FilePath {
    match sort_by {
        SortBy::NoSort | SortBy::Name => FilePath {
            path: p,
            size: 0,
            date_created: Option::None,
            last_modified: Option::None,
            last_accessed: Option::None,
        },
        SortBy::Size => FilePath {
            path: p,
            size: md.size,
            date_created: Option::None,
            last_modified: Option::None,
            last_accessed: Option::None,
        },
        SortBy::DateCreated => FilePath {
            path: p,
            size: 0,
            date_created: md.created,
            last_modified: Option::None,
            last_accessed: Option::None,
        },
        SortBy::LastModified => FilePath {
            path: p,
            size: 0,
            date_created: Option::None,
            last_modified: md.modified,
            last_accessed: Option::None,
        },
        SortBy::LastAccessed => FilePath {
            path: p,
            size: 0,
            date_created: Option::None,
            last_modified: Option::None,
            last_accessed: md.accessed,
        },
    }
}

// ---------------------------------------------------------------------------
// The order is a total preorder, and what follows from that.
// ---------------------------------------------------------------------------

/// Lexicographic order is total.
proof fn lemma_lex_le_total(a: Seq<char>, b: Seq<char>)
    ensures
        lex_le(a, b) || lex_le(b, a),
    decreases a.len(),
{
    if a.len() > 0 && b.len() > 0 && a[0] == b[0] {
        lemma_lex_le_total(a.drop_first(), b.drop_first());
    }
}

/// Lexicographic order is transitive.
proof fn lemma_lex_le_trans(a: Seq<char>, b: Seq<char>, c: Seq<char>)
    requires
        lex_le(a, b),
        lex_le(b, c),
    ensures
        lex_le(a, c),
    decreases a.len(),
{
    if a.len() == 0 {
    } else {
        assert(b.len() > 0);
        assert(c.len() > 0);
        if a[0] == b[0] && b[0] == c[0] {
            lemma_lex_le_trans(a.drop_first(), b.drop_first(), c.drop_first());
        }
    }
}

/// The file order is total.
proof fn lemma_file_le_total(sort_by: SortBy, descending: bool, a: FilePath, b: FilePath)
    ensures
        file_le(sort_by, descending, a, b) || file_le(sort_by, descending, b, a),
{
    if sort_by is Name {
        match (stem_key(a.path@), stem_key(b.path@)) {
            (Option::Some(x), Option::Some(y)) => lemma_lex_le_total(x, y),
            _ => {},
        }
    }
}

/// The file order is transitive.
proof fn lemma_file_le_trans(
    sort_by: SortBy,
    descending: bool,
    a: FilePath,
    b: FilePath,
    c: FilePath,
)
    requires
        file_le(sort_by, descending, a, b),
        file_le(sort_by, descending, b, c),
    ensures
        file_le(sort_by, descending, a, c),
{
    if sort_by is Name {
        let (x, y, z) = if descending {
            (stem_key(c.path@), stem_key(b.path@), stem_key(a.path@))
        } else {
            (stem_key(a.path@), stem_key(b.path@), stem_key(c.path@))
        };
        match (x, y, z) {
            (Option::Some(u), Option::Some(v), Option::Some(w)) => lemma_lex_le_trans(u, v, w),
            _ => {},
        }
    }
}

/// Inserting into a sorted batch keeps it sorted.
proof fn lemma_insert_le_sorted(sort_by: SortBy, descending: bool, s: Seq<FilePath>, x: FilePath)
    requires
        sorted_by(sort_by, descending, s),
    ensures
        sorted_by(sort_by, descending, insert_le(sort_by, descending, s, x)),
        insert_le(sort_by, descending, s, x).len() == s.len() + 1,
        insert_le(sort_by, descending, s, x).last() == x || (s.len() > 0 && insert_le(
            sort_by,
            descending,
            s,
            x,
        ).last() == s.last()),
    decreases s.len(),
{
    let t = insert_le(sort_by, descending, s, x);
    if s.len() == 0 {
        assert(t =~= seq![x]);
    } else if file_le(sort_by, descending, s.last(), x) {
        assert(t == s.push(x));
        assert forall|i: int| 0 <= i < t.len() - 1 implies file_le(
            sort_by,
            descending,
            #[trigger] t[i],
            t[i + 1],
        ) by {
            if i < s.len() - 1 {
                assert(file_le(sort_by, descending, s[i], s[i + 1]));
            }
        }
    } else {
        let dl = s.drop_last();
        assert(sorted_by(sort_by, descending, dl)) by {
            assert forall|i: int| 0 <= i < dl.len() - 1 implies file_le(
                sort_by,
                descending,
                #[trigger] dl[i],
                dl[i + 1],
            ) by {
                assert(dl[i] == s[i]);
                assert(dl[i + 1] == s[i + 1]);
            }
        }
        lemma_insert_le_sorted(sort_by, descending, dl, x);
        let u = insert_le(sort_by, descending, dl, x);
        assert(t == u.push(s.last()));
        lemma_file_le_total(sort_by, descending, s.last(), x);
        assert(file_le(sort_by, descending, x, s.last()));
        assert(file_le(sort_by, descending, u.last(), s.last())) by {
            if u.last() == x {
            } else {
                assert(dl.len() > 0 && u.last() == dl.last());
                assert(file_le(sort_by, descending, s[s.len() - 2], s[s.len() - 1]));
            }
        }
        assert forall|i: int| 0 <= i < t.len() - 1 implies file_le(
            sort_by,
            descending,
            #[trigger] t[i],
            t[i + 1],
        ) by {
            if i < u.len() - 1 {
                assert(t[i] == u[i]);
                assert(t[i + 1] == u[i + 1]);
                assert(file_le(sort_by, descending, u[i], u[i + 1]));
            } else {
                assert(t[i] == u.last());
                assert(t[i + 1] == s.last());
            }
        }
    }
}

/// What the sort produces is sorted.
pub proof fn lemma_sort_spec_sorted(sort_by: SortBy, descending: bool, s: Seq<FilePath>)
    ensures
        sorted_by(sort_by, descending, sort_spec(sort_by, descending, s)),
        sort_spec(sort_by, descending, s).len() == s.len(),
    decreases s.len(),
{
    if s.len() > 0 {
        lemma_sort_spec_sorted(sort_by, descending, s.drop_last());
        lemma_insert_le_sorted(
            sort_by,
            descending,
            sort_spec(sort_by, descending, s.drop_last()),
            s.last(),
        );
    }
}

/// A sorted batch is returned by the sort unchanged.
proof fn lemma_sorted_sort_identity(sort_by: SortBy, descending: bool, s: Seq<FilePath>)
    requires
        sorted_by(sort_by, descending, s),
    ensures
        sort_spec(sort_by, descending, s) == s,
    decreases s.len(),
{
    if s.len() > 0 {
        let dl = s.drop_last();
        assert(sorted_by(sort_by, descending, dl)) by {
            assert forall|i: int| 0 <= i < dl.len() - 1 implies file_le(
                sort_by,
                descending,
                #[trigger] dl[i],
                dl[i + 1],
            ) by {
                assert(dl[i] == s[i]);
                assert(dl[i + 1] == s[i + 1]);
            }
        }
        lemma_sorted_sort_identity(sort_by, descending, dl);
        if dl.len() == 0 {
            assert(insert_le(sort_by, descending, dl, s.last()) =~= s);
        } else {
            assert(file_le(sort_by, descending, s[s.len() - 2], s[s.len() - 1]));
            assert(dl.last() == s[s.len() - 2]);
            assert(insert_le(sort_by, descending, dl, s.last()) == dl.push(s.last()));
            assert(dl.push(s.last()) =~= s);
        }
    }
}

/// Sorted batches are ordered pairwise, not just between neighbours.
proof fn lemma_sorted_pairwise(
    sort_by: SortBy,
    descending: bool,
    s: Seq<FilePath>,
    i: int,
    j: int,
)
    requires
        sorted_by(sort_by, descending, s),
        0 <= i <= j < s.len(),
    ensures
        file_le(sort_by, descending, s[i], s[j]),
    decreases j - i,
{
    if i == j {
        lemma_file_le_total(sort_by, descending, s[i], s[j]);
    } else {
        lemma_sorted_pairwise(sort_by, descending, s, i, j - 1);
        lemma_file_le_trans(sort_by, descending, s[i], s[j - 1], s[j]);
    }
}

/// Law: after an ascending sort by size, sizes never decrease from one
/// entry to the next.
pub proof fn lemma_sort_by_size_ascending(s: Seq<FilePath>)
    ensures
        ({
            let r = sort_spec(SortBy::Size, false, s);
            forall|i: int| 0 <= i < r.len() - 1 ==> #[trigger] r[i].size <= r[i + 1].size
        }),
{
    lemma_sort_spec_sorted(SortBy::Size, false, s);
    let r = sort_spec(SortBy::Size, false, s);
    assert forall|i: int| 0 <= i < r.len() - 1 implies #[trigger] r[i].size <= r[i + 1].size by {
        assert(file_le(SortBy::Size, false, r[i], r[i + 1]));
    }
}

/// The timestamp field a timestamp key orders by; absent for other keys.
pub open spec fn timestamp_of(sort_by: SortBy, f: FilePath) -> Option<u64> {
    match sort_by {
        SortBy::DateCreated => f.date_created,
        SortBy::LastModified => f.last_modified,
        SortBy::LastAccessed => f.last_accessed,
        _ => Option::None,
    }
}

/// Law: after an ascending sort by any timestamp key, every entry whose
/// timestamp is missing comes before every entry that has one.
pub proof fn lemma_missing_timestamps_first(sort_by: SortBy, s: Seq<FilePath>)
    requires
        sort_by is DateCreated || sort_by is LastModified || sort_by is LastAccessed,
    ensures
        ({
            let r = sort_spec(sort_by, false, s);
            forall|i: int, j: int|
                0 <= i < j < r.len() && #[trigger] timestamp_of(sort_by, r[i]) is Some
                    ==> #[trigger] timestamp_of(sort_by, r[j]) is Some
        }),
{
    lemma_sort_spec_sorted(sort_by, false, s);
    let r = sort_spec(sort_by, false, s);
    assert forall|i: int, j: int|
        0 <= i < j < r.len() && #[trigger] timestamp_of(sort_by, r[i]) is Some implies #[trigger]
    timestamp_of(sort_by, r[j]) is Some by {
        lemma_sorted_pairwise(sort_by, false, r, i, j);
        assert(file_le(sort_by, false, r[i], r[j]));
    }
}

/// Inserting adds exactly the inserted element to the batch's contents.
proof fn lemma_insert_le_multiset(
    sort_by: SortBy,
    descending: bool,
    s: Seq<FilePath>,
    x: FilePath,
)
    ensures
        insert_le(sort_by, descending, s, x).to_multiset() == s.to_multiset().insert(x),
    decreases s.len(),
{
    broadcast use vstd::seq_lib::group_to_multiset_ensures;

    if s.len() == 0 {
        assert(insert_le(sort_by, descending, s, x) =~= Seq::<FilePath>::empty().push(x));
        assert(s.to_multiset() =~= Multiset::<FilePath>::empty());
    } else if file_le(sort_by, descending, s.last(), x) {
    } else {
        let dl = s.drop_last();
        lemma_insert_le_multiset(sort_by, descending, dl, x);
        assert(s =~= dl.push(s.last()));
        assert(insert_le(sort_by, descending, s, x).to_multiset() =~= insert_le(
            sort_by,
            descending,
            dl,
            x,
        ).to_multiset().insert(s.last()));
        assert(dl.to_multiset().insert(x).insert(s.last()) =~= dl.to_multiset().insert(
            s.last(),
        ).insert(x));
    }
}

/// Law: the sort is a permutation: the sorted batch holds exactly the
/// entries of the original, each as often as before.
pub proof fn lemma_sort_permutes(sort_by: SortBy, descending: bool, s: Seq<FilePath>)
    ensures
        sort_spec(sort_by, descending, s).to_multiset() == s.to_multiset(),
    decreases s.len(),
{
    broadcast use vstd::seq_lib::group_to_multiset_ensures;

    if s.len() > 0 {
        let dl = s.drop_last();
        lemma_sort_permutes(sort_by, descending, dl);
        lemma_insert_le_multiset(
            sort_by,
            descending,
            sort_spec(sort_by, descending, dl),
            s.last(),
        );
        assert(s =~= dl.push(s.last()));
        assert(s.to_multiset() =~= dl.to_multiset().insert(s.last()));
    }
}

/// Law: the sort is idempotent: sorting an already sorted batch again under
/// the same key and direction returns it unchanged.
pub proof fn lemma_sort_idempotent(sort_by: SortBy, descending: bool, s: Seq<FilePath>)
    ensures
        sort_spec(sort_by, descending, sort_spec(sort_by, descending, s)) == sort_spec(
            sort_by,
            descending,
            s,
        ),
{
    lemma_sort_spec_sorted(sort_by, descending, s);
    lemma_sorted_sort_identity(sort_by, descending, sort_spec(sort_by, descending, s));
}

/// The sort key and direction of one invocation.
#[derive(Clone, Copy, Debug)]
pub struct Sorter {
    pub descending: bool,
    pub sort_by: SortBy,
}

impl Sorter {
    pub fn new(descending: bool, sort_by: SortBy) -> (r: Self)
        ensures
            r.descending == descending,
            r.sort_by == sort_by,
    {
        Sorter { descending, sort_by }
    }

    /// Sorts one batch of entries under this key and direction.
    pub fn sort(&self, files: &mut Vec<FilePath>)
        ensures
            final(files)@ == sort_spec(self.sort_by, self.descending, old(files)@),
    {
        if self.descending {
            self.sort_by.sort_descending(files);
        } else {
            self.sort_by.sort_ascending(files);
        }
    }
}

} // verus!
