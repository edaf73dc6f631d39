pub mod cmd;
pub mod displayer;
pub mod filepath;
pub mod filter;
pub mod sorter;
pub mod table;

use vstd::prelude::*;

verus! {

/// True iff the string contains one of the glob metacharacters `*`, `?`, `[`.
pub open spec fn has_glob_char(s: Seq<char>) -> bool {
    exists|i: int| 0 <= i < s.len() && (s[i] == '*' || s[i] == '?' || s[i] == '[')
}

/// Reports whether an argument looks like a glob pattern, that is, whether it
/// contains a glob metacharacter.
pub fn is_glob(s: &str) -> (r: bool)
    ensures
        r == has_glob_char(s@),
{
    let len = s.unicode_len();
    let mut i: usize = 0;
    while i < len
        invariant
            len == s@.len(),
            0 <= i <= len,
            forall|j: int| 0 <= j < i ==> !(s@[j] == '*' || s@[j] == '?' || s@[j] == '['),
        decreases len - i,
    {
        let c = s.get_char(i);
        if c == '*' || c == '?' || c == '[' {
            return true;
        }
        i += 1;
    }
    false
}

/// `s` with every leading repetition of `folder` removed; a search for an
/// empty prefix removes nothing.
pub open spec fn strip_prefix_reps(s: Seq<char>, f: Seq<char>) -> Seq<char>
    decreases s.len(),
{
    if f.len() == 0 || s.len() < f.len() || s.take(f.len() as int) != f {
        s
    } else {
        strip_prefix_reps(s.skip(f.len() as int), f)
    }
}

/// `s` with every leading slash removed.
pub open spec fn strip_leading_slashes(s: Seq<char>) -> Seq<char>
    decreases s.len(),
{
    if s.len() > 0 && s[0] == '/' {
        strip_leading_slashes(s.skip(1))
    } else {
        s
    }
}

/// What trimming the parent folder from a child path produces: the folder
/// prefix goes, and, unless the original path itself ended in a slash, so
/// do the slashes that separated it from the rest.
pub open spec fn trim_folder_spec(folder: Seq<char>, s: Seq<char>) -> Seq<char> {
    let p = strip_prefix_reps(s, folder);
    if s.len() > 0 && s.last() == '/' {
        p
    } else {
        strip_leading_slashes(p)
    }
}

/// Reports whether `folder` occurs in `s` starting at character `start`.
fn has_prefix_at(s: &str, start: usize, f: &str) -> (r: bool)
    requires
        start <= s@.len(),
    ensures
        r == (s@.skip(start as int).len() >= f@.len() && s@.skip(start as int).take(
            f@.len() as int,
        ) == f@),
{
    let flen = f.unicode_len();
    let slen = s.unicode_len();
    if slen - start < flen {
        return false;
    }
    let mut i: usize = 0;
    while i < flen
        invariant
            flen == f@.len(),
            slen == s@.len(),
            start + flen <= slen,
            0 <= i <= flen,
            forall|j: int| 0 <= j < i ==> s@[start + j] == f@[j],
        decreases flen - i,
    {
        if s.get_char(start + i) != f.get_char(i) {
            proof {
                let t = s@.skip(start as int).take(flen as int);
                assert(t[i as int] == s@[start + i]);
                assert(t != f@);
            }
            return false;
        }
        i += 1;
    }
    proof {
        assert(s@.skip(start as int).take(flen as int) =~= f@);
    }
    true
}

/// Trims the folder name from a path: the folder prefix is removed, and,
/// unless the path ends in a slash, so are the slashes that followed it.
pub fn trim_folder(folder: &str, s: &str) -> (r: String)
    ensures
        r@ == trim_folder_spec(folder@, s@),
{
    let flen = folder.unicode_len();
    let slen = s.unicode_len();
    let mut start: usize = 0;
    if flen > 0 {
        let mut go = has_prefix_at(s, 0, folder);
        proof {
            assert(s@.skip(0) =~= s@);
        }
        while go
            invariant
                flen == folder@.len(),
                slen == s@.len(),
                1 <= flen,
                0 <= start <= slen,
                strip_prefix_reps(s@, folder@) == strip_prefix_reps(
                    s@.skip(start as int),
                    folder@,
                ),
                go == (s@.skip(start as int).len() >= flen && s@.skip(start as int).take(
                    flen as int,
                ) == folder@),
            decreases slen - start,
        {
            proof {
                assert(s@.skip(start as int).skip(flen as int) =~= s@.skip(
                    start + flen as int,
                ));
            }
            start = start + flen;
            go = has_prefix_at(s, start, folder);
        }
    }
    proof {
        assert(strip_prefix_reps(s@, folder@) == s@.skip(start as int));
    }
    let ends_with_slash = slen > 0 && s.get_char(slen - 1) == '/';
    if !ends_with_slash {
        while start < slen && s.get_char(start) == '/'
            invariant
                slen == s@.len(),
                0 <= start <= slen,
                strip_leading_slashes(strip_prefix_reps(s@, folder@)) == strip_leading_slashes(
                    s@.skip(start as int),
                ),
            decreases slen - start,
        {
            proof {
                assert(s@.skip(start as int).skip(1) =~= s@.skip(start + 1));
            }
            start = start + 1;
        }
        proof {
            if start == slen {
                assert(s@.skip(start as int) =~= Seq::<char>::empty());
            }
            assert(strip_leading_slashes(s@.skip(start as int)) == s@.skip(start as int));
        }
    }
    let r = s.substring_char(start, slen);
    proof {
        assert(r@ =~= s@.skip(start as int));
    }
    String::from_str(r)
}

} // verus!
