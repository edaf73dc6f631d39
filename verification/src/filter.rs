use crate::filepath::FileMeta;
use vstd::prelude::*;

verus! {

/// Which kinds of entries are kept.
#[derive(PartialEq, Eq, Structural, Clone, Copy, Debug)]
pub enum FileType {
    Any,
    File,
    Folder,
}

/// Which entries are kept by name: all of them, only hidden ones, or only
/// visible ones.
#[derive(PartialEq, Eq, Structural, Clone, Copy, Debug)]
pub enum HiddenType {
    Any,
    Hidden,
    NotHidden,
}

/// A name is hidden iff it starts with a dot.
pub open spec fn is_hidden_name(name: Seq<char>) -> bool {
    name.len() > 0 && name[0] == '.'
}

/// Whether the visibility filter keeps an entry of the given name.
pub open spec fn hidden_matches(h: HiddenType, name: Seq<char>) -> bool {
    match h {
        HiddenType::Any => true,
        HiddenType::Hidden => is_hidden_name(name),
        HiddenType::NotHidden => !is_hidden_name(name),
    }
}

fn starts_with_dot(name: &str) -> (r: bool)
    ensures
        r == is_hidden_name(name@),
{
    if name.unicode_len() == 0 {
        false
    } else {
        name.get_char(0) == '.'
    }
}

impl HiddenType {
    /// Reports whether this visibility filter keeps an entry named `name`.
    pub fn is_match(&self, name: &str) -> (r: bool)
        ensures
            r == hidden_matches(*self, name@),
    {
        match self {
            HiddenType::Any => true,
            HiddenType::Hidden => starts_with_dot(name),
            HiddenType::NotHidden => !starts_with_dot(name),
        }
    }
}

/// Whether the type filter keeps an entry with the given metadata.
pub open spec fn type_matches(t: FileType, meta: FileMeta) -> bool {
    match t {
        FileType::Any => true,
        FileType::File => meta.is_file,
        FileType::Folder => meta.is_dir,
    }
}

impl FileType {
    /// Reports whether this type filter keeps an entry with metadata `meta`.
    pub fn is_match(&self, meta: &FileMeta) -> (r: bool)
        ensures
            r == type_matches(*self, *meta),
    {
        match self {
            FileType::Any => true,
            FileType::File => meta.is_file,
            FileType::Folder => meta.is_dir,
        }
    }
}

/// The two filters an invocation applies to directory contents.
#[derive(Clone, Copy, Debug)]
pub struct Filter {
    pub file_type: FileType,
    pub hidden: HiddenType,
}

/// The names a visibility filter keeps, in order.
pub open spec fn filter_names(names: Seq<Seq<char>>, h: HiddenType) -> Seq<Seq<char>> {
    names.filter(|n: Seq<char>| hidden_matches(h, n))
}

/// Law: filtering for visible entries keeps no hidden name; filtering for
/// hidden entries keeps only hidden names; filtering for all entries keeps
/// the directory contents unchanged, and the hidden and the visible
/// selections together hold exactly those contents, each name once.
pub proof fn lemma_visibility_partition(names: Seq<Seq<char>>)
    ensures
        forall|i: int|
            0 <= i < filter_names(names, HiddenType::NotHidden).len() ==> !is_hidden_name(
                #[trigger] filter_names(names, HiddenType::NotHidden)[i],
            ),
        forall|i: int|
            0 <= i < filter_names(names, HiddenType::Hidden).len() ==> is_hidden_name(
                #[trigger] filter_names(names, HiddenType::Hidden)[i],
            ),
        filter_names(names, HiddenType::Any) == names,
        filter_names(names, HiddenType::Hidden).to_multiset().add(
            filter_names(names, HiddenType::NotHidden).to_multiset(),
        ) == names.to_multiset(),
    decreases names.len(),
{
    broadcast use vstd::seq_lib::group_seq_properties;

    let vis = |n: Seq<char>| hidden_matches(HiddenType::NotHidden, n);
    let hid = |n: Seq<char>| hidden_matches(HiddenType::Hidden, n);
    let any = |n: Seq<char>| hidden_matches(HiddenType::Any, n);
    assert forall|i: int|
        0 <= i < names.filter(vis).len() implies !is_hidden_name(
        #[trigger] names.filter(vis)[i],
    ) by {
        names.lemma_filter_pred(vis, i);
    }
    assert forall|i: int|
        0 <= i < names.filter(hid).len() implies is_hidden_name(
        #[trigger] names.filter(hid)[i],
    ) by {
        names.lemma_filter_pred(hid, i);
    }
    if names.len() == 0 {
        reveal(Seq::filter);
        assert(names.filter(any) =~= names);
        assert(names.filter(hid).to_multiset().add(names.filter(vis).to_multiset())
            =~= names.to_multiset());
    } else {
        lemma_visibility_partition(names.drop_last());
        let prefix = names.drop_last();
        let x = names.last();
        reveal(Seq::filter);
        assert(names =~= prefix.push(x));
        assert(names.filter(any) == prefix.filter(any).push(x));
        assert(names.filter(any) =~= names);
        assert(names.to_multiset() =~= prefix.to_multiset().insert(x));
        if is_hidden_name(x) {
            assert(names.filter(hid) == prefix.filter(hid).push(x));
            assert(names.filter(vis) == prefix.filter(vis));
            assert(names.filter(hid).to_multiset() =~= prefix.filter(hid).to_multiset().insert(
                x,
            ));
            assert(names.filter(hid).to_multiset().add(names.filter(vis).to_multiset())
                =~= names.to_multiset());
        } else {
            assert(names.filter(vis) == prefix.filter(vis).push(x));
            assert(names.filter(hid) == prefix.filter(hid));
            assert(names.filter(vis).to_multiset() =~= prefix.filter(vis).to_multiset().insert(
                x,
            ));
            assert(names.filter(hid).to_multiset().add(names.filter(vis).to_multiset())
                =~= names.to_multiset());
        }
    }
}

} // verus!
