//! Choosing, among the entries of a directory walk, those of the asked types
//! whose names match any of the asked patterns.
use vstd::prelude::*;

use crate::pattern::{regex_matches, Pattern};

verus! {

/// A kind of directory entry.
#[derive(Clone, Copy, Debug, PartialEq, Eq, Structural)]
pub enum EntryType {
    Dir,
    File,
    Link,
}

impl EntryType {
    /// The letter that names the kind on a command line.
    pub fn letter(&self) -> (r: &'static str) {
        match self {
            EntryType::Dir => "d",
            EntryType::File => "f",
            EntryType::Link => "l",
        }
    }
}

/// The kinds asked for: as given, or all three where none was.
pub fn resolve_types(types: Vec<EntryType>) -> (r: Vec<EntryType>)
    ensures
        types@.len() > 0 ==> r@ == types@,
        types@.len() == 0 ==> r@ == seq![EntryType::Dir, EntryType::File, EntryType::Link],
{
    if types.len() == 0 {
        vec![EntryType::Dir, EntryType::File, EntryType::Link]
    } else {
        types
    }
}

/// An entry met on a directory walk.
pub struct FoundEntry {
    /// The path as the walk reached it.
    pub path: String,
    /// The last component of the path.
    pub file_name: String,
    pub is_dir: bool,
    pub is_file: bool,
    pub is_symlink: bool,
}

/// Whether an entry is printed: no kind of it is left out, and where patterns
/// are given, one of them matches its name.
pub open spec fn selected(e: FoundEntry, names: Seq<Pattern>, types: Seq<EntryType>) -> bool {
    &&& !(e.is_dir && !types.contains(EntryType::Dir))
    &&& !(e.is_file && !types.contains(EntryType::File))
    &&& !(e.is_symlink && !types.contains(EntryType::Link))
    &&& (names.len() == 0 || exists|k: int|
        0 <= k < names.len() && regex_matches(
            #[trigger] names[k].source(),
            names[k].insensitive(),
            e.file_name@,
        ))
}

/// The paths of the selected entries, in the walk's order.
pub open spec fn selected_paths(
    es: Seq<FoundEntry>,
    names: Seq<Pattern>,
    types: Seq<EntryType>,
) -> Seq<Seq<char>>
    decreases es.len(),
{
    if es.len() == 0 {
        Seq::empty()
    } else {
        let rest = selected_paths(es.drop_last(), names, types);
        if selected(es.last(), names, types) {
            rest.push(es.last().path@)
        } else {
            rest
        }
    }
}

fn has_type(types: &[EntryType], t: EntryType) -> (r: bool)
    ensures
        r == types@.contains(t),
{
    let mut i: usize = 0;
    while i < types.len()
        invariant
            i <= types@.len(),
            forall|k: int| 0 <= k < i ==> types@[k] != t,
        decreases types@.len() - i,
    {
        if types[i] == t {
            return true;
        }
        i = i + 1;
    }
    false
}

fn any_match(names: &[Pattern], name: &str) -> (r: bool)
    ensures
        r == exists|k: int|
            0 <= k < names@.len() && regex_matches(
                #[trigger] names@[k].source(),
                names@[k].insensitive(),
                name@,
            ),
{
    let mut i: usize = 0;
    while i < names.len()
        invariant
            i <= names@.len(),
            forall|k: int|
                0 <= k < i ==> !regex_matches(
                    #[trigger] names@[k].source(),
                    names@[k].insensitive(),
                    name@,
                ),
        decreases names@.len() - i,
    {
        if names[i].is_match(name) {
            return true;
        }
        i = i + 1;
    }
    false
}

/// The paths of the walked entries that are of an asked kind and, where
/// patterns are given, whose names match one of them.
pub fn run(entries: &[FoundEntry], names: &[Pattern], types: &[EntryType]) -> (r: Vec<String>)
    ensures
        r@.map_values(|s: String| s@) == selected_paths(entries@, names@, types@),
{
    let want_dir = has_type(types, EntryType::Dir);
    let want_file = has_type(types, EntryType::File);
    let want_link = has_type(types, EntryType::Link);
    let mut out: Vec<String> = Vec::new();
    let mut i: usize = 0;
    assert(entries@.subrange(0, 0) =~= Seq::<FoundEntry>::empty());
    assert(out@.map_values(|s: String| s@) =~= Seq::<Seq<char>>::empty());
    while i < entries.len()
        invariant
            i <= entries@.len(),
            want_dir == types@.contains(EntryType::Dir),
            want_file == types@.contains(EntryType::File),
            want_link == types@.contains(EntryType::Link),
            out@.map_values(|s: String| s@) == selected_paths(
                entries@.subrange(0, i as int),
                names@,
                types@,
            ),
        decreases entries@.len() - i,
    {
        let e = &entries[i];
        let ghost next = entries@.subrange(0, i + 1);
        assert(next.drop_last() =~= entries@.subrange(0, i as int));
        let ghost before = out@.map_values(|s: String| s@);
        let kind_ok = !(e.is_dir && !want_dir) && !(e.is_file && !want_file) && !(e.is_symlink
            && !want_link);
        if kind_ok && (names.len() == 0 || any_match(names, e.file_name.as_str())) {
            out.push(e.path.clone());
            assert(out@.map_values(|s: String| s@) =~= before.push(e.path@));
        }
        i = i + 1;
    }
    assert(entries@.subrange(0, i as int) =~= entries@);
    out
}

} // verus!
