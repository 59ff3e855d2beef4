//! The decision half of source enumeration: which entries of a directory
//! walk become readable sources. The walk itself is I/O and happens
//! outside the library; it reports each entry's path, kind, and depth
//! below the root (the root itself is at depth zero).

use vstd::prelude::*;

verus! {

/// One entry met while walking a path specifier.
pub struct WalkEntry {
    /// The entry's path, as it will identify the source.
    pub path: String,
    /// Whether the entry is a regular file.
    pub is_file: bool,
    /// How far below the walk's root the entry sits; the root is at zero.
    pub depth: usize,
}

/// Whether an entry becomes a source: only regular files do, and files
/// below the root only when the walk is recursive. A directory root with
/// recursion off therefore yields no sources at all.
pub open spec fn selected(e: WalkEntry, recursive: bool) -> bool {
    e.is_file && (recursive || e.depth == 0)
}

/// The paths of the selected entries, in walk order.
pub open spec fn selected_paths(entries: Seq<WalkEntry>, recursive: bool) -> Seq<Seq<char>> {
    entries.filter(|e: WalkEntry| selected(e, recursive)).map_values(|e: WalkEntry| e.path@)
}

/// Keeps the entries that become sources, honoring the recursive flag.
pub fn select_files(entries: &Vec<WalkEntry>, recursive: bool) -> (files: Vec<String>)
    ensures
        files.deep_view() == selected_paths(entries@, recursive),
{
    let ghost ev = entries@;
    let ghost pred = |e: WalkEntry| selected(e, recursive);
    let ghost path_of = |e: WalkEntry| e.path@;
    let mut files: Vec<String> = Vec::new();
    let mut i: usize = 0;
    while i < entries.len()
        invariant
            i <= entries.len(),
            ev == entries@,
            pred == (|e: WalkEntry| selected(e, recursive)),
            path_of == (|e: WalkEntry| e.path@),
            files.deep_view() == ev.take(i as int).filter(pred).map_values(path_of),
        decreases entries.len() - i,
    {
        proof {
            let prefix = ev.take(i as int);
            assert(ev.take(i + 1) =~= prefix.push(ev[i as int]));
            prefix.lemma_filter_push(ev[i as int], pred);
            prefix.filter(pred).lemma_push_map_commute(path_of, ev[i as int]);
        }
        if entries[i].is_file && (recursive || entries[i].depth == 0) {
            let ghost before = files.deep_view();
            files.push(entries[i].path.clone());
            proof {
                assert(files.deep_view() =~= before.push(ev[i as int].path@));
                assert(files.deep_view() =~= ev.take(i + 1).filter(pred).map_values(path_of));
            }
        }
        i = i + 1;
    }
    proof {
        assert(ev.take(entries.len() as int) =~= ev);
    }
    files
}

} // verus!
