//! The library's entry point: one call that assembles and renders a whole
//! listing from a directory snapshot and the configured flags. Reading the
//! command line, the directory and the terminal belongs to the caller.

use vstd::prelude::*;

use crate::list_item::ListItem;
use crate::listing::{items_view, spec_assemble, spec_render, Listing};
use crate::style::{segs_view, Segment};

verus! {

/// Lists a directory snapshot: filters `entries` by the flags, sorts them
/// by name, and renders them to styled output segments. A target that is
/// not a directory yields no output at all.
pub fn run(
    dir_name: String,
    is_dir: bool,
    entries: Vec<ListItem>,
    icons: bool,
    all: bool,
    long: bool,
    single: bool,
    dirs_only: bool,
    files_only: bool,
) -> (out: Vec<Segment>)
    ensures
        is_dir ==> segs_view(out@) == spec_render(
            spec_assemble(items_view(entries@), dirs_only, files_only, all),
            icons,
            long,
            single,
        ),
        !is_dir ==> out@.len() == 0,
{
    let mut listing = Listing::new(dir_name, icons, all, long, single, dirs_only, files_only);
    let out = listing.print_listing(is_dir, entries);
    proof {
        if is_dir {
            assert(items_view(listing.sorted_entries@) =~= spec_assemble(
                items_view(entries@),
                dirs_only,
                files_only,
                all,
            ));
        }
    }
    out
}

} // verus!
