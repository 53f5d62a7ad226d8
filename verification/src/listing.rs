//! The listing assembler: filters one directory's entries by the
//! configured flags, sorts them by name, and renders each survivor as
//! styled output segments.

use vstd::prelude::*;
use vstd::seq_lib::*;
use vstd::string::*;

use crate::list_item::{
    spec_details, spec_filename, spec_icon, ListItem, ListItemView,
};
use crate::style::{segs_view, SegView, Segment, Style};
use crate::text::lex_le;

verus! {

/// The images of a whole list of entries.
pub open spec fn items_view(s: Seq<ListItem>) -> Seq<ListItemView> {
    s.map_values(|it: ListItem| it@)
}

/// Whether an entry survives the dirs-only / files-only filter. Dirs-only
/// wins when both flags are set.
pub open spec fn spec_keep_kind(v: ListItemView, dirs_only: bool, files_only: bool) -> bool {
    if dirs_only {
        v.is_dir
    } else if files_only {
        !v.is_dir
    } else {
        true
    }
}

/// Whether an entry is hidden: its name begins with a dot.
pub open spec fn spec_hidden(v: ListItemView) -> bool {
    v.file_name.len() > 0 && v.file_name[0] == '.'
}

/// Whether an entry survives the show-all filter: everything when `all`
/// is set, otherwise exactly the entries that are not hidden.
pub open spec fn spec_shown(v: ListItemView, all: bool) -> bool {
    all || !spec_hidden(v)
}

/// Inserts `x` into the name-sorted sequence `s`, in front of the first
/// element whose name is not smaller (so an equal name keeps the earlier
/// element first).
pub open spec fn spec_insert_sorted(x: ListItemView, s: Seq<ListItemView>) -> Seq<ListItemView>
    decreases s.len(),
{
    if s.len() == 0 {
        seq![x]
    } else if lex_le(x.file_name, s[0].file_name) {
        seq![x] + s
    } else {
        seq![s[0]] + spec_insert_sorted(x, s.skip(1))
    }
}

/// Stable insertion sort by name in the ordinal lexicographic order.
pub open spec fn spec_sort(s: Seq<ListItemView>) -> Seq<ListItemView>
    decreases s.len(),
{
    if s.len() == 0 {
        s
    } else {
        spec_insert_sorted(s[0], spec_sort(s.skip(1)))
    }
}

/// The whole assembly of a directory's entries, in the order the listing
/// applies it: the kind filter, then the sort, then the show-all filter.
pub open spec fn spec_assemble(
    s: Seq<ListItemView>,
    dirs_only: bool,
    files_only: bool,
    all: bool,
) -> Seq<ListItemView> {
    spec_sort(s.filter(|v: ListItemView| spec_keep_kind(v, dirs_only, files_only))).filter(
        |v: ListItemView| spec_shown(v, all),
    )
}

/// Whether `s` is sorted by name.
pub open spec fn sorted_by_name(s: Seq<ListItemView>) -> bool {
    forall|i: int, j: int|
        0 <= i < j < s.len() ==> lex_le(#[trigger] s[i].file_name, #[trigger] s[j].file_name)
}

/// Keeps the entries that survive the dirs-only / files-only filter.
fn filter_kind(entries: &Vec<ListItem>, dirs_only: bool, files_only: bool) -> (r: Vec<ListItem>)
    ensures
        items_view(r@) == items_view(entries@).filter(
            |v: ListItemView| spec_keep_kind(v, dirs_only, files_only),
        ),
{
    let ghost pred = |v: ListItemView| spec_keep_kind(v, dirs_only, files_only);
    let mut out: Vec<ListItem> = Vec::new();
    let mut i: usize = 0;
    proof {
        reveal(Seq::filter);
        assert(items_view(out@) =~= items_view(entries@.take(0)).filter(pred));
    }
    while i < entries.len()
        invariant
            i <= entries@.len(),
            pred == (|v: ListItemView| spec_keep_kind(v, dirs_only, files_only)),
            items_view(out@) == items_view(entries@.take(i as int)).filter(pred),
        decreases entries@.len() - i,
    {
        let it = &entries[i];
        let keep = if dirs_only {
            it.is_dir
        } else if files_only {
            !it.is_dir
        } else {
            true
        };
        proof {
            assert(keep == pred(entries@[i as int]@));
            items_view(entries@.take(i as int)).lemma_filter_push(entries@[i as int]@, pred);
            assert(items_view(entries@.take(i + 1)) =~= items_view(entries@.take(i as int)).push(
                entries@[i as int]@,
            ));
        }
        if keep {
            out.push(it.duplicate());
        }
        i = i + 1;
    }
    proof {
        assert(entries@.take(entries@.len() as int) =~= entries@);
    }
    out
}

/// Whether this entry's name begins with a dot.
fn is_hidden(it: &ListItem) -> (r: bool)
    ensures
        r == spec_hidden(it@),
{
    let s = it.file_name.as_str();
    if s.unicode_len() == 0 {
        false
    } else {
        s.get_char(0) == '.'
    }
}

/// Inserts `x` into the name-sorted vector `sorted`.
fn insert_item(x: ListItem, sorted: Vec<ListItem>) -> (r: Vec<ListItem>)
    ensures
        items_view(r@) == spec_insert_sorted(x@, items_view(sorted@)),
    decreases sorted.len(),
{
    let ghost orig = items_view(sorted@);
    if sorted.len() == 0 {
        let mut r = sorted;
        r.push(x);
        proof {
            assert(items_view(r@) =~= seq![x@]);
        }
        r
    } else if crate::text::str_le(x.file_name.as_str(), sorted[0].file_name.as_str()) {
        let mut r = sorted;
        r.insert(0, x);
        proof {
            assert(items_view(r@) =~= seq![x@] + orig);
        }
        r
    } else {
        let mut rest = sorted;
        let h = rest.remove(0);
        proof {
            assert(items_view(rest@) =~= orig.skip(1));
        }
        let tail = insert_item(x, rest);
        let mut r = tail;
        r.insert(0, h);
        proof {
            assert(items_view(r@) =~= seq![orig[0]] + spec_insert_sorted(x@, orig.skip(1)));
        }
        r
    }
}

/// Sorts the entries by name, stably, in the ordinal lexicographic order.
fn sort_items(v: Vec<ListItem>) -> (r: Vec<ListItem>)
    ensures
        items_view(r@) == spec_sort(items_view(v@)),
    decreases v.len(),
{
    let ghost orig = items_view(v@);
    if v.len() == 0 {
        v
    } else {
        let mut rest = v;
        let h = rest.remove(0);
        proof {
            assert(items_view(rest@) =~= orig.skip(1));
        }
        let sorted_rest = sort_items(rest);
        insert_item(h, sorted_rest)
    }
}

/// The segments printed for one entry: details when long format is on,
/// then the icon when icons are on, then the filename, then a newline
/// when long format or single-column is on.
pub open spec fn spec_render_item(v: ListItemView, icons: bool, long: bool, single: bool) -> Seq<
    SegView,
> {
    (if long {
        seq![SegView { style: Style::Plain, text: spec_details(v) }]
    } else {
        Seq::<SegView>::empty()
    }) + (if icons {
        seq![spec_icon(v)]
    } else {
        Seq::<SegView>::empty()
    }) + spec_filename(v) + (if long || single {
        seq![SegView { style: Style::Plain, text: seq!['\n'] }]
    } else {
        Seq::<SegView>::empty()
    })
}

/// The segments printed for a whole sequence of entries, in order.
pub open spec fn spec_render_items(
    s: Seq<ListItemView>,
    icons: bool,
    long: bool,
    single: bool,
) -> Seq<SegView>
    decreases s.len(),
{
    if s.len() == 0 {
        Seq::empty()
    } else {
        spec_render_items(s.drop_last(), icons, long, single) + spec_render_item(
            s.last(),
            icons,
            long,
            single,
        )
    }
}

/// The whole rendered listing. When neither long format nor single-column
/// is set, entries run together on one line and a single newline closes
/// the listing; otherwise each entry already ended its own line.
pub open spec fn spec_render(s: Seq<ListItemView>, icons: bool, long: bool, single: bool) -> Seq<
    SegView,
> {
    spec_render_items(s, icons, long, single) + (if !long && !single {
        seq![SegView { style: Style::Plain, text: seq!['\n'] }]
    } else {
        Seq::<SegView>::empty()
    })
}

/// The listing assembler: the target path, the configured flags, and the
/// entries gathered so far, filtered and sorted.
pub struct Listing {
    pub dir_name: String,
    pub icons: bool,
    pub all: bool,
    pub long: bool,
    pub single: bool,
    pub dirs_only: bool,
    pub files_only: bool,
    pub sorted_entries: Vec<ListItem>,
}

impl Listing {
    /// A listing of the directory at `dir_name` under the given flags,
    /// with no entries gathered yet.
    pub fn new(
        dir_name: String,
        icons: bool,
        all: bool,
        long: bool,
        single: bool,
        dirs_only: bool,
        files_only: bool,
    ) -> (r: Listing)
        ensures
            r.dir_name@ == dir_name@,
            r.icons == icons,
            r.all == all,
            r.long == long,
            r.single == single,
            r.dirs_only == dirs_only,
            r.files_only == files_only,
            r.sorted_entries@.len() == 0,
    {
        Listing {
            dir_name,
            icons,
            all,
            long,
            single,
            dirs_only,
            files_only,
            sorted_entries: Vec::new(),
        }
    }

    /// Filters the given raw entries by the kind flags, sorts them by
    /// name, drops hidden ones unless show-all is set, and appends the
    /// result to the gathered entries. The flags and the target path are
    /// untouched.
    pub fn get_entries(&mut self, entries: Vec<ListItem>)
        ensures
            items_view(final(self).sorted_entries@) == items_view(old(self).sorted_entries@)
                + spec_assemble(
                items_view(entries@),
                old(self).dirs_only,
                old(self).files_only,
                old(self).all,
            ),
            final(self).dir_name == old(self).dir_name,
            final(self).icons == old(self).icons,
            final(self).all == old(self).all,
            final(self).long == old(self).long,
            final(self).single == old(self).single,
            final(self).dirs_only == old(self).dirs_only,
            final(self).files_only == old(self).files_only,
    {
        let ghost shown = |v: ListItemView| spec_shown(v, old(self).all);
        let kept = filter_kind(&entries, self.dirs_only, self.files_only);
        let sorted = sort_items(kept);
        let ghost sorted_view = items_view(sorted@);
        let mut i: usize = 0;
        proof {
            reveal(Seq::filter);
            assert(items_view(self.sorted_entries@) =~= items_view(old(self).sorted_entries@)
                + sorted_view.take(0).filter(shown));
        }
        while i < sorted.len()
            invariant
                i <= sorted@.len(),
                sorted_view == items_view(sorted@),
                shown == (|v: ListItemView| spec_shown(v, old(self).all)),
                self.all == old(self).all,
                self.long == old(self).long,
                self.single == old(self).single,
                self.icons == old(self).icons,
                self.dirs_only == old(self).dirs_only,
                self.files_only == old(self).files_only,
                self.dir_name == old(self).dir_name,
                items_view(self.sorted_entries@) == items_view(old(self).sorted_entries@)
                    + sorted_view.take(i as int).filter(shown),
            decreases sorted@.len() - i,
        {
            let it = &sorted[i];
            let hidden = is_hidden(it);
            proof {
                assert(it@ == sorted_view[i as int]);
                sorted_view.take(i as int).lemma_filter_push(sorted_view[i as int], shown);
                assert(sorted_view.take(i + 1) =~= sorted_view.take(i as int).push(
                    sorted_view[i as int],
                ));
            }
            if self.all || !hidden {
                let ghost before = items_view(self.sorted_entries@);
                self.sorted_entries.push(it.duplicate());
                proof {
                    assert(items_view(self.sorted_entries@) =~= before.push(
                        sorted_view[i as int],
                    ));
                    assert(items_view(old(self).sorted_entries@) + sorted_view.take(i as int).filter(
                        shown,
                    ).push(sorted_view[i as int]) =~= items_view(old(self).sorted_entries@)
                        + sorted_view.take(i + 1).filter(shown));
                }
            }
            i = i + 1;
        }
        proof {
            assert(sorted_view.take(sorted_view.len() as int) =~= sorted_view);
        }
    }

    /// Renders the gathered entries, in order, to output segments.
    fn render(&self) -> (out: Vec<Segment>)
        ensures
            segs_view(out@) == spec_render(
                items_view(self.sorted_entries@),
                self.icons,
                self.long,
                self.single,
            ),
    {
        let ghost all_items = items_view(self.sorted_entries@);
        let mut out: Vec<Segment> = Vec::new();
        let mut i: usize = 0;
        proof {
            assert(segs_view(out@) =~= spec_render_items(
                all_items.take(0),
                self.icons,
                self.long,
                self.single,
            ));
        }
        while i < self.sorted_entries.len()
            invariant
                i <= self.sorted_entries@.len(),
                all_items == items_view(self.sorted_entries@),
                segs_view(out@) == spec_render_items(
                    all_items.take(i as int),
                    self.icons,
                    self.long,
                    self.single,
                ),
            decreases self.sorted_entries@.len() - i,
        {
            let ghost out_before = segs_view(out@);
            let it = &self.sorted_entries[i];
            if self.long {
                out.push(Segment { style: Style::Plain, text: it.display_details() });
            }
            if self.icons {
                out.push(it.display_icon());
            }
            let mut name_segs = it.display_filename();
            out.append(&mut name_segs);
            if self.long || self.single {
                proof {
                    reveal_strlit("\n");
                }
                out.push(Segment { style: Style::Plain, text: String::from_str("\n") });
            }
            proof {
                assert(segs_view(out@) =~~= out_before + spec_render_item(
                    all_items[i as int],
                    self.icons,
                    self.long,
                    self.single,
                ));
                assert(all_items.take(i + 1).drop_last() =~= all_items.take(i as int));
                assert(segs_view(out@) =~~= spec_render_items(
                    all_items.take(i + 1),
                    self.icons,
                    self.long,
                    self.single,
                ));
            }
            i = i + 1;
        }
        proof {
            assert(all_items.take(all_items.len() as int) =~= all_items);
        }
        if !self.long && !self.single {
            proof {
                reveal_strlit("\n");
            }
            out.push(Segment { style: Style::Plain, text: String::from_str("\n") });
        }
        proof {
            assert(segs_view(out@) =~~= spec_render(
                all_items,
                self.icons,
                self.long,
                self.single,
            ));
        }
        out
    }

    /// Lists the target: a path that is not a directory yields no output
    /// at all (and is no error); for a directory, the raw entries are
    /// assembled as `get_entries` says and rendered in that order.
    pub fn print_listing(&mut self, is_dir: bool, entries: Vec<ListItem>) -> (out: Vec<Segment>)
        ensures
            !is_dir ==> *final(self) == *old(self) && out@.len() == 0,
            is_dir ==> items_view(final(self).sorted_entries@) == items_view(
                old(self).sorted_entries@,
            ) + spec_assemble(
                items_view(entries@),
                old(self).dirs_only,
                old(self).files_only,
                old(self).all,
            ),
            is_dir ==> segs_view(out@) == spec_render(
                items_view(final(self).sorted_entries@),
                old(self).icons,
                old(self).long,
                old(self).single,
            ),
            final(self).dir_name == old(self).dir_name,
            final(self).icons == old(self).icons,
            final(self).all == old(self).all,
            final(self).long == old(self).long,
            final(self).single == old(self).single,
            final(self).dirs_only == old(self).dirs_only,
            final(self).files_only == old(self).files_only,
    {
        if !is_dir {
            return Vec::new();
        }
        self.get_entries(entries);
        self.render()
    }
}

/// Whether no two entries share a name (always true of the entries of one
/// directory).
pub open spec fn distinct_names(s: Seq<ListItemView>) -> bool {
    forall|i: int, j: int|
        0 <= i < j < s.len() ==> (#[trigger] s[i]).file_name != (#[trigger] s[j]).file_name
}

/// Filtering by an everywhere-true predicate keeps everything.
proof fn lemma_filter_all_true(s: Seq<ListItemView>, p: spec_fn(ListItemView) -> bool)
    requires
        forall|i: int| 0 <= i < s.len() ==> p(#[trigger] s[i]),
    ensures
        s.filter(p) == s,
    decreases s.len(),
{
    reveal(Seq::filter);
    if s.len() == 0 {
        assert(s.filter(p) =~= s);
    } else {
        lemma_filter_all_true(s.drop_last(), p);
        assert(s.filter(p) =~= s);
    }
}

/// Pointwise equal predicates filter identically.
proof fn lemma_filter_congruent(
    s: Seq<ListItemView>,
    p: spec_fn(ListItemView) -> bool,
    q: spec_fn(ListItemView) -> bool,
)
    requires
        forall|v: ListItemView| #[trigger] p(v) == q(v),
    ensures
        s.filter(p) == s.filter(q),
    decreases s.len(),
{
    reveal(Seq::filter);
    if s.len() == 0 {
        assert(s.filter(p) =~= s.filter(q));
    } else {
        lemma_filter_congruent(s.drop_last(), p, q);
        assert(s.filter(p) =~= s.filter(q));
    }
}

/// A predicate and its negation split a sequence into two parts that
/// together hold exactly the original elements.
proof fn lemma_filter_partition(
    s: Seq<ListItemView>,
    p: spec_fn(ListItemView) -> bool,
    q: spec_fn(ListItemView) -> bool,
)
    requires
        forall|v: ListItemView| #[trigger] q(v) == !p(v),
    ensures
        s.filter(p).to_multiset().add(s.filter(q).to_multiset()) == s.to_multiset(),
    decreases s.len(),
{
    broadcast use vstd::seq_lib::group_to_multiset_ensures;
    broadcast use vstd::multiset::group_multiset_axioms;

    reveal(Seq::filter);
    if s.len() == 0 {
        assert(s.filter(p).to_multiset().add(s.filter(q).to_multiset()) =~= s.to_multiset());
    } else {
        let dl = s.drop_last();
        let last = s.last();
        lemma_filter_partition(dl, p, q);
        assert(dl.push(last) =~= s);
        assert(s.to_multiset() =~= dl.to_multiset().insert(last));
        if p(last) {
            assert(s.filter(p) == dl.filter(p).push(last));
            assert(s.filter(p).to_multiset() =~= dl.filter(p).to_multiset().insert(last));
            assert(s.filter(q) == dl.filter(q));
        } else {
            assert(s.filter(q) == dl.filter(q).push(last));
            assert(s.filter(q).to_multiset() =~= dl.filter(q).to_multiset().insert(last));
            assert(s.filter(p) == dl.filter(p));
        }
        assert(s.filter(p).to_multiset().add(s.filter(q).to_multiset()) =~= s.to_multiset());
    }
}

/// Filtering keeps a name-sorted sequence sorted.
proof fn lemma_filter_preserves_sorted(s: Seq<ListItemView>, p: spec_fn(ListItemView) -> bool)
    requires
        sorted_by_name(s),
    ensures
        sorted_by_name(s.filter(p)),
    decreases s.len(),
{
    reveal(Seq::filter);
    if s.len() == 0 {
    } else {
        let dl = s.drop_last();
        let last = s.last();
        assert(sorted_by_name(dl));
        lemma_filter_preserves_sorted(dl, p);
        if p(last) {
            let f = s.filter(p);
            assert(f == dl.filter(p).push(last));
            assert forall|i: int, j: int| 0 <= i < j < f.len() implies lex_le(
                (#[trigger] f[i]).file_name,
                (#[trigger] f[j]).file_name,
            ) by {
                if j == f.len() - 1 {
                    assert(dl.filter(p).contains(f[i]));
                    dl.lemma_filter_contains_rev(p, f[i]);
                    let k = choose|k: int| 0 <= k < dl.len() && dl[k] == f[i];
                    assert(lex_le(s[k].file_name, s[s.len() - 1].file_name));
                } else {
                    assert(f[i] == dl.filter(p)[i] && f[j] == dl.filter(p)[j]);
                }
            }
        }
    }
}

/// Filtering keeps names distinct.
proof fn lemma_filter_preserves_distinct(s: Seq<ListItemView>, p: spec_fn(ListItemView) -> bool)
    requires
        distinct_names(s),
    ensures
        distinct_names(s.filter(p)),
    decreases s.len(),
{
    reveal(Seq::filter);
    if s.len() == 0 {
    } else {
        let dl = s.drop_last();
        let last = s.last();
        assert(distinct_names(dl));
        lemma_filter_preserves_distinct(dl, p);
        if p(last) {
            let f = s.filter(p);
            assert(f == dl.filter(p).push(last));
            assert forall|i: int, j: int| 0 <= i < j < f.len() implies (
            #[trigger] f[i]).file_name != (#[trigger] f[j]).file_name by {
                if j == f.len() - 1 {
                    assert(dl.filter(p).contains(f[i]));
                    dl.lemma_filter_contains_rev(p, f[i]);
                    let k = choose|k: int| 0 <= k < dl.len() && dl[k] == f[i];
                    assert(s[k].file_name != s[s.len() - 1].file_name);
                } else {
                    assert(f[i] == dl.filter(p)[i] && f[j] == dl.filter(p)[j]);
                }
            }
        }
    }
}

/// Inserting into a name-sorted sequence keeps it sorted and adds exactly
/// the new element.
proof fn lemma_insert_sorted_props(x: ListItemView, s: Seq<ListItemView>)
    requires
        sorted_by_name(s),
    ensures
        sorted_by_name(spec_insert_sorted(x, s)),
        spec_insert_sorted(x, s).to_multiset() == s.to_multiset().insert(x),
        spec_insert_sorted(x, s).len() == s.len() + 1,
    decreases s.len(),
{
    broadcast use vstd::seq_lib::group_to_multiset_ensures;
    broadcast use vstd::multiset::group_multiset_axioms;

    let r = spec_insert_sorted(x, s);
    if s.len() == 0 {
        assert(r =~= Seq::<ListItemView>::empty().push(x));
        assert(r.to_multiset() =~= s.to_multiset().insert(x));
    } else if lex_le(x.file_name, s[0].file_name) {
        assert(r == seq![x] + s);
        assert forall|j: int| 0 <= j < s.len() implies lex_le(
            x.file_name,
            (#[trigger] s[j]).file_name,
        ) by {
            if j > 0 {
                crate::text::lemma_lex_le_transitive(x.file_name, s[0].file_name, s[j].file_name);
            }
        }
        assert forall|i: int, j: int| 0 <= i < j < r.len() implies lex_le(
            (#[trigger] r[i]).file_name,
            (#[trigger] r[j]).file_name,
        ) by {
            if i == 0 {
                assert(r[j] == s[j - 1]);
            } else {
                assert(r[i] == s[i - 1] && r[j] == s[j - 1]);
            }
        }
        vstd::seq_lib::lemma_multiset_commutative(seq![x], s);
        assert(seq![x].to_multiset() =~= Seq::<ListItemView>::empty().to_multiset().insert(x));
        assert(r.to_multiset() =~= s.to_multiset().insert(x));
    } else {
        let tail = spec_insert_sorted(x, s.skip(1));
        assert(sorted_by_name(s.skip(1)));
        lemma_insert_sorted_props(x, s.skip(1));
        assert(r == seq![s[0]] + tail);
        crate::text::lemma_lex_le_total(x.file_name, s[0].file_name);
        assert forall|j: int| 0 <= j < tail.len() implies lex_le(
            s[0].file_name,
            (#[trigger] tail[j]).file_name,
        ) by {
            let e = tail[j];
            assert(tail.contains(e));
            assert(tail.to_multiset().count(e) > 0);
            if e == x {
            } else {
                assert(s.skip(1).to_multiset().count(e) > 0);
                assert(s.skip(1).contains(e));
                let k = choose|k: int| 0 <= k < s.skip(1).len() && s.skip(1)[k] == e;
                assert(s.skip(1)[k] == s[k + 1]);
                assert(lex_le(s[0].file_name, s[k + 1].file_name));
            }
        }
        assert forall|i: int, j: int| 0 <= i < j < r.len() implies lex_le(
            (#[trigger] r[i]).file_name,
            (#[trigger] r[j]).file_name,
        ) by {
            if i == 0 {
                assert(r[j] == tail[j - 1]);
            } else {
                assert(r[i] == tail[i - 1] && r[j] == tail[j - 1]);
            }
        }
        vstd::seq_lib::lemma_multiset_commutative(seq![s[0]], tail);
        assert(s =~= seq![s[0]] + s.skip(1));
        vstd::seq_lib::lemma_multiset_commutative(seq![s[0]], s.skip(1));
        assert(seq![s[0]].to_multiset() =~= Seq::<ListItemView>::empty().to_multiset().insert(
            s[0],
        ));
        assert(r.to_multiset() =~= s.to_multiset().insert(x));
    }
}

/// The sort yields a name-sorted permutation of its input.
pub proof fn lemma_sort_props(s: Seq<ListItemView>)
    ensures
        sorted_by_name(spec_sort(s)),
        spec_sort(s).to_multiset() == s.to_multiset(),
        spec_sort(s).len() == s.len(),
    decreases s.len(),
{
    broadcast use vstd::seq_lib::group_to_multiset_ensures;
    broadcast use vstd::multiset::group_multiset_axioms;

    if s.len() == 0 {
    } else {
        lemma_sort_props(s.skip(1));
        lemma_insert_sorted_props(s[0], spec_sort(s.skip(1)));
        assert(s =~= seq![s[0]] + s.skip(1));
        vstd::seq_lib::lemma_multiset_commutative(seq![s[0]], s.skip(1));
        assert(seq![s[0]].to_multiset() =~= Seq::<ListItemView>::empty().to_multiset().insert(
            s[0],
        ));
        assert(spec_sort(s).to_multiset() =~= s.to_multiset());
    }
}

/// The sort keeps names distinct.
proof fn lemma_sort_preserves_distinct(s: Seq<ListItemView>)
    requires
        distinct_names(s),
    ensures
        distinct_names(spec_sort(s)),
{
    broadcast use vstd::seq_lib::group_to_multiset_ensures;
    broadcast use vstd::multiset::group_multiset_axioms;

    lemma_sort_props(s);
    let r = spec_sort(s);
    assert(s.no_duplicates()) by {
        assert forall|i: int, j: int|
            0 <= i < s.len() && 0 <= j < s.len() && i != j implies s[i] != s[j] by {
            if i < j {
                assert(s[i].file_name != s[j].file_name);
            } else {
                assert(s[j].file_name != s[i].file_name);
            }
        }
    }
    s.lemma_multiset_has_no_duplicates();
    r.lemma_multiset_has_no_duplicates_conv();
    assert forall|i: int, j: int| 0 <= i < j < r.len() implies (#[trigger] r[i]).file_name != (
    #[trigger] r[j]).file_name by {
        assert(r[i] != r[j]);
        assert(r.contains(r[i]) && r.contains(r[j]));
        assert(r.to_multiset().count(r[i]) > 0 && r.to_multiset().count(r[j]) > 0);
        assert(s.to_multiset().count(r[i]) > 0 && s.to_multiset().count(r[j]) > 0);
        assert(s.contains(r[i]) && s.contains(r[j]));
        let k = choose|k: int| 0 <= k < s.len() && s[k] == r[i];
        let l = choose|l: int| 0 <= l < s.len() && s[l] == r[j];
        assert(k != l);
        if k < l {
            assert(s[k].file_name != s[l].file_name);
        } else {
            assert(s[l].file_name != s[k].file_name);
        }
    }
}

/// The listing's output order is sorted by name, whatever the flags say.
/// Together with the exact contracts this also makes a listing
/// deterministic: the same snapshot under the same flags assembles and
/// renders to the same output.
pub proof fn lemma_listing_sorted(
    s: Seq<ListItemView>,
    dirs_only: bool,
    files_only: bool,
    all: bool,
)
    ensures
        sorted_by_name(spec_assemble(s, dirs_only, files_only, all)),
{
    let kind = |v: ListItemView| spec_keep_kind(v, dirs_only, files_only);
    lemma_sort_props(s.filter(kind));
    lemma_filter_preserves_sorted(spec_sort(s.filter(kind)), |v: ListItemView| spec_shown(v, all));
}

/// With distinct names — as the entries of one directory always have —
/// the output order is strictly increasing: sorted, and no name twice.
pub proof fn lemma_listing_strictly_sorted(
    s: Seq<ListItemView>,
    dirs_only: bool,
    files_only: bool,
    all: bool,
)
    requires
        distinct_names(s),
    ensures
        sorted_by_name(spec_assemble(s, dirs_only, files_only, all)),
        distinct_names(spec_assemble(s, dirs_only, files_only, all)),
        forall|i: int, j: int|
            0 <= i < j < spec_assemble(s, dirs_only, files_only, all).len() ==> !lex_le(
                (#[trigger] spec_assemble(s, dirs_only, files_only, all)[j]).file_name,
                (#[trigger] spec_assemble(s, dirs_only, files_only, all)[i]).file_name,
            ),
{
    let kind = |v: ListItemView| spec_keep_kind(v, dirs_only, files_only);
    let shown = |v: ListItemView| spec_shown(v, all);
    lemma_listing_sorted(s, dirs_only, files_only, all);
    lemma_filter_preserves_distinct(s, kind);
    lemma_sort_preserves_distinct(s.filter(kind));
    lemma_filter_preserves_distinct(spec_sort(s.filter(kind)), shown);
    let r = spec_assemble(s, dirs_only, files_only, all);
    assert forall|i: int, j: int| 0 <= i < j < r.len() implies !lex_le(
        (#[trigger] r[j]).file_name,
        (#[trigger] r[i]).file_name,
    ) by {
        if lex_le(r[j].file_name, r[i].file_name) {
            crate::text::lemma_lex_le_antisymmetric(r[i].file_name, r[j].file_name);
        }
    }
}

/// The show-all flag alone decides whether hidden entries appear: with it
/// set nothing is dropped after the sort; without it exactly the entries
/// whose name begins with a dot are dropped, and the dropped part
/// together with the kept part is the whole sorted listing.
pub proof fn lemma_show_all(s: Seq<ListItemView>, dirs_only: bool, files_only: bool)
    ensures
        spec_assemble(s, dirs_only, files_only, true) == spec_sort(
            s.filter(|v: ListItemView| spec_keep_kind(v, dirs_only, files_only)),
        ),
        spec_assemble(s, dirs_only, files_only, false) == spec_assemble(
            s,
            dirs_only,
            files_only,
            true,
        ).filter(|v: ListItemView| !spec_hidden(v)),
        forall|i: int|
            0 <= i < spec_assemble(s, dirs_only, files_only, false).len() ==> !spec_hidden(
                #[trigger] spec_assemble(s, dirs_only, files_only, false)[i],
            ),
        spec_assemble(s, dirs_only, files_only, false).to_multiset().add(
            spec_assemble(s, dirs_only, files_only, true).filter(
                |v: ListItemView| spec_hidden(v),
            ).to_multiset(),
        ) == spec_assemble(s, dirs_only, files_only, true).to_multiset(),
{
    let kind = |v: ListItemView| spec_keep_kind(v, dirs_only, files_only);
    let sorted = spec_sort(s.filter(kind));
    lemma_filter_all_true(sorted, |v: ListItemView| spec_shown(v, true));
    lemma_filter_congruent(
        sorted,
        |v: ListItemView| spec_shown(v, false),
        |v: ListItemView| !spec_hidden(v),
    );
    assert forall|i: int|
        0 <= i < spec_assemble(s, dirs_only, files_only, false).len() implies !spec_hidden(
        #[trigger] spec_assemble(s, dirs_only, files_only, false)[i],
    ) by {
        sorted.lemma_filter_pred(|v: ListItemView| spec_shown(v, false), i);
    }
    lemma_filter_partition(
        sorted,
        |v: ListItemView| spec_shown(v, false),
        |v: ListItemView| spec_hidden(v),
    );
    lemma_filter_congruent(
        sorted,
        |v: ListItemView| !spec_hidden(v),
        |v: ListItemView| spec_shown(v, false),
    );
}

/// Dirs-only and files-only are a pure partition: dirs-only keeps exactly
/// the directories, files-only exactly the rest, together they cover
/// every entry once, and with neither flag set nothing is dropped.
pub proof fn lemma_kind_partition(s: Seq<ListItemView>)
    ensures
        forall|v: ListItemView| #[trigger] spec_keep_kind(v, true, false) == v.is_dir,
        forall|v: ListItemView| #[trigger] spec_keep_kind(v, false, true) == !v.is_dir,
        forall|v: ListItemView| #[trigger] spec_keep_kind(v, false, false),
        s.filter(|v: ListItemView| spec_keep_kind(v, true, false)).to_multiset().add(
            s.filter(|v: ListItemView| spec_keep_kind(v, false, true)).to_multiset(),
        ) == s.to_multiset(),
{
    lemma_filter_partition(
        s,
        |v: ListItemView| spec_keep_kind(v, true, false),
        |v: ListItemView| spec_keep_kind(v, false, true),
    );
}

} // verus!
