use vstd::prelude::*;
use crate::order::{lex_compare, lex_lt, lemma_lex_first_difference, lemma_lex_irreflexive, lemma_lex_total, lemma_lex_transitive};
use crate::text::chars_of;
use crate::paths::{
    extension, file_name, join, parent, path_eq, path_extension, path_file_name, path_join,
    path_parent, path_with_file_name, same_path, with_file_name,
};
use crate::text::{str_equal, trim_space, trim_string};

verus! {

/// What `str::to_lowercase` gives for `s` (Unicode lower-case mapping).
pub uninterp spec fn lowercase(s: Seq<char>) -> Seq<char>;

/// Calls `str::to_lowercase`. The contract names the answer; the Unicode
/// case tables are left to the standard library.
#[verifier::external_body]
fn to_lowercase(s: &str) -> (r: String)
    ensures
        r@ == lowercase(s@),
{
    s.to_lowercase()
}

/// The name shown for a path: its file name, or nothing.
pub open spec fn entry_name(path: Seq<char>) -> Seq<char> {
    match path_file_name(path) {
        Some(n) => n,
        None => Seq::empty(),
    }
}

/// A file or directory of the workspace tree.
pub struct Entry {
    pub path: String,
    pub name: String,
    pub is_dir: bool,
    pub expanded: bool,
    pub children: Vec<Entry>,
}

/// A row being edited in place.
pub enum InlineEdit {
    Inactive,
    Renaming { path: String, buffer: String, focus_requested: bool },
    Creating { parent: String, is_dir: bool, buffer: String, focus_requested: bool },
}

/// The workspace tree with its row being edited and the path waiting to be deleted.
pub struct FileExplorer {
    pub root: Entry,
    pub inline_edit: InlineEdit,
    pub pending_delete: Option<String>,
}

/// `e` is a collapsed entry with no children loaded for `path`.
pub open spec fn is_fresh_entry(e: Entry, path: Seq<char>, is_dir: bool) -> bool {
    &&& e.path@ == path
    &&& e.name@ == entry_name(path)
    &&& e.is_dir == is_dir
    &&& !e.expanded
    &&& e.children@.len() == 0
}

/// The sort key of a directory listing item: directories first, then by
/// lower-cased name.
pub open spec fn listing_key(item: (String, bool)) -> (bool, Seq<char>) {
    (item.1, lowercase(entry_name(item.0@)))
}

/// The sort keys of a listing.
pub open spec fn listing_keys(listing: Seq<(String, bool)>) -> Seq<(bool, Seq<char>)> {
    listing.map_values(|it: (String, bool)| listing_key(it))
}

/// Key `a` sorts strictly before key `b`.
pub open spec fn key_before(a: (bool, Seq<char>), b: (bool, Seq<char>)) -> bool {
    (a.0 && !b.0) || (a.0 == b.0 && lex_lt(a.1, b.1))
}

/// Item `i` sorts before item `j` in a stable sort by key.
pub open spec fn item_before(keys: Seq<(bool, Seq<char>)>, i: int, j: int) -> bool {
    key_before(keys[i], keys[j]) || (keys[i] == keys[j] && i < j)
}

/// `order` lists every position of `keys` in stable sorted order.
pub open spec fn sorted_order(order: Seq<int>, keys: Seq<(bool, Seq<char>)>) -> bool {
    &&& order.len() == keys.len()
    &&& forall|p: int| 0 <= p < order.len() ==> 0 <= #[trigger] order[p] < keys.len()
    &&& forall|p: int, q: int|
        0 <= p < q < order.len() ==> item_before(keys, #[trigger] order[p], #[trigger] order[q])
}

/// Position of the first entry of `old`, at or after `from`, whose path equals `path`.
pub open spec fn first_with_path_from(old: Seq<Entry>, path: Seq<char>, from: int) -> Option<int>
    decreases old.len() - from,
{
    if from < 0 || from >= old.len() {
        None
    } else if path_eq(old[from].path@, path) {
        Some(from)
    } else {
        first_with_path_from(old, path, from + 1)
    }
}

/// Position of the first entry of `old` with path `path`.
pub open spec fn first_with_path(old: Seq<Entry>, path: Seq<char>) -> Option<int> {
    first_with_path_from(old, path, 0)
}

proof fn lemma_first_with_path_from(old: Seq<Entry>, path: Seq<char>, from: int)
    ensures
        first_with_path_from(old, path, from) matches Some(j) ==> 0 <= from <= j < old.len(),
    decreases old.len() - from,
{
    if !(from < 0 || from >= old.len()) && !path_eq(old[from].path@, path) {
        lemma_first_with_path_from(old, path, from + 1);
    }
}

fn find_path(old: &Vec<Entry>, path: &String) -> (r: Option<usize>)
    ensures
        r matches Some(j) ==> first_with_path(old@, path@) == Some(j as int),
        r is None ==> first_with_path(old@, path@) is None,
{
    let mut q: usize = 0;
    while q < old.len()
        invariant
            q <= old@.len(),
            first_with_path(old@, path@) == first_with_path_from(old@, path@, q as int),
        decreases old@.len() - q,
    {
        if same_path(old[q].path.as_str(), path.as_str()) {
            return Some(q);
        }
        q = q + 1;
    }
    None
}

/// `result` holds an entry for each of `fresh` (path, is-directory) in order;
/// an entry whose path was already listed in `old` keeps that entry's
/// expansion and children (each old entry used once), a new one starts collapsed.
pub open spec fn merged(result: Seq<Entry>, fresh: Seq<(Seq<char>, bool)>, old: Seq<Entry>) -> bool
    decreases fresh.len(),
{
    if fresh.len() == 0 {
        result.len() == 0
    } else {
        &&& result.len() > 0
        &&& result[0].path@ == fresh[0].0
        &&& result[0].name@ == entry_name(fresh[0].0)
        &&& result[0].is_dir == fresh[0].1
        &&& match first_with_path(old, fresh[0].0) {
            Some(j) => {
                &&& result[0].expanded == old[j].expanded
                &&& result[0].children == old[j].children
                &&& merged(result.drop_first(), fresh.drop_first(), old.remove(j))
            },
            None => {
                &&& !result[0].expanded
                &&& result[0].children@.len() == 0
                &&& merged(result.drop_first(), fresh.drop_first(), old)
            },
        }
    }
}

/// The listing items in the order `order`, as (path, is-directory).
pub open spec fn listed(listing: Seq<(String, bool)>, order: Seq<int>) -> Seq<(Seq<char>, bool)> {
    Seq::new(order.len(), |k: int| (listing[order[k]].0@, listing[order[k]].1))
}

/// The children of a directory after it is listed again: the items of
/// `listing`, directories first and then by lower-cased name (ties kept in
/// listing order), each keeping the expansion and children it had in `old`.
pub open spec fn resynced(children: Seq<Entry>, listing: Seq<(String, bool)>, old: Seq<Entry>) -> bool {
    exists|order: Seq<int>|
        #[trigger] sorted_order(order, listing_keys(listing))
            && merged(children, listed(listing, order), old)
}

proof fn lemma_key_total(a: (bool, Seq<char>), b: (bool, Seq<char>))
    ensures
        key_before(a, b) || key_before(b, a) || a == b,
{
    lemma_lex_total(a.1, b.1);
}

proof fn lemma_key_transitive(a: (bool, Seq<char>), b: (bool, Seq<char>), c: (bool, Seq<char>))
    requires
        key_before(a, b) || a == b,
        key_before(b, c) || b == c,
    ensures
        key_before(a, c) || a == c,
{
    if a.0 == b.0 && b.0 == c.0 && lex_lt(a.1, b.1) && lex_lt(b.1, c.1) {
        lemma_lex_transitive(a.1, b.1, c.1);
    }
}

proof fn lemma_key_asym(a: (bool, Seq<char>), b: (bool, Seq<char>))
    ensures
        !(key_before(a, b) && (key_before(b, a) || a == b)),
{
    if a.0 == b.0 && lex_lt(a.1, b.1) && lex_lt(b.1, a.1) {
        lemma_lex_transitive(a.1, b.1, a.1);
        lemma_lex_irreflexive(a.1);
    }
    if a == b {
        lemma_lex_irreflexive(a.1);
    }
}

proof fn lemma_item_transitive(keys: Seq<(bool, Seq<char>)>, i: int, j: int, k: int)
    requires
        item_before(keys, i, j),
        item_before(keys, j, k),
    ensures
        item_before(keys, i, k),
{
    lemma_key_transitive(keys[i], keys[j], keys[k]);
    if keys[i] == keys[k] {
        lemma_key_asym(keys[i], keys[j]);
        lemma_key_asym(keys[j], keys[k]);
    }
}

fn key_before_exec(a: &(bool, Vec<char>), b: &(bool, Vec<char>)) -> (r: bool)
    ensures
        r == key_before((a.0, a.1@), (b.0, b.1@)),
{
    if a.0 && !b.0 {
        true
    } else if a.0 == b.0 {
        lex_compare(&a.1, &b.1) < 0
    } else {
        false
    }
}

/// The positions of `keys` in stable sorted order (insertion sort).
fn sort_order(keys: &Vec<(bool, Vec<char>)>, Ghost(ks): Ghost<Seq<(bool, Seq<char>)>>) -> (order: Vec<usize>)
    requires
        ks.len() == keys@.len(),
        forall|i: int| 0 <= i < ks.len() ==> #[trigger] ks[i] == (keys@[i].0, keys@[i].1@),
    ensures
        sorted_order(order@.map_values(|x: usize| x as int), ks),
{
    let mut order: Vec<usize> = Vec::new();
    let mut i: usize = 0;
    while i < keys.len()
        invariant
            i <= keys@.len(),
            ks.len() == keys@.len(),
            forall|k: int| 0 <= k < ks.len() ==> #[trigger] ks[k] == (keys@[k].0, keys@[k].1@),
            order@.len() == i,
            forall|p: int| 0 <= p < order@.len() ==> (#[trigger] order@[p]) < i,
            forall|p: int, q: int|
                0 <= p < q < order@.len() ==> item_before(
                    ks,
                    #[trigger] order@[p] as int,
                    #[trigger] order@[q] as int,
                ),
        decreases keys@.len() - i,
    {
        let mut p = order.len();
        while p > 0 && key_before_exec(&keys[i], &keys[order[p - 1]])
            invariant
                p <= order@.len(),
                i < keys@.len(),
                ks.len() == keys@.len(),
                forall|k: int| 0 <= k < ks.len() ==> #[trigger] ks[k] == (keys@[k].0, keys@[k].1@),
                forall|r: int| 0 <= r < order@.len() ==> (#[trigger] order@[r]) < i,
                forall|r: int| p <= r < order@.len() ==> key_before(ks[i as int], ks[#[trigger] order@[r] as int]),
            decreases p,
        {
            p = p - 1;
        }
        proof {
            assert(ks[i as int] == (keys@[i as int].0, keys@[i as int].1@));
            if p > 0 {
                let j = order@[p - 1] as int;
                assert(ks[j] == (keys@[j].0, keys@[j].1@));
                lemma_key_total(ks[i as int], ks[j]);
                assert(item_before(ks, j, i as int));
            }
        }
        let ghost old_order = order@;
        order.insert(p, i);
        proof {
            assert forall|a: int, b: int| 0 <= a < b < order@.len() implies item_before(
                ks,
                #[trigger] order@[a] as int,
                #[trigger] order@[b] as int,
            ) by {
                if b < p {
                    assert(order@[a] == old_order[a] && order@[b] == old_order[b]);
                } else if b == p {
                    let j = old_order[p - 1] as int;
                    assert(item_before(ks, j, i as int));
                    if a < p - 1 {
                        assert(item_before(ks, old_order[a] as int, j));
                        lemma_item_transitive(ks, old_order[a] as int, j, i as int);
                    }
                } else if a == p {
                    assert(order@[b] == old_order[b - 1]);
                    assert(key_before(ks[i as int], ks[old_order[b - 1] as int]));
                } else if a < p {
                    assert(order@[b] == old_order[b - 1]);
                    assert(order@[a] == old_order[a]);
                } else {
                    assert(order@[b] == old_order[b - 1]);
                    assert(order@[a] == old_order[a - 1]);
                }
            }
            assert forall|r: int| 0 <= r < order@.len() implies (#[trigger] order@[r]) < i + 1 by {
                if r < p {
                    assert(order@[r] == old_order[r]);
                } else if r > p {
                    assert(order@[r] == old_order[r - 1]);
                }
            }
        }
        i = i + 1;
    }
    let ghost m = order@.map_values(|x: usize| x as int);
    assert forall|p: int, q: int| 0 <= p < q < m.len() implies item_before(
        ks,
        #[trigger] m[p],
        #[trigger] m[q],
    ) by {
        assert(item_before(ks, order@[p] as int, order@[q] as int));
    }
    order
}

impl Entry {
    /// A collapsed entry for `path`, named after its last component.
    pub fn new(path: String, is_dir: bool) -> (e: Self)
        ensures
            is_fresh_entry(e, path@, is_dir),
    {
        let name = match file_name(path.as_str()) {
            Some(n) => n,
            None => String::new(),
        };
        Entry { path, name, is_dir, expanded: false, children: Vec::new() }
    }
}


impl Entry {
    /// Lists the directory again from `listing` (the paths of its items and
    /// whether each is a directory): directories first, then by lower-cased
    /// name, ties in listing order; items already shown keep their expansion
    /// and children. A file is left as it is.
    pub fn sync_children(&mut self, listing: Vec<(String, bool)>)
        ensures
            !old(self).is_dir ==> *final(self) == *old(self),
            old(self).is_dir ==> {
                &&& resynced(final(self).children@, listing@, old(self).children@)
                &&& final(self).path == old(self).path
                &&& final(self).name == old(self).name
                &&& final(self).is_dir == old(self).is_dir
                &&& final(self).expanded == old(self).expanded
            },
    {
        if !self.is_dir {
            return;
        }
        let ghost ks = listing_keys(listing@);
        let mut keys: Vec<(bool, Vec<char>)> = Vec::new();
        let mut i: usize = 0;
        while i < listing.len()
            invariant
                i <= listing@.len(),
                ks == listing_keys(listing@),
                keys@.len() == i,
                forall|k: int| 0 <= k < i ==> #[trigger] ks[k] == (keys@[k].0, keys@[k].1@),
            decreases listing@.len() - i,
        {
            let name = match file_name(listing[i].0.as_str()) {
                Some(n) => n,
                None => String::new(),
            };
            let lower = to_lowercase(name.as_str());
            keys.push((listing[i].1, chars_of(lower.as_str())));
            i = i + 1;
        }
        let order = sort_order(&keys, Ghost(ks));
        let ghost ord = order@.map_values(|x: usize| x as int);
        let ghost fresh = listed(listing@, ord);
        let mut old: Vec<Entry> = Vec::new();
        core::mem::swap(&mut old, &mut self.children);
        let ghost old0 = old@;
        let mut result: Vec<Entry> = Vec::new();
        let mut k: usize = 0;
        assert(fresh.skip(0) =~= fresh);
        assert forall|r: Seq<Entry>| #[trigger] merged(r, fresh.skip(0), old@) implies merged(
            result@ + r,
            fresh,
            old0,
        ) by {
            assert(result@ + r =~= r);
        }
        while k < order.len()
            invariant
                k <= order@.len(),
                ord == order@.map_values(|x: usize| x as int),
                sorted_order(ord, ks),
                ks == listing_keys(listing@),
                fresh == listed(listing@, ord),
                fresh.len() == order@.len(),
                forall|r: Seq<Entry>| #[trigger] merged(r, fresh.skip(k as int), old@) ==> merged(
                    result@ + r,
                    fresh,
                    old0,
                ),
            decreases order@.len() - k,
        {
            let j = order[k];
            assert(ord[k as int] == j as int);
            assert(0 <= ord[k as int] < ks.len());
            let mut e = Entry::new(listing[j].0.clone(), listing[j].1);
            let ghost f = fresh.skip(k as int);
            assert(f[0] == (listing@[j as int].0@, listing@[j as int].1));
            assert(f.drop_first() =~= fresh.skip(k + 1));
            let ghost old_cur = old@;
            match find_path(&old, &e.path) {
                Some(pos) => {
                    proof {
                        lemma_first_with_path_from(old@, e.path@, 0);
                    }
                    let prev = old.remove(pos);
                    e.expanded = prev.expanded;
                    e.children = prev.children;
                },
                None => {},
            }
            proof {
                assert forall|r: Seq<Entry>| #[trigger] merged(r, fresh.skip(k + 1), old@) implies merged(
                    result@.push(e) + r,
                    fresh,
                    old0,
                ) by {
                    let r2 = seq![e] + r;
                    assert(r2[0] == e);
                    assert(r2.drop_first() =~= r);
                    assert(merged(r2, f, old_cur));
                    assert(result@.push(e) + r =~= result@ + r2);
                }
            }
            result.push(e);
            k = k + 1;
        }
        assert(fresh.skip(k as int) =~= Seq::<(Seq<char>, bool)>::empty());
        assert(merged(Seq::<Entry>::empty(), fresh.skip(k as int), old@));
        assert(result@ + Seq::<Entry>::empty() =~= result@);
        self.children = result;
        assert(sorted_order(ord, listing_keys(listing@)));
    }

    /// Drops the children whose path equals `del_path` (after it was deleted).
    pub fn remove_child(&mut self, del_path: &str)
        ensures
            final(self).children@ == old(self).children@.filter(|c: Entry| !path_eq(c.path@, del_path@)),
            final(self).path == old(self).path,
            final(self).name == old(self).name,
            final(self).is_dir == old(self).is_dir,
            final(self).expanded == old(self).expanded,
    {
        let mut old: Vec<Entry> = Vec::new();
        core::mem::swap(&mut old, &mut self.children);
        let ghost old0 = old@;
        let n0 = old.len();
        let ghost keep = |c: Entry| !path_eq(c.path@, del_path@);
        let mut kept: Vec<Entry> = Vec::new();
        let mut taken: usize = 0;
        while old.len() > 0
            invariant
                taken + old@.len() == old0.len(),
                n0 == old0.len(),
                old@ == old0.skip(taken as int),
                kept@ == old0.take(taken as int).filter(keep),
                keep == (|c: Entry| !path_eq(c.path@, del_path@)),
            decreases old@.len(),
        {
            let c = old.remove(0);
            assert(old0.take(taken + 1).drop_last() =~= old0.take(taken as int));
            assert(old0.take(taken + 1).last() == c);
            reveal_with_fuel(Seq::filter, 1);
            let same = same_path(c.path.as_str(), del_path);
            if !same {
                kept.push(c);
            }
            assert(old@ =~= old0.skip(taken + 1));
            taken = taken + 1;
        }
        assert(old0.take(taken as int) =~= old0);
        self.children = kept;
    }
}

impl FileExplorer {
    /// A tree rooted at `root_path`, expanded and listed from `listing`.
    pub fn new(root_path: String, is_dir: bool, listing: Vec<(String, bool)>) -> (f: Self)
        ensures
            f.root.path@ == root_path@,
            f.root.name@ == entry_name(root_path@),
            f.root.is_dir == is_dir,
            f.root.expanded,
            is_dir ==> resynced(f.root.children@, listing@, Seq::empty()),
            !is_dir ==> f.root.children@.len() == 0,
            f.inline_edit is Inactive,
            f.pending_delete is None,
    {
        let mut root = Entry::new(root_path, is_dir);
        root.expanded = true;
        assert(root.children@ =~= Seq::<Entry>::empty());
        root.sync_children(listing);
        FileExplorer { root, inline_edit: InlineEdit::Inactive, pending_delete: None }
    }

    /// The path at the root of the tree.
    pub fn workspace_path(&self) -> (p: &str)
        ensures
            p@ == self.root.path@,
    {
        self.root.path.as_str()
    }

    /// Replaces the tree with one rooted at `path`, listed from `listing`;
    /// any edit in progress and any pending deletion are dropped.
    pub fn set_workspace(&mut self, path: String, is_dir: bool, listing: Vec<(String, bool)>)
        ensures
            final(self).root.path@ == path@,
            final(self).root.name@ == entry_name(path@),
            final(self).root.is_dir == is_dir,
            final(self).root.expanded,
            is_dir ==> resynced(final(self).root.children@, listing@, Seq::empty()),
            !is_dir ==> final(self).root.children@.len() == 0,
            final(self).inline_edit is Inactive,
            final(self).pending_delete is None,
    {
        let mut root = Entry::new(path, is_dir);
        root.expanded = true;
        assert(root.children@ =~= Seq::<Entry>::empty());
        root.sync_children(listing);
        self.root = root;
        self.inline_edit = InlineEdit::Inactive;
        self.pending_delete = None;
    }
}

proof fn lemma_merged_len(result: Seq<Entry>, fresh: Seq<(Seq<char>, bool)>, old: Seq<Entry>)
    requires
        merged(result, fresh, old),
    ensures
        result.len() == fresh.len(),
        forall|k: int|
            0 <= k < fresh.len() ==> (#[trigger] result[k]).path@ == fresh[k].0 && result[k].is_dir
                == fresh[k].1 && result[k].name@ == entry_name(fresh[k].0),
    decreases fresh.len(),
{
    if fresh.len() > 0 {
        match first_with_path(old, fresh[0].0) {
            Some(j) => lemma_merged_len(result.drop_first(), fresh.drop_first(), old.remove(j)),
            None => lemma_merged_len(result.drop_first(), fresh.drop_first(), old),
        }
        assert forall|k: int| 0 <= k < fresh.len() implies (#[trigger] result[k]).path@ == fresh[k].0
            && result[k].is_dir == fresh[k].1 && result[k].name@ == entry_name(fresh[k].0) by {
            if k > 0 {
                assert(result[k] == result.drop_first()[k - 1]);
                assert(fresh[k] == fresh.drop_first()[k - 1]);
            }
        }
    }
}

/// After a directory is listed again it has one child per listed item, and
/// the children, in order, are the listed items sorted: directories first,
/// then by lower-cased name, equal keys in listing order.
pub proof fn lemma_resynced_children(children: Seq<Entry>, listing: Seq<(String, bool)>, old: Seq<Entry>)
    requires
        resynced(children, listing, old),
    ensures
        children.len() == listing.len(),
        forall|p: int, q: int|
            0 <= p < q < children.len() ==> key_before(
                (#[trigger] children[p].is_dir, lowercase(children[p].name@)),
                (#[trigger] children[q].is_dir, lowercase(children[q].name@)),
            ) || (children[p].is_dir == children[q].is_dir && lowercase(children[p].name@)
                == lowercase(children[q].name@)),
{
    let order = choose|order: Seq<int>|
        #[trigger] sorted_order(order, listing_keys(listing)) && merged(
            children,
            listed(listing, order),
            old,
        );
    lemma_merged_len(children, listed(listing, order), old);
    let ks = listing_keys(listing);
    assert forall|p: int, q: int| 0 <= p < q < children.len() implies key_before(
        (#[trigger] children[p].is_dir, lowercase(children[p].name@)),
        (#[trigger] children[q].is_dir, lowercase(children[q].name@)),
    ) || (children[p].is_dir == children[q].is_dir && lowercase(children[p].name@) == lowercase(
        children[q].name@,
    )) by {
        assert(item_before(ks, order[p], order[q]));
        assert(ks[order[p]] == (children[p].is_dir, lowercase(children[p].name@)));
        assert(ks[order[q]] == (children[q].is_dir, lowercase(children[q].name@)));
    }
}


/// After a directory is listed again, a directory child comes before every
/// file child, and of two children of the same kind whose lower-cased names
/// start with different characters, the one whose first character has the
/// smaller code point comes first, whatever the lengths of the names.
pub proof fn lemma_children_listing_order(children: Seq<Entry>, listing: Seq<(String, bool)>, old: Seq<Entry>)
    requires
        resynced(children, listing, old),
    ensures
        forall|i: int, j: int|
            0 <= i < children.len() && 0 <= j < children.len() && (#[trigger] children[i]).is_dir
                && !(#[trigger] children[j]).is_dir ==> i < j,
        forall|i: int, j: int|
            #![trigger children[i], children[j]]
            0 <= i < children.len() && 0 <= j < children.len() && children[i].is_dir
                == children[j].is_dir && lowercase(children[i].name@).len() > 0 && lowercase(
                children[j].name@,
            ).len() > 0 && (lowercase(children[i].name@)[0] as u32) < (lowercase(
                children[j].name@,
            )[0] as u32) ==> i < j,
{
    lemma_resynced_children(children, listing, old);
    assert forall|i: int, j: int|
        0 <= i < children.len() && 0 <= j < children.len() && (#[trigger] children[i]).is_dir
            && !(#[trigger] children[j]).is_dir implies i < j by {
        if j < i {
            assert(key_before(
                (children[j].is_dir, lowercase(children[j].name@)),
                (children[i].is_dir, lowercase(children[i].name@)),
            ) || (children[j].is_dir == children[i].is_dir && lowercase(children[j].name@)
                == lowercase(children[i].name@)));
        }
    }
    assert forall|i: int, j: int|
        #![trigger children[i], children[j]]
        0 <= i < children.len() && 0 <= j < children.len() && children[i].is_dir
            == children[j].is_dir && lowercase(children[i].name@).len() > 0 && lowercase(
            children[j].name@,
        ).len() > 0 && (lowercase(children[i].name@)[0] as u32) < (lowercase(
            children[j].name@,
        )[0] as u32) implies i < j by {
        let a = lowercase(children[i].name@);
        let b = lowercase(children[j].name@);
        if j < i {
            assert(key_before((children[j].is_dir, b), (children[i].is_dir, a)) || (
            children[j].is_dir == children[i].is_dir && b == a));
            lemma_lex_first_difference(b, a);
        } else if i == j {
            assert(a == b);
        }
    }
}

/// Icon shown beside a file of the tree.
#[derive(Clone, Copy, PartialEq, Eq, Structural, Debug)]
pub enum FileIcon {
    Code,
    Document,
}

/// Extensions of files shown with the source-code icon.
pub open spec fn is_code_extension(ext: Seq<char>) -> bool {
    ||| ext == "rs"@
    ||| ext == "asm"@
    ||| ext == "toml"@
    ||| ext == "py"@
    ||| ext == "js"@
    ||| ext == "ts"@
    ||| ext == "json"@
    ||| ext == "c"@
    ||| ext == "cpp"@
    ||| ext == "h"@
    ||| ext == "hpp"@
    ||| ext == "go"@
    ||| ext == "rb"@
    ||| ext == "java"@
    ||| ext == "sh"@
    ||| ext == "md"@
}

/// The icon of a file: source code for a known extension, a plain document otherwise.
pub open spec fn icon_for(path: Seq<char>) -> FileIcon {
    match path_extension(path) {
        Some(e) => if is_code_extension(e) { FileIcon::Code } else { FileIcon::Document },
        None => FileIcon::Document,
    }
}

fn code_extension(ext: &str) -> (b: bool)
    ensures
        b == is_code_extension(ext@),
{
    str_equal(ext, "rs") || str_equal(ext, "asm") || str_equal(ext, "toml") || str_equal(ext, "py")
        || str_equal(ext, "js") || str_equal(ext, "ts") || str_equal(ext, "json") || str_equal(
        ext,
        "c",
    ) || str_equal(ext, "cpp") || str_equal(ext, "h") || str_equal(ext, "hpp") || str_equal(
        ext,
        "go",
    ) || str_equal(ext, "rb") || str_equal(ext, "java") || str_equal(ext, "sh") || str_equal(
        ext,
        "md",
    )
}

/// The icon shown beside the file `path`.
pub fn file_icon(path: &str) -> (icon: FileIcon)
    ensures
        icon == icon_for(path@),
{
    match extension(path) {
        Some(e) => if code_extension(e.as_str()) {
            FileIcon::Code
        } else {
            FileIcon::Document
        },
        None => FileIcon::Document,
    }
}

/// How a frame of an in-place edit ends.
#[derive(Clone, Copy, PartialEq, Eq, Structural, Debug)]
pub enum EditOutcome {
    Editing,
    Commit,
    Cancel,
}

/// The outcome of a frame of an in-place edit: Enter in the focused field
/// commits; Escape cancels, and so does the field losing the focus once the
/// frame that asked for it has passed.
pub open spec fn outcome_of(just_requested: bool, focused: bool, enter: bool, escape: bool) -> EditOutcome {
    if focused && enter {
        EditOutcome::Commit
    } else if escape || (!just_requested && !focused) {
        EditOutcome::Cancel
    } else {
        EditOutcome::Editing
    }
}

/// How a frame of an in-place edit ends, as [`outcome_of`] says.
pub fn edit_outcome(just_requested: bool, focused: bool, enter: bool, escape: bool) -> (o: EditOutcome)
    ensures
        o == outcome_of(just_requested, focused, enter, escape),
{
    let commit = focused && enter;
    if commit {
        EditOutcome::Commit
    } else if escape || (!just_requested && !focused) {
        EditOutcome::Cancel
    } else {
        EditOutcome::Editing
    }
}

/// Actions of the context menu of a row.
#[derive(Clone, Copy, PartialEq, Eq, Structural, Debug)]
pub enum ContextAction {
    NewFile,
    NewFolder,
    Rename,
    Delete,
}

/// Where a file or folder created from the menu of the row `path` goes: into
/// the row itself when it is a directory, else beside it.
pub open spec fn new_item_parent(path: Seq<char>, is_dir: bool) -> Seq<char> {
    if is_dir {
        path
    } else {
        match path_parent(path) {
            Some(p) => p,
            None => path,
        }
    }
}

/// `e` is an in-place creation of a file (or folder) in `parent`, with an
/// empty name that has not asked for the focus yet.
pub open spec fn is_new_creation(e: InlineEdit, parent: Seq<char>, is_dir: bool) -> bool {
    e matches InlineEdit::Creating { parent: p, is_dir: d, buffer: b, focus_requested: f }
        && p@ == parent && d == is_dir && b@ == Seq::<char>::empty() && !f
}

/// `e` is an in-place rename of `path`, starting from `name`, that has not
/// asked for the focus yet.
pub open spec fn is_new_rename(e: InlineEdit, path: Seq<char>, name: Seq<char>) -> bool {
    e matches InlineEdit::Renaming { path: p, buffer: b, focus_requested: f } && p@ == path && b@
        == name && !f
}

/// Applies an action of the context menu of `entry`. The root row offers no
/// rename or delete, so those leave everything as it was.
pub fn context_action(
    entry: &Entry,
    is_root: bool,
    action: ContextAction,
    inline_edit: &mut InlineEdit,
    pending_delete: &mut Option<String>,
)
    ensures
        (action == ContextAction::NewFile || action == ContextAction::NewFolder) ==> {
            &&& is_new_creation(
                *final(inline_edit),
                new_item_parent(entry.path@, entry.is_dir),
                action == ContextAction::NewFolder,
            )
            &&& *final(pending_delete) == *old(pending_delete)
        },
        action == ContextAction::Rename ==> {
            &&& !is_root ==> is_new_rename(*final(inline_edit), entry.path@, entry.name@)
            &&& is_root ==> *final(inline_edit) == *old(inline_edit)
            &&& *final(pending_delete) == *old(pending_delete)
        },
        action == ContextAction::Delete ==> {
            &&& !is_root ==> (*final(pending_delete) matches Some(p) && p@ == entry.path@)
            &&& is_root ==> *final(pending_delete) == *old(pending_delete)
            &&& *final(inline_edit) == *old(inline_edit)
        },
{
    match action {
        ContextAction::NewFile | ContextAction::NewFolder => {
            let target = if entry.is_dir {
                entry.path.clone()
            } else {
                match parent(entry.path.as_str()) {
                    Some(p) => p,
                    None => entry.path.clone(),
                }
            };
            *inline_edit = InlineEdit::Creating {
                parent: target,
                is_dir: matches!(action, ContextAction::NewFolder),
                buffer: String::new(),
                focus_requested: false,
            };
        },
        ContextAction::Rename => {
            if !is_root {
                *inline_edit = InlineEdit::Renaming {
                    path: entry.path.clone(),
                    buffer: entry.name.clone(),
                    focus_requested: false,
                };
            }
        },
        ContextAction::Delete => {
            if !is_root {
                *pending_delete = Some(entry.path.clone());
            }
        },
    }
}

impl InlineEdit {
    /// Whether the edit field should take the focus this frame: true on the
    /// first frame of an edit only.
    pub fn take_focus_request(&mut self) -> (just_requested: bool)
        ensures
            match *old(self) {
                InlineEdit::Inactive => !just_requested && *final(self) == *old(self),
                InlineEdit::Renaming { path, buffer, focus_requested } => just_requested
                    == !focus_requested && *final(self) == (InlineEdit::Renaming {
                    path,
                    buffer,
                    focus_requested: true,
                }),
                InlineEdit::Creating { parent, is_dir, buffer, focus_requested } => just_requested
                    == !focus_requested && *final(self) == (InlineEdit::Creating {
                    parent,
                    is_dir,
                    buffer,
                    focus_requested: true,
                }),
            },
    {
        match self {
            InlineEdit::Inactive => false,
            InlineEdit::Renaming { focus_requested, .. } => {
                let just = !*focus_requested;
                *focus_requested = true;
                just
            },
            InlineEdit::Creating { focus_requested, .. } => {
                let just = !*focus_requested;
                *focus_requested = true;
                just
            },
        }
    }

    /// Whether this is a rename of the row `path`.
    pub fn is_renaming(&self, path: &str) -> (b: bool)
        ensures
            b == (*self matches InlineEdit::Renaming { path: p, .. } && path_eq(p@, path@)),
    {
        match self {
            InlineEdit::Renaming { path: p, .. } => same_path(p.as_str(), path),
            _ => false,
        }
    }

    /// Whether this is a creation inside the directory `path`.
    pub fn is_creating_in(&self, path: &str) -> (b: bool)
        ensures
            b == (*self matches InlineEdit::Creating { parent: p, .. } && path_eq(p@, path@)),
    {
        match self {
            InlineEdit::Creating { parent: p, .. } => same_path(p.as_str(), path),
            _ => false,
        }
    }
}

/// The new path and name of a rename committed with `buffer`: the trimmed
/// buffer names the file beside the old one, when it is not empty and not
/// the current name.
pub open spec fn rename_plan(path: Seq<char>, name: Seq<char>, buffer: Seq<char>) -> Option<(Seq<char>, Seq<char>)> {
    let n = trim_space(buffer);
    if n.len() > 0 && n != name {
        Some((path_with_file_name(path, n), n))
    } else {
        None
    }
}

/// A rename is refused only for a name that is empty once trimmed or that
/// is, character for character, the current name; otherwise the entry takes
/// the trimmed name, in the same directory.
pub proof fn lemma_rename_accepts(path: Seq<char>, name: Seq<char>, buffer: Seq<char>)
    ensures
        rename_plan(path, name, buffer) is Some <==> (trim_space(buffer).len() > 0 && trim_space(buffer)
            != name),
        rename_plan(path, name, buffer) matches Some(p) ==> p.1 == trim_space(buffer) && p.0
            == path_with_file_name(path, trim_space(buffer)),
        forall|i: int|
            0 <= i < name.len() && trim_space(buffer).len() == name.len() && #[trigger] trim_space(
                buffer,
            )[i] != name[i] ==> rename_plan(path, name, buffer) is Some,
{
}

/// The path and name `entry` moves to when a rename is committed with `buffer`.
pub fn plan_rename(entry: &Entry, buffer: &str) -> (r: Option<(String, String)>)
    ensures
        match r {
            Some((p, n)) => rename_plan(entry.path@, entry.name@, buffer@) == Some((p@, n@)),
            None => rename_plan(entry.path@, entry.name@, buffer@) is None,
        },
{
    let new_name = trim_string(buffer);
    if new_name.as_str().is_empty() || str_equal(new_name.as_str(), entry.name.as_str()) {
        None
    } else {
        let new_path = with_file_name(entry.path.as_str(), new_name.as_str());
        Some((new_path, new_name))
    }
}

/// The path of a file (or folder) created in `parent` with `buffer`: the
/// trimmed buffer joined to the directory, when it is not empty.
pub open spec fn create_plan(parent: Seq<char>, buffer: Seq<char>) -> Option<Seq<char>> {
    let n = trim_space(buffer);
    if n.len() > 0 {
        Some(path_join(parent, n))
    } else {
        None
    }
}

/// The path to create when a creation in `parent_path` is committed with `buffer`.
pub fn plan_create(parent_path: &str, buffer: &str) -> (r: Option<String>)
    ensures
        match r {
            Some(p) => create_plan(parent_path@, buffer@) == Some(p@),
            None => create_plan(parent_path@, buffer@) is None,
        },
{
    let name = trim_string(buffer);
    if name.as_str().is_empty() {
        None
    } else {
        Some(join(parent_path, name.as_str()))
    }
}

/// `open_file` with `from` replaced by `to` when it is that path.
pub open spec fn follow_path(open_file: Option<String>, from: Seq<char>, to: Seq<char>) -> Option<Seq<char>> {
    match open_file {
        Some(f) => if path_eq(f@, from) { Some(to) } else { Some(f@) },
        None => None,
    }
}

/// The view of an optional path.
pub open spec fn opt_view(p: Option<String>) -> Option<Seq<char>> {
    match p {
        Some(s) => Some(s@),
        None => None,
    }
}

impl Entry {
    /// The rename was done on disk: the entry takes its new path and name,
    /// and the open file follows it when it was this entry.
    pub fn apply_rename(&mut self, new_path: String, new_name: String, open_file: &mut Option<String>)
        ensures
            final(self).path@ == new_path@,
            final(self).name@ == new_name@,
            final(self).is_dir == old(self).is_dir,
            final(self).expanded == old(self).expanded,
            final(self).children == old(self).children,
            opt_view(*final(open_file)) == follow_path(*old(open_file), old(self).path@, new_path@),
    {
        let follows = match open_file {
            Some(f) => same_path(f.as_str(), self.path.as_str()),
            None => false,
        };
        if follows {
            *open_file = Some(new_path.clone());
        }
        self.path = new_path;
        self.name = new_name;
    }

    /// Flips the row open or closed; true when it opened (its listing is then read again).
    pub fn toggle_expanded(&mut self) -> (opened: bool)
        ensures
            final(self).expanded == !old(self).expanded,
            opened == final(self).expanded,
            final(self).path == old(self).path,
            final(self).name == old(self).name,
            final(self).is_dir == old(self).is_dir,
            final(self).children == old(self).children,
    {
        self.expanded = !self.expanded;
        self.expanded
    }

    /// Whether the row is shown selected: a file that is the open file.
    pub fn is_open_file(&self, open_file: &Option<String>) -> (b: bool)
        ensures
            b == (!self.is_dir && (*open_file matches Some(f) && path_eq(f@, self.path@))),
    {
        if self.is_dir {
            false
        } else {
            match open_file {
                Some(f) => same_path(f.as_str(), self.path.as_str()),
                None => false,
            }
        }
    }

    /// Whether one of the children has a path equal to `path`.
    pub fn has_child(&self, path: &str) -> (b: bool)
        ensures
            b == exists|i: int| 0 <= i < self.children@.len() && path_eq(#[trigger] self.children@[i].path@, path@),
    {
        let mut i: usize = 0;
        while i < self.children.len()
            invariant
                i <= self.children@.len(),
                forall|k: int| 0 <= k < i ==> !path_eq(#[trigger] self.children@[k].path@, path@),
            decreases self.children@.len() - i,
        {
            if same_path(self.children[i].path.as_str(), path) {
                return true;
            }
            i = i + 1;
        }
        false
    }
}

/// Takes the pending deletion when it names a child of `parent`; otherwise
/// leaves it pending and returns nothing.
pub fn take_pending_delete(pending: &mut Option<String>, parent: &Entry) -> (r: Option<String>)
    ensures
        match *old(pending) {
            Some(p) => if exists|i: int|
                0 <= i < parent.children@.len() && path_eq(#[trigger] parent.children@[i].path@, p@) {
                r == Some(p) && *final(pending) is None
            } else {
                r is None && *final(pending) == *old(pending)
            },
            None => r is None && *final(pending) is None,
        },
{
    let hit = match pending {
        Some(p) => parent.has_child(p.as_str()),
        None => false,
    };
    if hit {
        pending.take()
    } else {
        None
    }
}

/// The open file is dropped when it is the path that was deleted; true when it was.
pub fn forget_deleted(open_file: &mut Option<String>, deleted: &str) -> (closed: bool)
    ensures
        closed == (*old(open_file) matches Some(f) && path_eq(f@, deleted@)),
        closed ==> *final(open_file) is None,
        !closed ==> *final(open_file) == *old(open_file),
{
    let closed = match open_file {
        Some(f) => same_path(f.as_str(), deleted),
        None => false,
    };
    if closed {
        *open_file = None;
    }
    closed
}

impl FileExplorer {
    /// Where a file imported from `source` is copied: into the workspace
    /// root, under its file name.
    pub fn import_destination(&self, source: &str) -> (dest: String)
        ensures
            dest@ == path_join(self.root.path@, entry_name(source@)),
    {
        let name = match file_name(source) {
            Some(n) => n,
            None => String::new(),
        };
        join(self.root.path.as_str(), name.as_str())
    }
}

} // verus!
