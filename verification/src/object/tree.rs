//! Trees: the entries of one directory, listed in the order of their paths.

use crate::object::{Datatype, Object};
use crate::oid::{decode_hex, hex_decoded, is_hex, is_hex_string};
use crate::order::{le_paths, lemma_path_le_total, lemma_path_le_transitive, path_le};
use vstd::prelude::*;
use vstd::utf8::encode_utf8;

verus! {

/// One line of a tree: a path, the mode of what is there, and the
/// identifier of the object that holds it.
pub struct Entry {
    pub path: String,
    pub oid: String,
    pub mode: String,
}

/// An [`Entry`] as a mathematical value.
pub struct EntryView {
    pub path: Seq<char>,
    pub oid: Seq<char>,
    pub mode: Seq<char>,
}

impl View for Entry {
    type V = EntryView;

    open spec fn view(&self) -> EntryView {
        EntryView { path: self.path@, oid: self.oid@, mode: self.mode@ }
    }
}

impl DeepView for Entry {
    type V = EntryView;

    open spec fn deep_view(&self) -> EntryView {
        self@
    }
}

/// The bytes of one entry in a tree's payload: mode, a space, the path and
/// a NUL as text, then the identifier as raw bytes.
pub open spec fn entry_bytes(entry: EntryView) -> Seq<u8> {
    encode_utf8(entry.mode + seq![' '] + entry.path + seq!['\0']) + hex_decoded(entry.oid)
}

/// The payload of a tree with the given entries, in the given order.
pub open spec fn tree_payload(entries: Seq<EntryView>) -> Seq<u8>
    decreases entries.len(),
{
    if entries.len() == 0 {
        Seq::empty()
    } else {
        tree_payload(entries.drop_last()) + entry_bytes(entries.last())
    }
}

/// Every entry names its object by an even number of hexadecimal digits.
pub open spec fn identifiers_are_hex(entries: Seq<EntryView>) -> bool {
    forall|i: int| 0 <= i < entries.len() ==> is_hex(#[trigger] entries[i].oid)
}

/// No entry comes before one whose path is earlier.
pub open spec fn sorted_by_path(entries: Seq<EntryView>) -> bool {
    forall|i: int, j: int|
        0 <= i < j < entries.len() ==> path_le(
            (#[trigger] entries[i]).path,
            (#[trigger] entries[j]).path,
        )
}

/// The entries whose path is `path`, in the order in which they stand.
pub open spec fn with_path(entries: Seq<EntryView>, path: Seq<char>) -> Seq<EntryView>
    decreases entries.len(),
{
    if entries.len() == 0 {
        entries
    } else if entries.last().path == path {
        with_path(entries.drop_last(), path).push(entries.last())
    } else {
        with_path(entries.drop_last(), path)
    }
}

/// `sorted` is `entries` put in the order of the paths, entries of one path
/// keeping the order they had. There is exactly one such sequence.
pub open spec fn is_stable_sort(sorted: Seq<EntryView>, entries: Seq<EntryView>) -> bool {
    &&& sorted_by_path(sorted)
    &&& forall|path: Seq<char>| #[trigger] with_path(sorted, path) == with_path(entries, path)
}

/// Picking the entries of one path commutes with concatenation.
pub proof fn lemma_with_path_concat(a: Seq<EntryView>, b: Seq<EntryView>, path: Seq<char>)
    ensures
        with_path(a + b, path) == with_path(a, path) + with_path(b, path),
    decreases b.len(),
{
    if b.len() == 0 {
        assert(a + b =~= a);
        assert(with_path(a, path) + with_path(b, path) =~= with_path(a, path));
    } else {
        assert((a + b).drop_last() =~= a + b.drop_last());
        assert((a + b).last() == b.last());
        lemma_with_path_concat(a, b.drop_last(), path);
        if b.last().path == path {
            assert(with_path(a, path) + with_path(b.drop_last(), path).push(b.last()) =~= (
            with_path(a, path) + with_path(b.drop_last(), path)).push(b.last()));
        }
    }
}

/// Where no entry has the path, picking by it leaves nothing.
pub proof fn lemma_with_path_absent(entries: Seq<EntryView>, path: Seq<char>)
    requires
        forall|i: int| 0 <= i < entries.len() ==> (#[trigger] entries[i]).path != path,
    ensures
        with_path(entries, path).len() == 0,
    decreases entries.len(),
{
    if entries.len() > 0 {
        assert(entries.last() == entries[entries.len() - 1]);
        assert forall|i: int| 0 <= i < entries.drop_last().len() implies (
        #[trigger] entries.drop_last()[i]).path != path by {
            assert(entries.drop_last()[i] == entries[i]);
        }
        lemma_with_path_absent(entries.drop_last(), path);
    }
}

/// Every entry picked by a path has that path and stands in the sequence.
pub proof fn lemma_with_path_members(entries: Seq<EntryView>, path: Seq<char>, k: int)
    requires
        0 <= k < with_path(entries, path).len(),
    ensures
        with_path(entries, path)[k].path == path,
        entries.contains(with_path(entries, path)[k]),
    decreases entries.len(),
{
    if entries.len() > 0 {
        let rest = entries.drop_last();
        if k < with_path(rest, path).len() {
            lemma_with_path_members(rest, path, k);
            let i = choose|i: int| 0 <= i < rest.len() && rest[i] == with_path(rest, path)[k];
            assert(entries[i] == rest[i]);
        } else {
            assert(entries[entries.len() - 1] == entries.last());
        }
    }
}

/// Picking from a single entry leaves it or nothing.
pub proof fn lemma_with_path_single(entry: EntryView, path: Seq<char>)
    ensures
        with_path(seq![entry], path) == if entry.path == path {
            seq![entry]
        } else {
            Seq::empty()
        },
{
    let one = seq![entry];
    assert(one.drop_last() =~= Seq::<EntryView>::empty());
    assert(with_path(one.drop_last(), path) =~= Seq::empty());
    assert(one.last() == entry);
    if entry.path == path {
        assert(with_path(one, path) =~= seq![entry]);
    }
}

/// An entry is among those picked by its own path.
pub proof fn lemma_with_path_finds(entries: Seq<EntryView>, i: int)
    requires
        0 <= i < entries.len(),
    ensures
        with_path(entries, entries[i].path).contains(entries[i]),
    decreases entries.len(),
{
    let path = entries[i].path;
    let rest = entries.drop_last();
    if i == entries.len() - 1 {
        let picked = with_path(rest, path).push(entries.last());
        assert(picked[picked.len() - 1] == entries[i]);
    } else {
        lemma_with_path_finds(rest, i);
        assert(rest[i] == entries[i]);
        let k = choose|k: int|
            0 <= k < with_path(rest, path).len() && with_path(rest, path)[k] == rest[i];
        assert(with_path(entries, path)[k] == entries[i]);
    }
}

/// An entry stands among those picked by its path as often as it stands
/// in the sequence.
pub proof fn lemma_with_path_counts(entries: Seq<EntryView>, entry: EntryView)
    ensures
        with_path(entries, entry.path).to_multiset().count(entry) == entries.to_multiset().count(
            entry,
        ),
    decreases entries.len(),
{
    broadcast use vstd::multiset::group_multiset_axioms;

    if entries.len() > 0 {
        let rest = entries.drop_last();
        let last = entries.last();
        lemma_with_path_counts(rest, entry);
        assert(entries =~= rest.push(last));
        vstd::seq_lib::to_multiset_build(rest, last);
        if last.path == entry.path {
            vstd::seq_lib::to_multiset_build(with_path(rest, entry.path), last);
        }
    }
}

/// A stable sort rearranges: it has every entry exactly as often as the
/// sequence it was sorted from.
pub proof fn lemma_stable_sort_permutes(sorted: Seq<EntryView>, entries: Seq<EntryView>)
    requires
        is_stable_sort(sorted, entries),
    ensures
        sorted.to_multiset() == entries.to_multiset(),
        sorted.len() == entries.len(),
{
    assert forall|entry: EntryView|
        sorted.to_multiset().count(entry) == entries.to_multiset().count(entry) by {
        lemma_with_path_counts(sorted, entry);
        lemma_with_path_counts(entries, entry);
        assert(with_path(sorted, entry.path) == with_path(entries, entry.path));
    }
    assert(sorted.to_multiset() =~= entries.to_multiset());
    vstd::seq_lib::to_multiset_len(sorted);
    vstd::seq_lib::to_multiset_len(entries);
}

/// Every entry of a sorted sequence stands in the sequence it was sorted
/// from.
pub proof fn lemma_sorted_entries_are_given(
    sorted: Seq<EntryView>,
    entries: Seq<EntryView>,
    i: int,
)
    requires
        is_stable_sort(sorted, entries),
        0 <= i < sorted.len(),
    ensures
        entries.contains(sorted[i]),
{
    let path = sorted[i].path;
    lemma_with_path_finds(sorted, i);
    assert(with_path(sorted, path) == with_path(entries, path));
    let k = choose|k: int|
        0 <= k < with_path(sorted, path).len() && with_path(sorted, path)[k] == sorted[i];
    lemma_with_path_members(entries, path, k);
}

/// No two entries have the same path.
pub open spec fn paths_are_distinct(entries: Seq<EntryView>) -> bool {
    forall|i: int, j: int|
        0 <= i < j < entries.len() ==> (#[trigger] entries[i]).path != (#[trigger] entries[j]).path
}

/// Where no two entries share a path, a path picks at most one entry.
pub proof fn lemma_with_path_at_most_one(entries: Seq<EntryView>, path: Seq<char>)
    requires
        paths_are_distinct(entries),
    ensures
        with_path(entries, path).len() <= 1,
    decreases entries.len(),
{
    if entries.len() > 0 {
        let rest = entries.drop_last();
        assert forall|i: int, j: int| 0 <= i < j < rest.len() implies (#[trigger] rest[i]).path != (
        #[trigger] rest[j]).path by {
            assert(rest[i] == entries[i] && rest[j] == entries[j]);
        }
        lemma_with_path_at_most_one(rest, path);
        if entries.last().path == path && with_path(rest, path).len() > 0 {
            lemma_with_path_members(rest, path, 0);
            let i = choose|i: int| 0 <= i < rest.len() && rest[i] == with_path(rest, path)[0];
            assert(entries[i] == rest[i]);
            assert(entries[entries.len() - 1] == entries.last());
        }
    }
}

/// Two sequences of the same entries, neither with a path twice, pick the
/// same entries by every path.
pub proof fn lemma_with_path_of_same_entries(
    a: Seq<EntryView>,
    b: Seq<EntryView>,
    path: Seq<char>,
)
    requires
        paths_are_distinct(a),
        paths_are_distinct(b),
        forall|entry: EntryView| a.contains(entry) <==> b.contains(entry),
    ensures
        with_path(a, path) == with_path(b, path),
{
    lemma_with_path_at_most_one(a, path);
    lemma_with_path_at_most_one(b, path);
    let pa = with_path(a, path);
    let pb = with_path(b, path);
    if pa.len() == 1 {
        lemma_with_path_members(a, path, 0);
        assert(b.contains(pa[0]));
        let i = choose|i: int| 0 <= i < b.len() && b[i] == pa[0];
        lemma_with_path_finds(b, i);
        assert(pb.contains(pa[0]));
        assert(pa =~= pb);
    } else if pb.len() == 1 {
        lemma_with_path_members(b, path, 0);
        assert(a.contains(pb[0]));
        let i = choose|i: int| 0 <= i < a.len() && a[i] == pb[0];
        lemma_with_path_finds(a, i);
        assert(pa.contains(a[i]));
    } else {
        assert(pa =~= pb);
    }
}

/// Two sorted sequences that pick the same entries by every path are the
/// same sequence.
pub proof fn lemma_sorted_is_unique(x: Seq<EntryView>, y: Seq<EntryView>)
    requires
        sorted_by_path(x),
        sorted_by_path(y),
        forall|path: Seq<char>| #[trigger] with_path(x, path) == with_path(y, path),
    ensures
        x == y,
    decreases x.len(),
{
    if x.len() == 0 {
        if y.len() > 0 {
            lemma_with_path_finds(y, 0);
            assert(with_path(x, y[0].path) == with_path(y, y[0].path));
        }
        assert(x =~= y);
    } else if y.len() == 0 {
        lemma_with_path_finds(x, 0);
        assert(with_path(x, x[0].path) == with_path(y, x[0].path));
    } else {
        let ex = x.last();
        let ey = y.last();
        let p = ex.path;
        let q = ey.path;
        assert(x[x.len() - 1] == ex && y[y.len() - 1] == ey);
        // The last entry of each stands somewhere in the other, so neither
        // last path comes before the other.
        lemma_with_path_finds(x, x.len() - 1);
        assert(with_path(x, p) == with_path(y, p));
        let k = choose|k: int| 0 <= k < with_path(y, p).len() && with_path(y, p)[k] == ex;
        lemma_with_path_members(y, p, k);
        let j = choose|j: int| 0 <= j < y.len() && y[j] == ex;
        lemma_path_le_total(p, p);
        assert(path_le(p, q)) by {
            if j < y.len() - 1 {
                assert(path_le(y[j].path, y[y.len() - 1].path));
            }
        }
        lemma_with_path_finds(y, y.len() - 1);
        assert(with_path(x, q) == with_path(y, q));
        let k2 = choose|k: int| 0 <= k < with_path(x, q).len() && with_path(x, q)[k] == ey;
        lemma_with_path_members(x, q, k2);
        let i = choose|i: int| 0 <= i < x.len() && x[i] == ey;
        lemma_path_le_total(q, q);
        assert(path_le(q, p)) by {
            if i < x.len() - 1 {
                assert(path_le(x[i].path, x[x.len() - 1].path));
            }
        }
        crate::order::lemma_path_le_antisymmetric(p, q);
        let xr = x.drop_last();
        let yr = y.drop_last();
        assert(with_path(xr, p).push(ex) == with_path(yr, p).push(ey));
        assert(with_path(xr, p).push(ex).last() == ex);
        assert(with_path(yr, p).push(ey).last() == ey);
        assert(ex == ey);
        assert forall|path: Seq<char>| #[trigger] with_path(xr, path) == with_path(yr, path) by {
            assert(with_path(x, path) == with_path(y, path));
            if path == p {
                assert(with_path(xr, p) =~= with_path(xr, p).push(ex).drop_last());
                assert(with_path(yr, p) =~= with_path(yr, p).push(ey).drop_last());
            }
        }
        assert forall|a: int, b: int| 0 <= a < b < xr.len() implies path_le(
            (#[trigger] xr[a]).path,
            (#[trigger] xr[b]).path,
        ) by {
            assert(xr[a] == x[a] && xr[b] == x[b]);
        }
        assert forall|a: int, b: int| 0 <= a < b < yr.len() implies path_le(
            (#[trigger] yr[a]).path,
            (#[trigger] yr[b]).path,
        ) by {
            assert(yr[a] == y[a] && yr[b] == y[b]);
        }
        lemma_sorted_is_unique(xr, yr);
        assert(x =~= xr.push(ex));
        assert(y =~= yr.push(ey));
    }
}

/// Sorting is determined: two stable sorts of one sequence are the same
/// sequence.
pub proof fn lemma_sort_is_determined(
    entries: Seq<EntryView>,
    first: Seq<EntryView>,
    second: Seq<EntryView>,
)
    requires
        is_stable_sort(first, entries),
        is_stable_sort(second, entries),
    ensures
        first == second,
{
    assert forall|path: Seq<char>| #[trigger] with_path(first, path) == with_path(second, path) by {
        assert(with_path(first, path) == with_path(entries, path));
        assert(with_path(second, path) == with_path(entries, path));
    }
    lemma_sorted_is_unique(first, second);
}

/// The order in which the entries are handed over does not matter: two
/// sequences of the same entries, neither with a path twice, sort to the
/// same sequence, and so to the same payload.
pub proof fn lemma_tree_ignores_order(
    a: Seq<EntryView>,
    b: Seq<EntryView>,
    sorted_a: Seq<EntryView>,
    sorted_b: Seq<EntryView>,
)
    requires
        paths_are_distinct(a),
        paths_are_distinct(b),
        forall|entry: EntryView| a.contains(entry) <==> b.contains(entry),
        is_stable_sort(sorted_a, a),
        is_stable_sort(sorted_b, b),
    ensures
        sorted_a == sorted_b,
        tree_payload(sorted_a) == tree_payload(sorted_b),
{
    assert forall|path: Seq<char>| #[trigger]
        with_path(sorted_a, path) == with_path(sorted_b, path) by {
        lemma_with_path_of_same_entries(a, b, path);
        assert(with_path(sorted_a, path) == with_path(a, path));
        assert(with_path(sorted_b, path) == with_path(b, path));
    }
    lemma_sorted_is_unique(sorted_a, sorted_b);
}

/// Puts entries in the order of their paths, by insertion from the back,
/// so that entries of one path keep their order.
fn sort_by_path(entries: Vec<Entry>) -> (sorted: Vec<Entry>)
    ensures
        is_stable_sort(sorted.deep_view(), entries.deep_view()),
{
    let ghost input = entries.deep_view();
    let mut rest = entries;
    let mut sorted: Vec<Entry> = Vec::new();
    assert(input.skip(input.len() as int) =~= Seq::empty());
    assert(sorted.deep_view() =~= Seq::empty());
    assert(rest.deep_view() =~= input.take(rest.len() as int));
    while rest.len() > 0
        invariant
            rest.len() <= input.len(),
            rest.deep_view() == input.take(rest.len() as int),
            sorted_by_path(sorted.deep_view()),
            forall|path: Seq<char>| #[trigger]
                with_path(sorted.deep_view(), path) == with_path(
                    input.skip(rest.len() as int),
                    path,
                ),
        decreases rest.len(),
    {
        let ghost before = sorted.deep_view();
        let ghost done = input.skip(rest.len() as int);
        let ghost n = rest.len() as int;
        assert(rest.deep_view()[n - 1] == input[n - 1]);
        let entry = rest.pop().unwrap();
        assert(entry@ == input[n - 1]);
        assert(rest.deep_view() =~= input.take(n - 1));
        let mut at: usize = 0;
        while at < sorted.len() && !le_paths(&entry.path, &sorted[at].path)
            invariant
                at <= sorted.len(),
                sorted.deep_view() == before,
                forall|k: int|
                    0 <= k < at ==> !path_le(entry@.path, (#[trigger] before[k]).path),
            decreases sorted.len() - at,
        {
            at += 1;
        }
        let ghost x = entry@;
        sorted.insert(at, entry);
        proof {
            let j = at as int;
            let after = sorted.deep_view();
            let low = before.take(j);
            let high = before.skip(j);
            assert(after =~= low + seq![x] + high);
            assert(before =~= low + high);
            assert forall|a: int, b: int| 0 <= a < b < after.len() implies path_le(
                (#[trigger] after[a]).path,
                (#[trigger] after[b]).path,
            ) by {
                if b < j {
                    assert(after[a] == before[a] && after[b] == before[b]);
                } else if b == j {
                    assert(after[a] == before[a]);
                    lemma_path_le_total(x.path, before[a].path);
                } else if a < j {
                    assert(after[a] == before[a] && after[b] == before[b - 1]);
                } else if a == j {
                    assert(after[b] == before[b - 1]);
                    assert(path_le(x.path, before[j].path));
                    if b - 1 > j {
                        lemma_path_le_transitive(x.path, before[j].path, before[b - 1].path);
                    }
                } else {
                    assert(after[a] == before[a - 1] && after[b] == before[b - 1]);
                }
            }
            assert(input.skip(n - 1) =~= seq![x] + done);
            assert forall|path: Seq<char>| #[trigger]
                with_path(after, path) == with_path(input.skip(n - 1), path) by {
                lemma_with_path_concat(low + seq![x], high, path);
                lemma_with_path_concat(low, seq![x], path);
                lemma_with_path_concat(low, high, path);
                lemma_with_path_concat(seq![x], done, path);
                lemma_with_path_single(x, path);
                assert(with_path(before, path) == with_path(done, path));
                if x.path == path {
                    assert forall|i: int| 0 <= i < low.len() implies (#[trigger] low[i]).path
                        != path by {
                        assert(low[i] == before[i]);
                        lemma_path_le_total(x.path, x.path);
                    }
                    lemma_with_path_absent(low, path);
                    assert(with_path(low, path) =~= Seq::empty());
                    assert(with_path(low, path) + with_path(seq![x], path) + with_path(
                        high,
                        path,
                    ) =~= with_path(seq![x], path) + (with_path(low, path) + with_path(
                        high,
                        path,
                    )));
                } else {
                    assert(with_path(low, path) + with_path(seq![x], path) + with_path(
                        high,
                        path,
                    ) =~= with_path(low, path) + with_path(high, path));
                    assert(with_path(seq![x], path) + with_path(done, path) =~= with_path(
                        done,
                        path,
                    ));
                }
            }
        }
    }
    assert(input.skip(0) =~= input);
    sorted
}

/// The entries of one directory.
pub struct Tree {
    entries: Vec<Entry>,
    datatype: Datatype,
    oid: Option<String>,
}

impl Tree {
    /// The entries, in the order in which the tree lists them.
    pub closed spec fn entries(&self) -> Seq<EntryView> {
        self.entries.deep_view()
    }

    /// Decides whether the tree can be encoded: whether every entry names
    /// its object by an even number of hexadecimal digits.
    pub fn is_well_formed(&self) -> (valid: bool)
        ensures
            valid == self.well_formed(),
            valid == identifiers_are_hex(self.entries()),
    {
        let mut i: usize = 0;
        while i < self.entries.len()
            invariant
                i <= self.entries.len(),
                forall|k: int| 0 <= k < i ==> is_hex(#[trigger] self.entries()[k].oid),
            decreases self.entries.len() - i,
        {
            if !is_hex_string(&self.entries[i].oid) {
                assert(!is_hex(self.entries()[i as int].oid));
                return false;
            }
            i += 1;
        }
        true
    }

    /// How many entries the tree has.
    pub fn len(&self) -> (count: usize)
        ensures
            count == self.entries().len(),
    {
        self.entries.len()
    }

    /// The entry at `index`, in the order in which the tree lists them;
    /// `None` past the last.
    pub fn entry(&self, index: usize) -> (entry: Option<&Entry>)
        ensures
            entry is Some <==> index < self.entries().len(),
            entry matches Some(e) ==> e@ == self.entries()[index as int],
    {
        if index < self.entries.len() {
            Some(&self.entries[index])
        } else {
            None
        }
    }
}

/// Determinism for trees: two trees made from the same entries, given in
/// the same order, list them alike and have the same payload.
pub proof fn lemma_tree_is_determined(one: Tree, other: Tree, entries: Seq<EntryView>)
    requires
        is_stable_sort(one.entries(), entries),
        is_stable_sort(other.entries(), entries),
    ensures
        one.entries() == other.entries(),
        one.payload() == other.payload(),
{
    lemma_sort_is_determined(entries, one.entries(), other.entries());
}

impl Object for Tree {
    type Input = Vec<Entry>;

    closed spec fn well_formed(&self) -> bool {
        identifiers_are_hex(self.entries())
    }

    closed spec fn payload(&self) -> Seq<u8> {
        tree_payload(self.entries())
    }

    closed spec fn kind(&self) -> Datatype {
        self.datatype
    }

    closed spec fn identifier(&self) -> Option<Seq<char>> {
        match self.oid {
            Some(id) => Some(id@),
            None => None,
        }
    }

    /// A tree of the given entries, put in the order of their paths: the
    /// same entries, rearranged so that no path comes before an earlier
    /// one, entries of one path in the order given.
    fn new(entries: Vec<Entry>) -> (tree: Tree)
        ensures
            is_stable_sort(tree.entries(), entries.deep_view()),
            tree.entries().to_multiset() == entries.deep_view().to_multiset(),
            tree.entries().len() == entries.len(),
            tree.payload() == tree_payload(tree.entries()),
            tree.well_formed() == identifiers_are_hex(tree.entries()),
            tree.kind() == Datatype::Tree,
    {
        let ghost given = entries.deep_view();
        let sorted = sort_by_path(entries);
        proof {
            lemma_stable_sort_permutes(sorted.deep_view(), given);
        }
        Tree { entries: sorted, datatype: Datatype::Tree, oid: None }
    }

    fn bytes(&self) -> (bytes: Vec<u8>) {
        let mut content: Vec<u8> = Vec::new();
        let mut i: usize = 0;
        assert(self.entries().take(0) =~= Seq::empty());
        while i < self.entries.len()
            invariant
                i <= self.entries.len(),
                identifiers_are_hex(self.entries()),
                self.entries() == self.entries.deep_view(),
                content@ == tree_payload(self.entries().take(i as int)),
            decreases self.entries.len() - i,
        {
            let entry = &self.entries[i];
            proof {
                reveal_strlit(" ");
                reveal_strlit("\0");
                assert(entry@ == self.entries()[i as int]);
                assert(is_hex(self.entries()[i as int].oid));
            }
            let mut raw = decode_hex(&entry.oid).unwrap();
            let mut text = entry.mode.clone();
            text.append(" ");
            text.append(entry.path.as_str());
            text.append("\0");
            assert(text@ =~= entry@.mode + seq![' '] + entry@.path + seq!['\0']);
            let mut head = text.as_str().as_bytes_vec();
            content.append(&mut head);
            content.append(&mut raw);
            proof {
                let next = self.entries().take(i + 1);
                assert(next.drop_last() =~= self.entries().take(i as int));
                assert(next.last() == entry@);
                assert(content@ =~= tree_payload(next.drop_last()) + entry_bytes(entry@));
            }
            i += 1;
        }
        assert(self.entries().take(i as int) =~= self.entries());
        content
    }

    fn datatype(&self) -> (datatype: &Datatype) {
        &self.datatype
    }

    fn oid(&self) -> (oid: Option<&String>) {
        self.oid.as_ref()
    }

    /// Gives the tree its identifier. The entries stay as they are.
    fn set_oid(&mut self, oid: String)
        ensures
            final(self).entries() == old(self).entries(),
    {
        self.oid = Some(oid);
    }
}

} // verus!
