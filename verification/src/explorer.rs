//! The file explorer: the set of expanded folders, the order in which a
//! folder's entries are listed, and the tree of rows built from what was read
//! of the file system.
use vstd::prelude::*;
use crate::paths::{file_name_of, lowercase_of, same_path, path_file_name, to_lowercase, path_eq};
use crate::paths::{chars_of, display_name, name_for_path};
use crate::text::string_of;

verus! {

/// One row of the explorer.
pub struct ExplorerItem {
    pub path: String,
    pub depth: usize,
    pub is_dir: bool,
    pub name: String,
}

/// The abstract content of a row.
pub struct ItemView {
    pub path: Seq<char>,
    pub depth: nat,
    pub is_dir: bool,
    pub name: Seq<char>,
}

impl View for ExplorerItem {
    type V = ItemView;

    open spec fn view(&self) -> ItemView {
        ItemView { path: self.path@, depth: self.depth as nat, is_dir: self.is_dir, name: self.name@ }
    }
}

impl ExplorerItem {
    /// A copy of the row.
    pub fn duplicate(&self) -> (r: ExplorerItem)
        ensures
            r@ == self@,
    {
        ExplorerItem {
            path: self.path.clone(),
            depth: self.depth,
            is_dir: self.is_dir,
            name: self.name.clone(),
        }
    }
}

/// The rows of a vector of explorer items.
pub open spec fn items_view(v: Seq<ExplorerItem>) -> Seq<ItemView> {
    Seq::new(v.len(), |i: int| v[i]@)
}

/// One entry of a folder as it was read: its path and whether it is a folder.
pub struct DirEntry {
    pub path: String,
    pub is_dir: bool,
}

/// The abstract content of a folder entry.
pub struct EntryView {
    pub path: Seq<char>,
    pub is_dir: bool,
}

impl View for DirEntry {
    type V = EntryView;

    open spec fn view(&self) -> EntryView {
        EntryView { path: self.path@, is_dir: self.is_dir }
    }
}

pub open spec fn entries_view(v: Seq<DirEntry>) -> Seq<EntryView> {
    Seq::new(v.len(), |i: int| v[i]@)
}

/* Ordering of a folder's entries */

/// `a` comes strictly before `b` in lexicographic order of characters (which
/// is also the order of their UTF-8 bytes, the order of `String`'s `cmp`).
pub open spec fn lex_lt(a: Seq<char>, b: Seq<char>) -> bool
    decreases a.len(),
{
    if a.len() == 0 {
        b.len() > 0
    } else if b.len() == 0 {
        false
    } else if a[0] != b[0] {
        (a[0] as u32) < (b[0] as u32)
    } else {
        lex_lt(a.drop_first(), b.drop_first())
    }
}

/// What entries are ordered by after folders-first: the lower-cased file name
/// (empty when the path has none).
pub open spec fn sort_key(p: Seq<char>) -> Seq<char> {
    lowercase_of(
        match file_name_of(p) {
            Some(n) => n,
            None => Seq::empty(),
        },
    )
}

/// Entry `a` is listed strictly before entry `b`: folders before files, and
/// within each, by lower-cased file name.
pub open spec fn entry_before(a: EntryView, b: EntryView) -> bool {
    ||| (a.is_dir && !b.is_dir)
    ||| (a.is_dir == b.is_dir && lex_lt(sort_key(a.path), sort_key(b.path)))
}

/// Where `x` goes into `s`: before the first entry it comes strictly before.
pub open spec fn insert_pos(s: Seq<EntryView>, x: EntryView) -> int
    decreases s.len(),
{
    if s.len() == 0 {
        0
    } else if entry_before(x, s.last()) {
        insert_pos(s.drop_last(), x)
    } else {
        s.len() as int
    }
}

/// The entries of a folder in the order the explorer lists them: a stable
/// sort by [`entry_before`] (entries that tie keep the order they were read in).
pub open spec fn sort_entries(es: Seq<EntryView>) -> Seq<EntryView>
    decreases es.len(),
{
    if es.len() == 0 {
        es
    } else {
        let s = sort_entries(es.drop_last());
        s.insert(insert_pos(s, es.last()), es.last())
    }
}

/// No entry comes after a later one in `s`.
pub open spec fn entries_sorted(s: Seq<EntryView>) -> bool {
    forall|i: int, j: int| 0 <= i < j < s.len() ==> !entry_before(#[trigger] s[j], #[trigger] s[i])
}

proof fn lemma_lex_irreflexive(a: Seq<char>)
    ensures
        !lex_lt(a, a),
    decreases a.len(),
{
    if a.len() > 0 {
        lemma_lex_irreflexive(a.drop_first());
    }
}

proof fn lemma_lex_transitive(a: Seq<char>, b: Seq<char>, c: Seq<char>)
    requires
        lex_lt(a, b),
        lex_lt(b, c),
    ensures
        lex_lt(a, c),
    decreases a.len(),
{
    if a.len() > 0 && b.len() > 0 && c.len() > 0 && a[0] == b[0] && b[0] == c[0] {
        lemma_lex_transitive(a.drop_first(), b.drop_first(), c.drop_first());
    }
}

proof fn lemma_lex_total(a: Seq<char>, b: Seq<char>)
    requires
        a != b,
    ensures
        lex_lt(a, b) || lex_lt(b, a),
    decreases a.len(),
{
    if a.len() > 0 && b.len() > 0 && a[0] == b[0] {
        if a.drop_first() == b.drop_first() {
            assert(a =~= seq![a[0]] + a.drop_first());
            assert(b =~= seq![b[0]] + b.drop_first());
        }
        lemma_lex_total(a.drop_first(), b.drop_first());
    } else if a.len() > 0 && b.len() > 0 {
        vstd::utf8::char_u32_cast(a[0], a[0] as u32);
        vstd::utf8::char_u32_cast(b[0], b[0] as u32);
        assert((a[0] as u32) != (b[0] as u32));
    } else if a.len() == 0 && b.len() == 0 {
        assert(a =~= b);
    }
}

/// Entry order is a strict weak order: irreflexive, asymmetric, transitive,
/// and an entry strictly between two others in order is comparable to one of them.
proof fn lemma_entry_order(x: EntryView, y: EntryView, z: EntryView)
    ensures
        !entry_before(x, x),
        entry_before(x, y) ==> !entry_before(y, x),
        entry_before(x, y) && entry_before(y, z) ==> entry_before(x, z),
        entry_before(x, z) ==> entry_before(x, y) || entry_before(y, z),
{
    let (kx, ky, kz) = (sort_key(x.path), sort_key(y.path), sort_key(z.path));
    lemma_lex_irreflexive(kx);
    lemma_lex_irreflexive(ky);
    if lex_lt(kx, ky) && lex_lt(ky, kx) {
        lemma_lex_transitive(kx, ky, kx);
    }
    if lex_lt(kx, ky) && lex_lt(ky, kz) {
        lemma_lex_transitive(kx, ky, kz);
    }
    if kx != ky {
        lemma_lex_total(kx, ky);
    }
    if ky != kz {
        lemma_lex_total(ky, kz);
    }
    if lex_lt(ky, kx) && lex_lt(kx, kz) {
        lemma_lex_transitive(ky, kx, kz);
    }
    if lex_lt(kx, kz) && lex_lt(kz, ky) {
        lemma_lex_transitive(kx, kz, ky);
    }
}

proof fn lemma_insert_pos(s: Seq<EntryView>, x: EntryView)
    ensures
        0 <= insert_pos(s, x) <= s.len(),
        forall|k: int| insert_pos(s, x) <= k < s.len() ==> entry_before(x, #[trigger] s[k]),
        insert_pos(s, x) > 0 ==> !entry_before(x, s[insert_pos(s, x) - 1]),
    decreases s.len(),
{
    if s.len() > 0 && entry_before(x, s.last()) {
        lemma_insert_pos(s.drop_last(), x);
        assert forall|k: int| insert_pos(s, x) <= k < s.len() implies entry_before(x, #[trigger] s[k]) by {
            if k < s.len() - 1 {
                assert(s[k] == s.drop_last()[k]);
            }
        }
    }
}

/// Law: the explorer lists a folder's entries sorted (folders first, then by
/// lower-cased name) and loses or adds none.
pub proof fn law_sort_entries(es: Seq<EntryView>)
    ensures
        entries_sorted(sort_entries(es)),
        sort_entries(es).to_multiset() == es.to_multiset(),
        sort_entries(es).len() == es.len(),
    decreases es.len(),
{
    broadcast use vstd::seq_lib::to_multiset_insert, vstd::seq_lib::to_multiset_build;

    if es.len() > 0 {
        let rest = es.drop_last();
        let x = es.last();
        law_sort_entries(rest);
        let s = sort_entries(rest);
        let p = insert_pos(s, x);
        lemma_insert_pos(s, x);
        let t = s.insert(p, x);
        assert forall|i: int, j: int| 0 <= i < j < t.len() implies !entry_before(#[trigger] t[j], #[trigger] t[i]) by {
            if i < p && j < p {
                assert(t[i] == s[i] && t[j] == s[j]);
            } else if i > p && j > p {
                assert(t[i] == s[i - 1] && t[j] == s[j - 1]);
            } else if i < p && j == p {
                lemma_entry_order(x, s[p - 1], s[i]);
                if i < p - 1 {
                    assert(!entry_before(s[p - 1], s[i]));
                }
                assert(t[i] == s[i]);
            } else if i < p && j > p {
                assert(t[i] == s[i] && t[j] == s[j - 1]);
            } else {
                assert(i == p && j > p);
                assert(t[j] == s[j - 1]);
                lemma_entry_order(x, s[j - 1], x);
            }
        }
        assert(es =~= rest.push(x));
    }
}

/// Neither entry comes before the other: the order ties them.
pub open spec fn entries_tie(a: EntryView, b: EntryView) -> bool {
    !entry_before(a, b) && !entry_before(b, a)
}

proof fn lemma_filter_one(x: EntryView, pred: spec_fn(EntryView) -> bool)
    ensures
        seq![x].filter(pred) == (if pred(x) {
            seq![x]
        } else {
            Seq::<EntryView>::empty()
        }),
{
    reveal_with_fuel(Seq::filter, 2);
    assert(seq![x].drop_last() =~= Seq::<EntryView>::empty());
    assert(Seq::<EntryView>::empty().push(x) =~= seq![x]);
}

proof fn lemma_filter_none(s: Seq<EntryView>, pred: spec_fn(EntryView) -> bool)
    requires
        forall|k: int| 0 <= k < s.len() ==> !pred(#[trigger] s[k]),
    ensures
        s.filter(pred) == Seq::<EntryView>::empty(),
    decreases s.len(),
{
    reveal(Seq::filter);
    if s.len() > 0 {
        assert forall|k: int| 0 <= k < s.drop_last().len() implies !pred(#[trigger] s.drop_last()[k]) by {
            assert(s.drop_last()[k] == s[k]);
        }
        lemma_filter_none(s.drop_last(), pred);
        assert(!pred(s[s.len() - 1]));
    }
}

/// Law: the sort is stable: the entries that tie with any entry `y` come out
/// in the order they were read in.
pub proof fn law_sort_entries_stable(es: Seq<EntryView>, y: EntryView)
    ensures
        sort_entries(es).filter(|e: EntryView| entries_tie(e, y)) == es.filter(
            |e: EntryView| entries_tie(e, y),
        ),
    decreases es.len(),
{
    let pred = |e: EntryView| entries_tie(e, y);
    if es.len() > 0 {
        let rest = es.drop_last();
        let x = es.last();
        law_sort_entries_stable(rest, y);
        let s = sort_entries(rest);
        let p = insert_pos(s, x);
        lemma_insert_pos(s, x);
        let (front, back) = (s.take(p), s.skip(p));
        assert(s.insert(p, x) =~= front + seq![x] + back);
        assert(s =~= front + back);
        Seq::filter_distributes_over_add(front + seq![x], back, pred);
        Seq::filter_distributes_over_add(front, seq![x], pred);
        Seq::filter_distributes_over_add(front, back, pred);
        lemma_filter_one(x, pred);
        assert(es =~= rest.push(x));
        reveal_with_fuel(Seq::filter, 1);
        assert(es.filter(pred) == if pred(x) {
            rest.filter(pred).push(x)
        } else {
            rest.filter(pred)
        });
        if pred(x) {
            assert forall|k: int| 0 <= k < back.len() implies !pred(#[trigger] back[k]) by {
                assert(back[k] == s[p + k]);
                lemma_entry_order(x, y, back[k]);
            }
            lemma_filter_none(back, pred);
            assert(front.filter(pred) + seq![x] + Seq::<EntryView>::empty() =~= (front.filter(pred)
                + Seq::<EntryView>::empty()).push(x));
        } else {
            assert(front.filter(pred) + Seq::<EntryView>::empty() =~= front.filter(pred));
        }
    }
}

/// Compares two character vectors lexicographically.
pub fn chars_lt(a: &Vec<char>, b: &Vec<char>) -> (r: bool)
    ensures
        r == lex_lt(a@, b@),
{
    let mut i: usize = 0;
    proof {
        assert(a@.skip(0) =~= a@);
        assert(b@.skip(0) =~= b@);
    }
    while i < a.len() && i < b.len() && a[i] == b[i]
        invariant
            i <= a@.len(),
            i <= b@.len(),
            lex_lt(a@, b@) == lex_lt(a@.skip(i as int), b@.skip(i as int)),
        decreases a@.len() - i,
    {
        proof {
            let sa = a@.skip(i as int);
            let sb = b@.skip(i as int);
            assert(sa.drop_first() =~= a@.skip(i + 1));
            assert(sb.drop_first() =~= b@.skip(i + 1));
            assert(sa[0] == sb[0]);
        }
        i = i + 1;
    }
    let ghost sa = a@.skip(i as int);
    let ghost sb = b@.skip(i as int);
    if i == a.len() {
        proof {
            assert(sa.len() == 0);
        }
        i < b.len()
    } else if i == b.len() {
        false
    } else {
        proof {
            assert(sa[0] == a@[i as int]);
            assert(sb[0] == b@[i as int]);
        }
        (a[i] as u32) < (b[i] as u32)
    }
}

/// An entry together with what it is sorted by.
struct Keyed {
    key: Vec<char>,
    entry: DirEntry,
}

spec fn keyed_ok(k: Keyed) -> bool {
    k.key@ == sort_key(k.entry.path@)
}

/// The lower-cased file name of a path (empty when it has none).
fn key_of(p: &str) -> (k: Vec<char>)
    ensures
        k@ == sort_key(p@),
{
    match path_file_name(p) {
        Some(n) => {
            let l = to_lowercase(n.as_str());
            chars_of(l.as_str())
        },
        None => {
            let e = String::new();
            let l = to_lowercase(e.as_str());
            chars_of(l.as_str())
        },
    }
}

fn keyed_before(a: &Keyed, b: &Keyed) -> (r: bool)
    requires
        keyed_ok(*a),
        keyed_ok(*b),
    ensures
        r == entry_before(a.entry@, b.entry@),
{
    (a.entry.is_dir && !b.entry.is_dir) || (a.entry.is_dir == b.entry.is_dir && chars_lt(
        &a.key,
        &b.key,
    ))
}

spec fn keyed_entries(v: Seq<Keyed>) -> Seq<EntryView> {
    Seq::new(v.len(), |i: int| v[i].entry@)
}

/// Lists a folder's entries in explorer order (see [`sort_entries`]).
pub fn sort_dir_entries(entries: &Vec<DirEntry>) -> (sorted: Vec<DirEntry>)
    ensures
        entries_view(sorted@) == sort_entries(entries_view(entries@)),
{
    let ghost orig = entries_view(entries@);
    let mut keyed: Vec<Keyed> = Vec::new();
    let n = entries.len();
    for i in 0..n
        invariant
            n == entries@.len(),
            orig == entries_view(entries@),
            forall|k: int| 0 <= k < keyed@.len() ==> keyed_ok(#[trigger] keyed@[k]),
            keyed_entries(keyed@) == sort_entries(orig.take(i as int)),
    {
        let x = Keyed {
            key: key_of(entries[i].path.as_str()),
            entry: DirEntry { path: entries[i].path.clone(), is_dir: entries[i].is_dir },
        };
        let ghost s = keyed_entries(keyed@);
        let mut j = keyed.len();
        proof {
            assert(s.take(j as int) =~= s);
        }
        while j > 0 && keyed_before(&x, &keyed[j - 1])
            invariant
                j <= keyed@.len(),
                keyed_ok(x),
                forall|k: int| 0 <= k < keyed@.len() ==> keyed_ok(#[trigger] keyed@[k]),
                s == keyed_entries(keyed@),
                insert_pos(s, x.entry@) == insert_pos(s.take(j as int), x.entry@),
            decreases j,
        {
            proof {
                assert(s.take(j as int).drop_last() =~= s.take(j - 1));
                assert(s.take(j as int).last() == keyed@[j - 1].entry@);
            }
            j = j - 1;
        }
        proof {
            if j > 0 {
                assert(s.take(j as int).last() == keyed@[j - 1].entry@);
                assert(s.take(j as int).len() == j);
            } else {
                assert(s.take(0).len() == 0);
            }
            assert(orig.take(i + 1).drop_last() =~= orig.take(i as int));
            assert(orig.take(i + 1).last() == x.entry@);
        }
        keyed.insert(j, x);
        proof {
            assert(keyed_entries(keyed@) =~= s.insert(j as int, x.entry@));
        }
    }
    let mut sorted: Vec<DirEntry> = Vec::new();
    let m = keyed.len();
    for k in 0..m
        invariant
            m == keyed@.len(),
            sorted@.len() == k,
            entries_view(sorted@) == keyed_entries(keyed@).take(k as int),
    {
        sorted.push(DirEntry { path: keyed[k].entry.path.clone(), is_dir: keyed[k].entry.is_dir });
        proof {
            assert(sorted@[k as int]@ == keyed@[k as int].entry@);
            assert(entries_view(sorted@) =~= keyed_entries(keyed@).take(k + 1));
        }
    }
    proof {
        assert(orig.take(n as int) =~= orig);
        assert(keyed_entries(keyed@).take(m as int) =~= keyed_entries(keyed@));
    }
    sorted
}

/* The set of expanded folders */

/// `set` holds a path equal (as paths) to `p`.
pub open spec fn has_path(set: Seq<Seq<char>>, p: Seq<char>) -> bool {
    exists|i: int| 0 <= i < set.len() && same_path(#[trigger] set[i], p)
}

/// No two of the paths are equal as paths (a set of folders).
pub open spec fn distinct_paths(set: Seq<Seq<char>>) -> bool {
    forall|i: int, j: int| 0 <= i < j < set.len() ==> !same_path(#[trigger] set[i], #[trigger] set[j])
}

/// Adding a path that is not there keeps the paths distinct.
pub proof fn lemma_distinct_push(set: Seq<Seq<char>>, p: Seq<char>)
    requires
        distinct_paths(set),
        !has_path(set, p),
    ensures
        distinct_paths(set.push(p)),
{
    let s2 = set.push(p);
    assert forall|i: int, j: int| 0 <= i < j < s2.len() implies !same_path(#[trigger] s2[i], #[trigger] s2[j]) by {
        assert(s2[i] == set[i]);
        if j == set.len() {
            if same_path(set[i], p) {
                assert(has_path(set, p));
            }
        } else {
            assert(s2[j] == set[j]);
        }
    }
}

/// Taking paths out keeps the rest distinct.
pub proof fn lemma_distinct_filter(set: Seq<Seq<char>>, pred: spec_fn(Seq<char>) -> bool)
    requires
        distinct_paths(set),
    ensures
        distinct_paths(set.filter(pred)),
    decreases set.len(),
{
    reveal(Seq::filter);
    if set.len() > 0 {
        let s0 = set.drop_last();
        assert(distinct_paths(s0)) by {
            assert forall|i: int, j: int| 0 <= i < j < s0.len() implies !same_path(#[trigger] s0[i], #[trigger] s0[j]) by {
                assert(s0[i] == set[i] && s0[j] == set[j]);
            }
        }
        lemma_distinct_filter(s0, pred);
        let f0 = s0.filter(pred);
        if pred(set.last()) {
            let f = f0.push(set.last());
            assert forall|i: int, j: int| 0 <= i < j < f.len() implies !same_path(#[trigger] f[i], #[trigger] f[j]) by {
                assert(f[i] == f0[i]);
                if j == f0.len() {
                    assert(f0.contains(f0[i]));
                    s0.lemma_filter_contains_rev(pred, f0[i]);
                    let k = choose|k: int| 0 <= k < s0.len() && s0[k] == f0[i];
                    assert(set[k] == s0[k]);
                    assert(!same_path(set[k], set[set.len() - 1]));
                } else {
                    assert(f[j] == f0[j]);
                }
            }
        }
    }
}

/// The paths of a vector of strings.
pub open spec fn paths_view(v: Seq<String>) -> Seq<Seq<char>> {
    Seq::new(v.len(), |i: int| v[i]@)
}

/// `HashSet::contains` on the expanded folders.
pub fn dirs_contains(set: &Vec<String>, p: &str) -> (r: bool)
    ensures
        r == has_path(paths_view(set@), p@),
{
    let n = set.len();
    for i in 0..n
        invariant
            n == set@.len(),
            forall|k: int| 0 <= k < i ==> !same_path(#[trigger] paths_view(set@)[k], p@),
    {
        if path_eq(set[i].as_str(), p) {
            assert(same_path(paths_view(set@)[i as int], p@));
            return true;
        }
    }
    false
}

/// `HashSet::insert` on the expanded folders: added unless already there.
pub fn dirs_insert(set: &mut Vec<String>, p: String)
    ensures
        paths_view(final(set)@) == if has_path(paths_view(old(set)@), p@) {
            paths_view(old(set)@)
        } else {
            paths_view(old(set)@).push(p@)
        },
{
    if !dirs_contains(set, p.as_str()) {
        set.push(p);
        proof {
            assert(paths_view(set@) =~= paths_view(old(set)@).push(p@));
        }
    }
}

/// `HashSet::remove` on the expanded folders: what equals `p` is taken out.
pub fn dirs_remove(set: &mut Vec<String>, p: &str)
    ensures
        paths_view(final(set)@) == paths_view(old(set)@).filter(|q: Seq<char>| !same_path(q, p@)),
{
    let ghost orig = paths_view(set@);
    let mut kept: Vec<String> = Vec::new();
    let n = set.len();
    for i in 0..n
        invariant
            n == set@.len(),
            orig == paths_view(set@),
            paths_view(kept@) == orig.take(i as int).filter(|q: Seq<char>| !same_path(q, p@)),
    {
        proof {
            assert(orig.take(i + 1).drop_last() =~= orig.take(i as int));
            reveal_with_fuel(Seq::<_>::filter, 1);
        }
        if !path_eq(set[i].as_str(), p) {
            kept.push(set[i].clone());
            proof {
                assert(paths_view(kept@) =~= orig.take(i as int).filter(|q: Seq<char>| !same_path(q, p@)).push(orig[i as int]));
            }
        }
    }
    proof {
        assert(orig.take(n as int) =~= orig);
    }
    *set = kept;
}

/* What was read of the file system */

/// What was learnt about one path: whether it is a folder and, for a folder,
/// its entries as read (in the order read) or the message of the error that
/// reading it gave.
pub struct Probe {
    pub path: String,
    pub is_dir: bool,
    pub listing: Result<Vec<DirEntry>, String>,
}

/// The abstract content of a probe.
pub struct ProbeView {
    pub path: Seq<char>,
    pub is_dir: bool,
    pub listing: Result<Seq<EntryView>, Seq<char>>,
}

impl View for Probe {
    type V = ProbeView;

    open spec fn view(&self) -> ProbeView {
        ProbeView {
            path: self.path@,
            is_dir: self.is_dir,
            listing: match self.listing {
                Ok(es) => Ok(entries_view(es@)),
                Err(e) => Err(e@),
            },
        }
    }
}

/// What the explorer was given of the file system: one probe per path read.
pub struct FsSnapshot {
    pub probes: Vec<Probe>,
}

impl View for FsSnapshot {
    type V = Seq<ProbeView>;

    open spec fn view(&self) -> Seq<ProbeView> {
        Seq::new(self.probes@.len(), |i: int| self.probes@[i]@)
    }
}

/// The first probe at or after `i` of a path equal to `p`.
pub open spec fn find_from(ps: Seq<ProbeView>, p: Seq<char>, i: int) -> Option<int>
    decreases ps.len() - i,
{
    if i < 0 || i >= ps.len() {
        None
    } else if same_path(ps[i].path, p) {
        Some(i)
    } else {
        find_from(ps, p, i + 1)
    }
}

/// The first probe of a path equal to `p`.
pub open spec fn find_probe(ps: Seq<ProbeView>, p: Seq<char>) -> Option<int> {
    find_from(ps, p, 0)
}

proof fn lemma_find_from_range(ps: Seq<ProbeView>, p: Seq<char>, i: int)
    ensures
        find_from(ps, p, i) matches Some(k) ==> 0 <= k < ps.len() && same_path(ps[k].path, p),
    decreases ps.len() - i,
{
    if 0 <= i < ps.len() && !same_path(ps[i].path, p) {
        lemma_find_from_range(ps, p, i + 1);
    }
}

/// Looks up the probe of `p`.
pub fn snapshot_find(fs: &FsSnapshot, p: &str) -> (r: Option<usize>)
    ensures
        match r {
            Some(i) => find_probe(fs@, p@) == Some(i as int) && i < fs@.len(),
            None => find_probe(fs@, p@) is None,
        },
{
    let n = fs.probes.len();
    for i in 0..n
        invariant
            n == fs@.len(),
            find_probe(fs@, p@) == find_from(fs@, p@, i as int),
    {
        if path_eq(fs.probes[i].path.as_str(), p) {
            return Some(i);
        }
    }
    None
}

/// Whether the snapshot says `p` is a folder (not when it was not probed).
pub open spec fn probed_dir(ps: Seq<ProbeView>, p: Seq<char>) -> bool {
    match find_probe(ps, p) {
        Some(i) => ps[i].is_dir,
        None => false,
    }
}

/* The tree of rows */

/// The name a row shows: the whole path for the root, else the file name.
pub open spec fn row_name(p: Seq<char>, depth: nat) -> Seq<char> {
    if depth == 0 {
        p
    } else {
        display_name(p)
    }
}

/// The rows for `path` and, when it is an expanded folder, everything listed
/// under it (each folder's entries in [`sort_entries`] order); with the error
/// from reading `path` itself, if that failed. Errors from reading folders
/// further down are ignored: those folders simply show no entries. A folder
/// with no probe is shown without entries. `budget` bounds how many expanded
/// folders deep the walk goes; starting it at the number of probes never cuts
/// a walk short, since every folder on a chain of expanded folders has a probe
/// of its own.
pub open spec fn walk(
    ps: Seq<ProbeView>,
    exp: Seq<Seq<char>>,
    path: Seq<char>,
    is_dir: bool,
    depth: nat,
    budget: nat,
) -> (Seq<ItemView>, Result<(), Seq<char>>)
    decreases budget, 0nat, 0nat,
{
    let item = ItemView { path, depth, is_dir, name: row_name(path, depth) };
    if is_dir && has_path(exp, path) && budget > 0 {
        match find_probe(ps, path) {
            Some(i) => match ps[i].listing {
                Err(e) => (seq![item], Err(e)),
                Ok(es) => (
                    seq![item] + walk_list(ps, exp, sort_entries(es), 0, depth + 1, (budget - 1) as nat),
                    Ok(()),
                ),
            },
            None => (seq![item], Ok(())),
        }
    } else {
        (seq![item], Ok(()))
    }
}

/// The rows for the entries `es[k..]`, one after the other.
pub open spec fn walk_list(
    ps: Seq<ProbeView>,
    exp: Seq<Seq<char>>,
    es: Seq<EntryView>,
    k: int,
    depth: nat,
    budget: nat,
) -> Seq<ItemView>
    decreases budget, 1nat, es.len() - k,
{
    if k < 0 || k >= es.len() {
        seq![]
    } else {
        walk(ps, exp, es[k].path, es[k].is_dir, depth, budget).0 + walk_list(
            ps,
            exp,
            es,
            k + 1,
            depth,
            budget,
        )
    }
}

/// The rows of the explorer for workspace `root`, and the error from reading
/// the root folder, if any. No workspace, no rows.
pub open spec fn tree(ps: Seq<ProbeView>, exp: Seq<Seq<char>>, root: Option<Seq<char>>) -> (
    Seq<ItemView>,
    Result<(), Seq<char>>,
) {
    match root {
        Some(r) => walk(ps, exp, r, probed_dir(ps, r), 0, ps.len()),
        None => (seq![], Ok(())),
    }
}

/// Rows form an outline starting at level `d`: the first row is at level
/// `d`, none is above it, and each row is at most one level below the row before.
pub open spec fn outline(rows: Seq<ItemView>, d: nat) -> bool {
    &&& forall|i: int| 0 <= i < rows.len() ==> (#[trigger] rows[i]).depth >= d
    &&& rows.len() > 0 ==> rows[0].depth == d
    &&& forall|i: int| 0 < i < rows.len() ==> (#[trigger] rows[i]).depth <= rows[i - 1].depth + 1
}

proof fn lemma_outline_concat(a: Seq<ItemView>, b: Seq<ItemView>, d: nat)
    requires
        outline(a, d),
        outline(b, d),
        a.len() > 0,
    ensures
        outline(a + b, d),
{
    let c = a + b;
    assert forall|i: int| 0 < i < c.len() implies (#[trigger] c[i]).depth <= c[i - 1].depth + 1 by {
        if i < a.len() {
            assert(c[i] == a[i] && c[i - 1] == a[i - 1]);
        } else if i == a.len() {
            assert(c[i] == b[0] && c[i - 1] == a[i - 1]);
        } else {
            assert(c[i] == b[i - a.len()] && c[i - 1] == b[i - 1 - a.len()]);
        }
    }
    assert forall|i: int| 0 <= i < c.len() implies (#[trigger] c[i]).depth >= d by {
        if i < a.len() {
            assert(c[i] == a[i]);
        } else {
            assert(c[i] == b[i - a.len()]);
        }
    }
}

proof fn lemma_walk_outline(
    ps: Seq<ProbeView>,
    exp: Seq<Seq<char>>,
    path: Seq<char>,
    is_dir: bool,
    depth: nat,
    budget: nat,
)
    ensures
        outline(walk(ps, exp, path, is_dir, depth, budget).0, depth),
        walk(ps, exp, path, is_dir, depth, budget).0.len() >= 1,
        walk(ps, exp, path, is_dir, depth, budget).0[0] == (ItemView {
            path,
            depth,
            is_dir,
            name: row_name(path, depth),
        }),
    decreases budget, 0nat, 0nat,
{
    let item = ItemView { path, depth, is_dir, name: row_name(path, depth) };
    if is_dir && has_path(exp, path) && budget > 0 {
        match find_probe(ps, path) {
            Some(i) => match ps[i].listing {
                Ok(es) => {
                    let kids = walk_list(ps, exp, sort_entries(es), 0, depth + 1, (budget - 1) as nat);
                    lemma_walk_list_outline(ps, exp, sort_entries(es), 0, depth + 1, (budget - 1) as nat);
                    let all = seq![item] + kids;
                    assert forall|k: int| 0 < k < all.len() implies (#[trigger] all[k]).depth <= all[k - 1].depth + 1 by {
                        if k == 1 {
                            assert(all[1] == kids[0]);
                        } else {
                            assert(all[k] == kids[k - 1] && all[k - 1] == kids[k - 2]);
                        }
                    }
                    assert forall|k: int| 0 <= k < all.len() implies (#[trigger] all[k]).depth >= depth by {
                        if k > 0 {
                            assert(all[k] == kids[k - 1]);
                        }
                    }
                },
                Err(_) => {},
            },
            None => {},
        }
    }
}

proof fn lemma_walk_list_outline(
    ps: Seq<ProbeView>,
    exp: Seq<Seq<char>>,
    es: Seq<EntryView>,
    k: int,
    depth: nat,
    budget: nat,
)
    ensures
        outline(walk_list(ps, exp, es, k, depth, budget), depth),
    decreases budget, 1nat, es.len() - k,
{
    if 0 <= k < es.len() {
        lemma_walk_outline(ps, exp, es[k].path, es[k].is_dir, depth, budget);
        lemma_walk_list_outline(ps, exp, es, k + 1, depth, budget);
        lemma_outline_concat(
            walk(ps, exp, es[k].path, es[k].is_dir, depth, budget).0,
            walk_list(ps, exp, es, k + 1, depth, budget),
            depth,
        );
    }
}

/// Law: with a workspace open, the explorer's rows form an outline: the
/// first row is the workspace root itself (level 0, named by its full path),
/// and every row is at most one level below the row above it.
pub proof fn law_tree_outline(ps: Seq<ProbeView>, exp: Seq<Seq<char>>, root: Seq<char>)
    ensures
        outline(tree(ps, exp, Some(root)).0, 0),
        tree(ps, exp, Some(root)).0.len() >= 1,
        tree(ps, exp, Some(root)).0[0] == (ItemView {
            path: root,
            depth: 0,
            is_dir: probed_dir(ps, root),
            name: root,
        }),
{
    lemma_walk_outline(ps, exp, root, probed_dir(ps, root), 0, ps.len());
}

/// The row that shows entry `e` at level `d`.
pub open spec fn entry_row(e: EntryView, d: nat) -> ItemView {
    ItemView { path: e.path, depth: d, is_dir: e.is_dir, name: row_name(e.path, d) }
}

/// The rows below the first row of a walk are one level deeper or more.
proof fn lemma_walk_rest_deeper(
    ps: Seq<ProbeView>,
    exp: Seq<Seq<char>>,
    path: Seq<char>,
    is_dir: bool,
    depth: nat,
    budget: nat,
)
    ensures
        forall|j: int|
            1 <= j < walk(ps, exp, path, is_dir, depth, budget).0.len() ==> (#[trigger] walk(
                ps,
                exp,
                path,
                is_dir,
                depth,
                budget,
            ).0[j]).depth > depth,
{
    let w = walk(ps, exp, path, is_dir, depth, budget).0;
    if is_dir && has_path(exp, path) && budget > 0 {
        match find_probe(ps, path) {
            Some(i) => match ps[i].listing {
                Ok(es) => {
                    let kids = walk_list(ps, exp, sort_entries(es), 0, depth + 1, (budget - 1) as nat);
                    lemma_walk_list_outline(ps, exp, sort_entries(es), 0, depth + 1, (budget - 1) as nat);
                    assert forall|j: int| 1 <= j < w.len() implies (#[trigger] w[j]).depth > depth by {
                        assert(w[j] == kids[j - 1]);
                    }
                },
                Err(_) => {},
            },
            None => {},
        }
    }
}

proof fn lemma_filter_none_rows(s: Seq<ItemView>, pred: spec_fn(ItemView) -> bool)
    requires
        forall|k: int| 0 <= k < s.len() ==> !pred(#[trigger] s[k]),
    ensures
        s.filter(pred) == Seq::<ItemView>::empty(),
    decreases s.len(),
{
    reveal(Seq::filter);
    if s.len() > 0 {
        assert forall|k: int| 0 <= k < s.drop_last().len() implies !pred(#[trigger] s.drop_last()[k]) by {
            assert(s.drop_last()[k] == s[k]);
        }
        lemma_filter_none_rows(s.drop_last(), pred);
        assert(!pred(s[s.len() - 1]));
    }
}

/// The rows at level `d` of the walks of entries `es[k..]` are those entries.
proof fn lemma_walk_list_children(
    ps: Seq<ProbeView>,
    exp: Seq<Seq<char>>,
    es: Seq<EntryView>,
    k: int,
    d: nat,
    budget: nat,
)
    requires
        0 <= k <= es.len(),
    ensures
        walk_list(ps, exp, es, k, d, budget).filter(|r: ItemView| r.depth == d) == es.subrange(
            k,
            es.len() as int,
        ).map_values(|e: EntryView| entry_row(e, d)),
    decreases es.len() - k,
{
    let pred = |r: ItemView| r.depth == d;
    if k == es.len() {
        assert(walk_list(ps, exp, es, k, d, budget) =~= Seq::<ItemView>::empty());
        reveal(Seq::filter);
        assert(es.subrange(k, es.len() as int).map_values(|e: EntryView| entry_row(e, d)) =~= Seq::<
            ItemView,
        >::empty());
    } else {
        lemma_walk_list_children(ps, exp, es, k + 1, d, budget);
        let w = walk(ps, exp, es[k].path, es[k].is_dir, d, budget).0;
        let rest = walk_list(ps, exp, es, k + 1, d, budget);
        lemma_walk_outline(ps, exp, es[k].path, es[k].is_dir, d, budget);
        lemma_walk_rest_deeper(ps, exp, es[k].path, es[k].is_dir, d, budget);
        assert(w =~= seq![w[0]] + w.drop_first());
        assert forall|j: int| 0 <= j < w.drop_first().len() implies !pred(#[trigger] w.drop_first()[j]) by {
            assert(w.drop_first()[j] == w[j + 1]);
        }
        lemma_filter_none_rows(w.drop_first(), pred);
        Seq::filter_distributes_over_add(seq![w[0]], w.drop_first(), pred);
        Seq::filter_distributes_over_add(w, rest, pred);
        reveal_with_fuel(Seq::filter, 2);
        assert(seq![w[0]].drop_last() =~= Seq::<ItemView>::empty());
        assert(seq![w[0]].filter(pred) =~= seq![w[0]]);
        assert(w[0] == entry_row(es[k], d));
        assert(es.subrange(k, es.len() as int).map_values(|e: EntryView| entry_row(e, d)) =~= seq![
            entry_row(es[k], d),
        ] + es.subrange(k + 1, es.len() as int).map_values(|e: EntryView| entry_row(e, d)));
        assert(seq![w[0]] + Seq::<ItemView>::empty() =~= seq![w[0]]);
    }
}

/// Law: a file or a closed folder is one row; an open folder that was read
/// without error is followed by rows one level deeper, and those at exactly
/// that level are its entries in explorer order (see [`sort_entries`]), each
/// named by its file name.
pub proof fn law_open_folder_lists_its_entries(
    ps: Seq<ProbeView>,
    exp: Seq<Seq<char>>,
    path: Seq<char>,
    is_dir: bool,
    depth: nat,
    budget: nat,
)
    ensures
        !(is_dir && has_path(exp, path)) ==> walk(ps, exp, path, is_dir, depth, budget).0 == seq![
            ItemView { path, depth, is_dir, name: row_name(path, depth) },
        ],
        (is_dir && has_path(exp, path) && budget > 0 && find_probe(ps, path) is Some && ps[find_probe(
            ps,
            path,
        )->0].listing is Ok) ==> walk(ps, exp, path, is_dir, depth, budget).0.drop_first().filter(
            |r: ItemView| r.depth == depth + 1,
        ) == sort_entries(ps[find_probe(ps, path)->0].listing->Ok_0).map_values(
            |e: EntryView| entry_row(e, depth + 1),
        ),
{
    if is_dir && has_path(exp, path) && budget > 0 {
        match find_probe(ps, path) {
            Some(i) => match ps[i].listing {
                Ok(es) => {
                    let ses = sort_entries(es);
                    lemma_walk_list_children(ps, exp, ses, 0, depth + 1, (budget - 1) as nat);
                    let w = walk(ps, exp, path, is_dir, depth, budget).0;
                    assert(w.drop_first() =~= walk_list(ps, exp, ses, 0, depth + 1, (budget - 1) as nat));
                    assert(ses.subrange(0, ses.len() as int) =~= ses);
                },
                Err(_) => {},
            },
            None => {},
        }
    }
}

/// Row `r` is a folder at a path equal to `p`.
pub open spec fn folder_at(p: Seq<char>, r: ItemView) -> bool {
    r.is_dir && same_path(p, r.path)
}

/// No row of `rows` is a folder at a path equal to `p`.
spec fn no_folder_at(rows: Seq<ItemView>, p: Seq<char>) -> bool {
    forall|j: int| 0 <= j < rows.len() ==> !folder_at(p, #[trigger] rows[j])
}

/// The open folders `e1` and `e2` hold the same paths, except perhaps
/// paths equal to `p`.
pub open spec fn differ_only_at(e1: Seq<Seq<char>>, e2: Seq<Seq<char>>, p: Seq<char>) -> bool {
    forall|x: Seq<char>| !same_path(p, x) ==> has_path(e1, x) == has_path(e2, x)
}

/// The open folders `e1` and `e2` hold the same paths.
pub open spec fn same_folders(e1: Seq<Seq<char>>, e2: Seq<Seq<char>>) -> bool {
    forall|x: Seq<char>| has_path(e1, x) == has_path(e2, x)
}

pub proof fn lemma_has_path_push(exp: Seq<Seq<char>>, p: Seq<char>, x: Seq<char>)
    ensures
        has_path(exp.push(p), x) == (has_path(exp, x) || same_path(p, x)),
{
    let e1 = exp.push(p);
    assert(e1[exp.len() as int] == p);
    if has_path(exp, x) {
        let i = choose|i: int| 0 <= i < exp.len() && same_path(#[trigger] exp[i], x);
        assert(e1[i] == exp[i]);
    }
    if has_path(e1, x) {
        let i = choose|i: int| 0 <= i < e1.len() && same_path(#[trigger] e1[i], x);
        if i < exp.len() {
            assert(e1[i] == exp[i]);
        }
    }
}

/// Taking out what equals `p` leaves every other path open or closed as it was.
pub proof fn lemma_has_path_remove(exp: Seq<Seq<char>>, p: Seq<char>, x: Seq<char>)
    ensures
        has_path(exp.filter(|q: Seq<char>| !same_path(q, p)), x) == (has_path(exp, x) && !same_path(p, x)),
{
    broadcast use vstd::seq_lib::group_filter_ensures;

    let pred = |q: Seq<char>| !same_path(q, p);
    let f = exp.filter(pred);
    if has_path(f, x) {
        let i = choose|i: int| 0 <= i < f.len() && same_path(#[trigger] f[i], x);
        assert(pred(f[i]));
        assert(f.contains(f[i]));
        exp.lemma_filter_contains_rev(pred, f[i]);
        let k = choose|k: int| 0 <= k < exp.len() && exp[k] == f[i];
        assert(same_path(exp[k], x));
    }
    if has_path(exp, x) && !same_path(p, x) {
        let k = choose|k: int| 0 <= k < exp.len() && same_path(#[trigger] exp[k], x);
        assert(pred(exp[k]));
        assert(f.contains(exp[k]));
        let i = choose|i: int| 0 <= i < f.len() && f[i] == exp[k];
        assert(same_path(f[i], x));
    }
}

/// With the same folders open, the rows are the same.
proof fn lemma_walk_same(
    ps: Seq<ProbeView>,
    e1: Seq<Seq<char>>,
    e2: Seq<Seq<char>>,
    path: Seq<char>,
    is_dir: bool,
    depth: nat,
    budget: nat,
)
    requires
        same_folders(e1, e2),
    ensures
        walk(ps, e2, path, is_dir, depth, budget).0 == walk(ps, e1, path, is_dir, depth, budget).0,
    decreases budget, 0nat, 0nat,
{
    assert(has_path(e1, path) == has_path(e2, path));
    if is_dir && has_path(e1, path) && budget > 0 {
        match find_probe(ps, path) {
            Some(i) => match ps[i].listing {
                Ok(es) => {
                    lemma_walk_list_same(ps, e1, e2, sort_entries(es), 0, depth + 1, (budget - 1) as nat);
                },
                Err(_) => {},
            },
            None => {},
        }
    }
}

proof fn lemma_walk_list_same(
    ps: Seq<ProbeView>,
    e1: Seq<Seq<char>>,
    e2: Seq<Seq<char>>,
    es: Seq<EntryView>,
    k: int,
    depth: nat,
    budget: nat,
)
    requires
        same_folders(e1, e2),
    ensures
        walk_list(ps, e2, es, k, depth, budget) == walk_list(ps, e1, es, k, depth, budget),
    decreases budget, 1nat, es.len() - k,
{
    if 0 <= k < es.len() {
        lemma_walk_same(ps, e1, e2, es[k].path, es[k].is_dir, depth, budget);
        lemma_walk_list_same(ps, e1, e2, es, k + 1, depth, budget);
    }
}

/// Law: the explorer's rows depend only on which folders are open, not on
/// the order they were opened in or on how their paths are written.
pub proof fn law_tree_same_folders(ps: Seq<ProbeView>, e1: Seq<Seq<char>>, e2: Seq<Seq<char>>, root: Option<Seq<char>>)
    requires
        same_folders(e1, e2),
    ensures
        tree(ps, e2, root) == tree(ps, e1, root),
{
    if root is Some {
        let r = root->0;
        lemma_walk_same(ps, e1, e2, r, probed_dir(ps, r), 0, ps.len());
        assert(has_path(e1, r) == has_path(e2, r));
    }
}

/// Where no row is a folder at `p`, open folders differing only at `p`
/// give the same rows.
proof fn lemma_walk_untouched(
    ps: Seq<ProbeView>,
    e1: Seq<Seq<char>>,
    e2: Seq<Seq<char>>,
    p: Seq<char>,
    path: Seq<char>,
    is_dir: bool,
    depth: nat,
    budget: nat,
)
    requires
        differ_only_at(e1, e2, p),
        no_folder_at(walk(ps, e1, path, is_dir, depth, budget).0, p),
    ensures
        walk(ps, e2, path, is_dir, depth, budget).0 == walk(ps, e1, path, is_dir, depth, budget).0,
    decreases budget, 0nat, 0nat,
{
    let w = walk(ps, e1, path, is_dir, depth, budget).0;
    lemma_walk_outline(ps, e1, path, is_dir, depth, budget);
    assert(!folder_at(p, w[0]));
    if is_dir {
        assert(has_path(e1, path) == has_path(e2, path));
    }
    if is_dir && has_path(e1, path) && budget > 0 {
        match find_probe(ps, path) {
            Some(i) => match ps[i].listing {
                Ok(es) => {
                    let kids = walk_list(ps, e1, sort_entries(es), 0, depth + 1, (budget - 1) as nat);
                    assert forall|j: int| 0 <= j < kids.len() implies !folder_at(p, #[trigger] kids[j]) by {
                        assert(kids[j] == w[j + 1]);
                    }
                    lemma_walk_list_untouched(ps, e1, e2, p, sort_entries(es), 0, depth + 1, (budget - 1) as nat);
                },
                Err(_) => {},
            },
            None => {},
        }
    }
}

proof fn lemma_walk_list_untouched(
    ps: Seq<ProbeView>,
    e1: Seq<Seq<char>>,
    e2: Seq<Seq<char>>,
    p: Seq<char>,
    es: Seq<EntryView>,
    k: int,
    depth: nat,
    budget: nat,
)
    requires
        differ_only_at(e1, e2, p),
        no_folder_at(walk_list(ps, e1, es, k, depth, budget), p),
    ensures
        walk_list(ps, e2, es, k, depth, budget) == walk_list(ps, e1, es, k, depth, budget),
    decreases budget, 1nat, es.len() - k,
{
    if 0 <= k < es.len() {
        let w0 = walk(ps, e1, es[k].path, es[k].is_dir, depth, budget).0;
        let rest = walk_list(ps, e1, es, k + 1, depth, budget);
        let l = walk_list(ps, e1, es, k, depth, budget);
        assert(l == w0 + rest);
        assert forall|j: int| 0 <= j < w0.len() implies !folder_at(p, #[trigger] w0[j]) by {
            assert(w0[j] == l[j]);
        }
        assert forall|j: int| 0 <= j < rest.len() implies !folder_at(p, #[trigger] rest[j]) by {
            assert(rest[j] == l[w0.len() + j]);
        }
        lemma_walk_untouched(ps, e1, e2, p, es[k].path, es[k].is_dir, depth, budget);
        lemma_walk_list_untouched(ps, e1, e2, p, es, k + 1, depth, budget);
    }
}

/// Open folders differing only at `p` leave the rows up to and including
/// row `n` as they were, when no row before `n` is a folder at `p`.
proof fn lemma_walk_prefix(
    ps: Seq<ProbeView>,
    e1: Seq<Seq<char>>,
    e2: Seq<Seq<char>>,
    p: Seq<char>,
    path: Seq<char>,
    is_dir: bool,
    depth: nat,
    budget: nat,
    n: int,
)
    requires
        differ_only_at(e1, e2, p),
        0 <= n < walk(ps, e1, path, is_dir, depth, budget).0.len(),
        no_folder_at(walk(ps, e1, path, is_dir, depth, budget).0.take(n), p),
    ensures
        n < walk(ps, e2, path, is_dir, depth, budget).0.len(),
        walk(ps, e2, path, is_dir, depth, budget).0.take(n + 1) == walk(
            ps,
            e1,
            path,
            is_dir,
            depth,
            budget,
        ).0.take(n + 1),
    decreases budget, 0nat, 0nat,
{
    let w = walk(ps, e1, path, is_dir, depth, budget).0;
    let w1 = walk(ps, e2, path, is_dir, depth, budget).0;
    lemma_walk_outline(ps, e1, path, is_dir, depth, budget);
    lemma_walk_outline(ps, e2, path, is_dir, depth, budget);
    if n == 0 {
        assert(w1.take(1) =~= w.take(1));
    } else {
        assert(w.take(n)[0] == w[0]);
        assert(!folder_at(p, w[0]));
        if is_dir {
            assert(has_path(e1, path) == has_path(e2, path));
        }
        if is_dir && has_path(e1, path) && budget > 0 {
            match find_probe(ps, path) {
                Some(i) => match ps[i].listing {
                    Ok(es) => {
                        let ses = sort_entries(es);
                        let kids = walk_list(ps, e1, ses, 0, depth + 1, (budget - 1) as nat);
                        let kids1 = walk_list(ps, e2, ses, 0, depth + 1, (budget - 1) as nat);
                        assert forall|j: int| 0 <= j < kids.take(n - 1).len() implies !folder_at(
                            p,
                            #[trigger] kids.take(n - 1)[j],
                        ) by {
                            assert(kids.take(n - 1)[j] == w.take(n)[j + 1]);
                        }
                        lemma_walk_list_prefix(ps, e1, e2, p, ses, 0, depth + 1, (budget - 1) as nat, n - 1);
                        assert forall|j: int| 0 <= j < n + 1 implies #[trigger] w1.take(n + 1)[j] == w.take(n + 1)[j] by {
                            if j > 0 {
                                assert(kids1.take(n)[j - 1] == kids.take(n)[j - 1]);
                            }
                        }
                        assert(w1.take(n + 1) =~= w.take(n + 1));
                    },
                    Err(_) => {},
                },
                None => {},
            }
        }
    }
}

proof fn lemma_walk_list_prefix(
    ps: Seq<ProbeView>,
    e1: Seq<Seq<char>>,
    e2: Seq<Seq<char>>,
    p: Seq<char>,
    es: Seq<EntryView>,
    k: int,
    depth: nat,
    budget: nat,
    n: int,
)
    requires
        differ_only_at(e1, e2, p),
        0 <= n < walk_list(ps, e1, es, k, depth, budget).len(),
        no_folder_at(walk_list(ps, e1, es, k, depth, budget).take(n), p),
    ensures
        n < walk_list(ps, e2, es, k, depth, budget).len(),
        walk_list(ps, e2, es, k, depth, budget).take(n + 1) == walk_list(
            ps,
            e1,
            es,
            k,
            depth,
            budget,
        ).take(n + 1),
    decreases budget, 1nat, es.len() - k,
{
    let l = walk_list(ps, e1, es, k, depth, budget);
    let l1 = walk_list(ps, e2, es, k, depth, budget);
    let w0 = walk(ps, e1, es[k].path, es[k].is_dir, depth, budget).0;
    let w01 = walk(ps, e2, es[k].path, es[k].is_dir, depth, budget).0;
    let rest = walk_list(ps, e1, es, k + 1, depth, budget);
    let rest1 = walk_list(ps, e2, es, k + 1, depth, budget);
    assert(l == w0 + rest);
    assert(l1 == w01 + rest1);
    if n < w0.len() {
        assert forall|j: int| 0 <= j < w0.take(n).len() implies !folder_at(p, #[trigger] w0.take(n)[j]) by {
            assert(w0.take(n)[j] == l.take(n)[j]);
        }
        lemma_walk_prefix(ps, e1, e2, p, es[k].path, es[k].is_dir, depth, budget, n);
        assert forall|j: int| 0 <= j < n + 1 implies #[trigger] l1.take(n + 1)[j] == l.take(n + 1)[j] by {
            assert(w01.take(n + 1)[j] == w0.take(n + 1)[j]);
        }
        assert(l1.take(n + 1) =~= l.take(n + 1));
    } else {
        assert forall|j: int| 0 <= j < w0.len() implies !folder_at(p, #[trigger] w0[j]) by {
            assert(w0[j] == l.take(n)[j]);
        }
        lemma_walk_untouched(ps, e1, e2, p, es[k].path, es[k].is_dir, depth, budget);
        let m = n - w0.len();
        assert forall|j: int| 0 <= j < rest.take(m).len() implies !folder_at(p, #[trigger] rest.take(m)[j]) by {
            assert(rest.take(m)[j] == l.take(n)[w0.len() + j]);
        }
        lemma_walk_list_prefix(ps, e1, e2, p, es, k + 1, depth, budget, m);
        assert forall|j: int| 0 <= j < n + 1 implies #[trigger] l1.take(n + 1)[j] == l.take(n + 1)[j] by {
            if j >= w0.len() {
                assert(rest1.take(m + 1)[j - w0.len()] == rest.take(m + 1)[j - w0.len()]);
            }
        }
        assert(l1.take(n + 1) =~= l.take(n + 1));
    }
}

/// Open folders `e1` and `e2` that differ only at `p` give the same
/// explorer rows up to and including row `n`, when no row before `n` is a
/// folder at `p`.
pub proof fn lemma_tree_prefix(
    ps: Seq<ProbeView>,
    e1: Seq<Seq<char>>,
    e2: Seq<Seq<char>>,
    root: Option<Seq<char>>,
    p: Seq<char>,
    n: int,
)
    requires
        differ_only_at(e1, e2, p),
        0 <= n < tree(ps, e1, root).0.len(),
        forall|j: int| 0 <= j < n ==> !folder_at(p, #[trigger] tree(ps, e1, root).0[j]),
    ensures
        n < tree(ps, e2, root).0.len(),
        tree(ps, e2, root).0.take(n + 1) == tree(ps, e1, root).0.take(n + 1),
{
    let r = root->0;
    let w = tree(ps, e1, root).0;
    assert forall|j: int| 0 <= j < w.take(n).len() implies !folder_at(p, #[trigger] w.take(n)[j]) by {
        assert(w.take(n)[j] == w[j]);
    }
    lemma_walk_prefix(ps, e1, e2, p, r, probed_dir(ps, r), 0, ps.len(), n);
}

/// Appends the rows of [`walk`] to `out`.
fn push_tree_items(
    out: &mut Vec<ExplorerItem>,
    fs: &FsSnapshot,
    expanded: &Vec<String>,
    path: &String,
    is_dir: bool,
    depth: usize,
    budget: usize,
) -> (r: Result<(), String>)
    requires
        depth + budget < usize::MAX,
    ensures
        items_view(final(out)@) == items_view(old(out)@) + walk(
            fs@,
            paths_view(expanded@),
            path@,
            is_dir,
            depth as nat,
            budget as nat,
        ).0,
        match r {
            Ok(()) => walk(fs@, paths_view(expanded@), path@, is_dir, depth as nat, budget as nat).1 is Ok,
            Err(e) => walk(fs@, paths_view(expanded@), path@, is_dir, depth as nat, budget as nat).1 == Err::<(), Seq<char>>(e@),
        },
    decreases budget,
{
    let ghost ps = fs@;
    let ghost exp = paths_view(expanded@);
    let name = if depth == 0 {
        path.clone()
    } else {
        name_for_path(path.as_str())
    };
    let ghost base = items_view(out@);
    let ghost item = ItemView { path: path@, depth: depth as nat, is_dir, name: row_name(path@, depth as nat) };
    out.push(ExplorerItem { path: path.clone(), depth, is_dir, name });
    proof {
        assert(items_view(out@) =~= base + seq![item]);
    }
    if is_dir && budget > 0 && dirs_contains(expanded, path.as_str()) {
        match snapshot_find(fs, path.as_str()) {
            Some(i) => {
                proof {
                    assert(ps[i as int] == fs.probes@[i as int]@);
                }
                match &fs.probes[i].listing {
                    Err(e) => {
                        return Err(e.clone());
                    },
                    Ok(es) => {
                        let sorted = sort_dir_entries(es);
                        let ghost ses = sort_entries(entries_view(es@));
                        let m = sorted.len();
                        let ghost start = items_view(out@);
                        for k in 0..m
                            invariant
                                m == sorted@.len(),
                                entries_view(sorted@) == ses,
                                depth + budget < usize::MAX,
                                budget > 0,
                                ps == fs@,
                                exp == paths_view(expanded@),
                                items_view(out@) + walk_list(ps, exp, ses, k as int, depth as nat + 1, (budget - 1) as nat)
                                    == start + walk_list(ps, exp, ses, 0, depth as nat + 1, (budget - 1) as nat),
                        {
                            let ghost before = items_view(out@);
                            proof {
                                assert(ses[k as int] == sorted@[k as int]@);
                            }
                            let _ = push_tree_items(
                                out,
                                fs,
                                expanded,
                                &sorted[k].path,
                                sorted[k].is_dir,
                                depth + 1,
                                budget - 1,
                            );
                            proof {
                                let w = walk(ps, exp, ses[k as int].path, ses[k as int].is_dir, depth as nat + 1, (budget - 1) as nat).0;
                                let rest = walk_list(ps, exp, ses, k + 1, depth as nat + 1, (budget - 1) as nat);
                                assert(walk_list(ps, exp, ses, k as int, depth as nat + 1, (budget - 1) as nat) == w + rest);
                                assert(items_view(out@) == before + w);
                                assert(before + (w + rest) =~= (before + w) + rest);
                            }
                        }
                        proof {
                            assert(walk_list(ps, exp, ses, m as int, depth as nat + 1, (budget - 1) as nat) =~= seq![]);
                            assert(items_view(out@) + seq![] =~= items_view(out@));
                            assert(start =~= base + seq![item]);
                        }
                    },
                }
            },
            None => {},
        }
    }
    Ok(())
}

/// The explorer's rows for workspace `root` with the folders `expanded`
/// open, as [`tree`] gives them from what `fs` holds.
pub fn build_tree(fs: &FsSnapshot, expanded: &Vec<String>, root: &Option<String>) -> (r: (
    Vec<ExplorerItem>,
    Result<(), String>,
))
    requires
        fs@.len() < usize::MAX,
    ensures
        items_view(r.0@) == tree(
            fs@,
            paths_view(expanded@),
            match root {
                Some(p) => Some(p@),
                None => None,
            },
        ).0,
        match r.1 {
            Ok(()) => tree(fs@, paths_view(expanded@), match root {
                Some(p) => Some(p@),
                None => None,
            }).1 is Ok,
            Err(e) => tree(fs@, paths_view(expanded@), match root {
                Some(p) => Some(p@),
                None => None,
            }).1 == Err::<(), Seq<char>>(e@),
        },
{
    let mut out: Vec<ExplorerItem> = Vec::new();
    match root {
        Some(r) => {
            let is_dir = match snapshot_find(fs, r.as_str()) {
                Some(i) => fs.probes[i].is_dir,
                None => false,
            };
            proof {
                assert(items_view(out@) =~= Seq::<ItemView>::empty());
            }
            let res = push_tree_items(&mut out, fs, expanded, r, is_dir, 0, fs.probes.len());
            proof {
                assert(Seq::<ItemView>::empty() + tree(fs@, paths_view(expanded@), Some(r@)).0 =~= tree(fs@, paths_view(expanded@), Some(r@)).0);
            }
            (out, res)
        },
        None => {
            proof {
                assert(items_view(out@) =~= Seq::<ItemView>::empty());
            }
            (out, Ok(()))
        },
    }
}

} // verus!
