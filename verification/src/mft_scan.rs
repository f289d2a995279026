//! Fast scan: from every file record of a drive (read off its NTFS Master
//! File Table), build an in-memory tree of each folder's children, sorted
//! by size, and of each folder's total size, so navigating the drive needs
//! no further disk access.

use vstd::prelude::*;
use crate::paths::{FsPath, PartView, ancestor_of, parent_of, droppable};
use crate::explorer::{EntryInfo, EntryView, entry_views, sort_by_size, sorted_by_size};

verus! {

/// A fully scanned drive: for each folder, its children (biggest first) and
/// the total size of the files beneath it.
pub struct ScanTree {
    drive_root: FsPath,
    child_keys: Vec<FsPath>,
    child_lists: Vec<Vec<EntryInfo>>,
    total_keys: Vec<FsPath>,
    total_sums: Vec<u64>,
}

/// The position of the first of the first `n` keys equal to `d`, if any.
pub open spec fn first_key_upto(keys: Seq<FsPath>, d: Seq<PartView>, n: int) -> Option<int>
    decreases n,
{
    if n <= 0 {
        None
    } else {
        match first_key_upto(keys, d, n - 1) {
            Some(k) => Some(k),
            None => if keys[n - 1]@ == d { Some(n - 1) } else { None },
        }
    }
}

/// The position of the first key equal to `d`, if any.
pub open spec fn first_key(keys: Seq<FsPath>, d: Seq<PartView>) -> Option<int> {
    first_key_upto(keys, d, keys.len() as int)
}

/// Whether file record `r` counts toward folder `d`'s total: a file (not a
/// folder) with some bytes, somewhere beneath `d`.
pub open spec fn counts_toward(r: EntryView, d: Seq<PartView>) -> bool {
    !r.is_dir && r.size > 0 && ancestor_of(d, r.path)
}

/// The total size of the files among the first `n` records beneath `d`.
pub open spec fn subtotal(recs: Seq<EntryView>, d: Seq<PartView>, n: int) -> nat
    decreases n,
{
    if n <= 0 {
        0
    } else {
        subtotal(recs, d, n - 1) + if counts_toward(recs[n - 1], d) { recs[n - 1].size as nat } else { 0 }
    }
}

/// The records among the first `n` whose parent is `d`, in record order.
pub open spec fn listed(recs: Seq<EntryView>, d: Seq<PartView>, n: int) -> Seq<EntryView>
    decreases n,
{
    if n <= 0 {
        Seq::empty()
    } else if parent_of(recs[n - 1].path) == Some(d) {
        listed(recs, d, n - 1).push(recs[n - 1])
    } else {
        listed(recs, d, n - 1)
    }
}

/// A folder's entry shows its subtree total in place of its own size.
pub open spec fn with_total(recs: Seq<EntryView>, e: EntryView) -> EntryView {
    if e.is_dir {
        EntryView { size: subtotal(recs, e.path, recs.len() as int) as u64, ..e }
    } else {
        e
    }
}

/// The unsorted listing of folder `d`: its children among all records, with
/// folders showing their subtree totals.
pub open spec fn raw_listing(recs: Seq<EntryView>, d: Seq<PartView>) -> Seq<EntryView> {
    listed(recs, d, recs.len() as int).map_values(|e: EntryView| with_total(recs, e))
}

/// The list stored under the first key equal to `d` (empty if none).
pub open spec fn list_at(keys: Seq<FsPath>, lists: Seq<Vec<EntryInfo>>, d: Seq<PartView>) -> Seq<EntryView> {
    match first_key(keys, d) {
        Some(k) => if k < lists.len() { entry_views(lists[k]@) } else { Seq::empty() },
        None => Seq::empty(),
    }
}

/// The sum stored under the first key equal to `d`, if there is one.
pub open spec fn sum_entry(keys: Seq<FsPath>, sums: Seq<u64>, d: Seq<PartView>) -> Option<u64> {
    match first_key(keys, d) {
        Some(k) => if k < sums.len() { Some(sums[k]) } else { None },
        None => None,
    }
}

/// The sum stored under the first key equal to `d` (zero if none).
pub open spec fn sum_at(keys: Seq<FsPath>, sums: Seq<u64>, d: Seq<PartView>) -> u64 {
    match first_key(keys, d) {
        Some(k) => if k < sums.len() { sums[k] } else { 0 },
        None => 0,
    }
}

impl ScanTree {
    /// The drive the tree was scanned from.
    pub closed spec fn root(&self) -> Seq<PartView> {
        self.drive_root@
    }

    /// The children of folder `d`, biggest first (empty for an unknown
    /// folder).
    pub closed spec fn listing(&self, d: Seq<PartView>) -> Seq<EntryView> {
        list_at(self.child_keys@, self.child_lists@, d)
    }

    /// The total size of the files beneath folder `d` (zero for an unknown
    /// folder).
    pub closed spec fn total(&self, d: Seq<PartView>) -> u64 {
        sum_at(self.total_keys@, self.total_sums@, d)
    }

    /// Whether folder `d` carries a total at all: exactly the folders with
    /// some file bytes beneath them do.
    pub closed spec fn has_total(&self, d: Seq<PartView>) -> bool {
        sum_entry(self.total_keys@, self.total_sums@, d) is Some
    }

    /// The drive the tree was scanned from.
    pub fn drive_root(&self) -> (res: &FsPath)
        ensures
            res@ == self.root(),
    {
        &self.drive_root
    }

    /// A copy of the children of folder `dir`, biggest first.
    pub fn children_of(&self, dir: &FsPath) -> (res: Vec<EntryInfo>)
        ensures
            entry_views(res@) == self.listing(dir@),
    {
        match find_key(&self.child_keys, dir) {
            Some(k) => {
                if k < self.child_lists.len() {
                    crate::explorer::copy_entries(&self.child_lists[k])
                } else {
                    Vec::new()
                }
            },
            None => Vec::new(),
        }
    }

    /// The total size of the files beneath folder `dir`, if it carries one.
    pub fn total_entry(&self, dir: &FsPath) -> (res: Option<u64>)
        ensures
            res == if self.has_total(dir@) {
                Some(self.total(dir@))
            } else {
                None
            },
    {
        sum_find(&self.total_keys, &self.total_sums, dir)
    }

    /// The total size of the files beneath folder `dir` (zero when it
    /// carries none).
    pub fn total_of(&self, dir: &FsPath) -> (res: u64)
        ensures
            res == self.total(dir@),
    {
        match self.total_entry(dir) {
            Some(v) => v,
            None => 0,
        }
    }
}

/// The sum stored under the first key equal to `d`, if any.
fn sum_find(keys: &Vec<FsPath>, sums: &Vec<u64>, d: &FsPath) -> (res: Option<u64>)
    ensures
        res == sum_entry(keys@, sums@, d@),
{
    match find_key(keys, d) {
        Some(k) => {
            if k < sums.len() {
                Some(sums[k])
            } else {
                None
            }
        },
        None => None,
    }
}

/// The position of the first key equal to `d`.
fn find_key(keys: &Vec<FsPath>, d: &FsPath) -> (res: Option<usize>)
    ensures
        match res {
            Some(k) => first_key(keys@, d@) == Some(k as int),
            None => first_key(keys@, d@) is None,
        },
{
    let mut k: usize = 0;
    while k < keys.len()
        invariant
            k <= keys@.len(),
            first_key_upto(keys@, d@, k as int) is None,
        decreases keys@.len() - k,
    {
        if keys[k].same(d) {
            proof {
                lemma_first_key_stable(keys@, d@, k as int + 1, keys@.len() as int);
            }
            return Some(k);
        }
        k += 1;
    }
    None
}

/// Once a key equal to `d` is found, looking further does not change it.
proof fn lemma_first_key_stable(keys: Seq<FsPath>, d: Seq<PartView>, m: int, n: int)
    requires
        0 <= m <= n <= keys.len(),
        first_key_upto(keys, d, m) is Some,
    ensures
        first_key_upto(keys, d, n) == first_key_upto(keys, d, m),
    decreases n - m,
{
    if m < n {
        lemma_first_key_stable(keys, d, m, n - 1);
    }
}

/// A found key is within range and equal to `d`.
proof fn lemma_first_key_found(keys: Seq<FsPath>, d: Seq<PartView>, n: int)
    requires
        0 <= n <= keys.len(),
    ensures
        match first_key_upto(keys, d, n) {
            Some(k) => 0 <= k < n && keys[k]@ == d,
            None => forall|j: int| 0 <= j < n ==> keys[j]@ != d,
        },
    decreases n,
{
    if n > 0 {
        lemma_first_key_found(keys, d, n - 1);
    }
}

/// Appending keys does not change the first match among earlier ones.
proof fn lemma_first_key_prefix(keys: Seq<FsPath>, x: FsPath, d: Seq<PartView>, n: int)
    requires
        0 <= n <= keys.len(),
    ensures
        first_key_upto(keys.push(x), d, n) == first_key_upto(keys, d, n),
    decreases n,
{
    if n > 0 {
        lemma_first_key_prefix(keys, x, d, n - 1);
        assert(keys.push(x)[n - 1] == keys[n - 1]);
    }
}

/// What the first key is after appending a key.
proof fn lemma_first_key_push(keys: Seq<FsPath>, x: FsPath, d: Seq<PartView>)
    ensures
        first_key(keys.push(x), d) == (match first_key(keys, d) {
            Some(k) => Some(k),
            None => if x@ == d { Some(keys.len() as int) } else { None },
        }),
{
    lemma_first_key_prefix(keys, x, d, keys.len() as int);
    assert(keys.push(x)[keys.len() as int] == x);
}

/// Sums only grow as records are added.
proof fn lemma_subtotal_mono(recs: Seq<EntryView>, d: Seq<PartView>, i: int, n: int)
    requires
        0 <= i <= n,
    ensures
        subtotal(recs, d, i) <= subtotal(recs, d, n),
    decreases n - i,
{
    if i < n {
        lemma_subtotal_mono(recs, d, i, n - 1);
    }
}

/// The empty listing is trivially sorted.
proof fn lemma_sorted_empty()
    ensures
        sorted_by_size(Seq::<EntryView>::empty(), Seq::<EntryView>::empty()),
{
    let p = Seq::<int>::empty();
    assert(crate::explorer::stable_desc_by(Seq::<EntryView>::empty(), Seq::<EntryView>::empty(), p));
}

/// Adds `size` to the sum under key `d`, adding the key if it is new.
fn add_to_total(keys: &mut Vec<FsPath>, sums: &mut Vec<u64>, d: FsPath, size: u64)
    requires
        old(keys)@.len() == old(sums)@.len(),
        sum_at(old(keys)@, old(sums)@, d@) + size <= u64::MAX,
    ensures
        final(keys)@.len() == final(sums)@.len(),
        forall|e: Seq<PartView>|
            #[trigger] sum_at(final(keys)@, final(sums)@, e) == if e == d@ {
                sum_at(old(keys)@, old(sums)@, e) + size
            } else {
                sum_at(old(keys)@, old(sums)@, e) as int
            },
        forall|e: Seq<PartView>|
            #[trigger] sum_entry(final(keys)@, final(sums)@, e) is Some <==> (e == d@ || sum_entry(
                old(keys)@,
                old(sums)@,
                e,
            ) is Some),
{
    match find_key(keys, &d) {
        Some(k) => {
            let ghost old_sums = sums@;
            proof {
                lemma_first_key_found(keys@, d@, keys@.len() as int);
            }
            sums[k] = sums[k] + size;
            assert forall|e: Seq<PartView>|
                #[trigger] sum_at(keys@, sums@, e) == if e == d@ {
                    sum_at(keys@, old_sums, e) + size
                } else {
                    sum_at(keys@, old_sums, e) as int
                } by {
                lemma_first_key_found(keys@, e, keys@.len() as int);
                match first_key(keys@, e) {
                    Some(j) => {
                        if e != d@ {
                            assert(j != k);
                        }
                    },
                    None => {},
                }
            }
            assert forall|e: Seq<PartView>|
                #[trigger] sum_entry(keys@, sums@, e) is Some <==> (e == d@ || sum_entry(keys@, old_sums, e) is Some) by {
                lemma_first_key_found(keys@, e, keys@.len() as int);
            }
        },
        None => {
            let ghost old_keys = keys@;
            let ghost old_sums = sums@;
            let ghost dv = d@;
            keys.push(d);
            sums.push(size);
            assert forall|e: Seq<PartView>|
                #[trigger] sum_at(keys@, sums@, e) == if e == dv {
                    sum_at(old_keys, old_sums, e) + size
                } else {
                    sum_at(old_keys, old_sums, e) as int
                } by {
                lemma_first_key_push(old_keys, keys@.last(), e);
                lemma_first_key_found(old_keys, e, old_keys.len() as int);
                assert(keys@ == old_keys.push(keys@.last()));
                match first_key(old_keys, e) {
                    Some(j) => {
                        assert(sums@[j] == old_sums[j]);
                    },
                    None => {},
                }
            }
            assert forall|e: Seq<PartView>|
                #[trigger] sum_entry(keys@, sums@, e) is Some <==> (e == dv || sum_entry(old_keys, old_sums, e) is Some) by {
                lemma_first_key_push(old_keys, keys@.last(), e);
                lemma_first_key_found(old_keys, e, old_keys.len() as int);
                assert(keys@ == old_keys.push(keys@.last()));
            }
        },
    }
}

/// Files the record under its parent folder's listing, adding the folder if
/// it is new.
fn add_child(keys: &mut Vec<FsPath>, lists: &mut Vec<Vec<EntryInfo>>, d: FsPath, entry: EntryInfo)
    requires
        old(keys)@.len() == old(lists)@.len(),
    ensures
        final(keys)@.len() == final(lists)@.len(),
        forall|e: Seq<PartView>|
            #[trigger] list_at(final(keys)@, final(lists)@, e) == if e == d@ {
                list_at(old(keys)@, old(lists)@, e).push(entry@)
            } else {
                list_at(old(keys)@, old(lists)@, e)
            },
{
    let ghost ev = entry@;
    match find_key(keys, &d) {
        Some(k) => {
            let ghost old_lists = lists@;
            proof {
                lemma_first_key_found(keys@, d@, keys@.len() as int);
            }
            let mut list: Vec<EntryInfo> = Vec::new();
            std::mem::swap(&mut list, &mut lists[k]);
            list.push(entry);
            std::mem::swap(&mut list, &mut lists[k]);
            assert forall|e: Seq<PartView>|
                #[trigger] list_at(keys@, lists@, e) == if e == d@ {
                    list_at(keys@, old_lists, e).push(ev)
                } else {
                    list_at(keys@, old_lists, e)
                } by {
                lemma_first_key_found(keys@, e, keys@.len() as int);
                match first_key(keys@, e) {
                    Some(j) => {
                        if e != d@ {
                            assert(j != k);
                            assert(lists@[j] == old_lists[j]);
                        } else {
                            assert(entry_views(lists@[k as int]@) =~= entry_views(old_lists[k as int]@).push(ev));
                        }
                    },
                    None => {},
                }
            }
        },
        None => {
            let ghost old_keys = keys@;
            let ghost old_lists = lists@;
            let ghost dv = d@;
            keys.push(d);
            let mut list: Vec<EntryInfo> = Vec::new();
            list.push(entry);
            lists.push(list);
            assert forall|e: Seq<PartView>|
                #[trigger] list_at(keys@, lists@, e) == if e == dv {
                    list_at(old_keys, old_lists, e).push(ev)
                } else {
                    list_at(old_keys, old_lists, e)
                } by {
                lemma_first_key_push(old_keys, keys@.last(), e);
                lemma_first_key_found(old_keys, e, old_keys.len() as int);
                assert(keys@ == old_keys.push(keys@.last()));
                match first_key(old_keys, e) {
                    Some(j) => {
                        assert(lists@[j] == old_lists[j]);
                    },
                    None => {
                        if e == dv {
                            assert(entry_views(lists@.last()@) =~= Seq::<EntryView>::empty().push(ev));
                        }
                    },
                }
            }
        },
    }
}


/// Builds the tree from every file record of a drive. Each record is listed
/// under its parent folder; each file's bytes count toward every folder
/// above it; folders then show their subtree total in place of their own
/// size, and each listing is sorted biggest first.
pub fn build_tree(drive_root: FsPath, records: Vec<EntryInfo>) -> (tree: ScanTree)
    requires
        forall|d: Seq<PartView>| #[trigger] subtotal(entry_views(records@), d, records@.len() as int) <= u64::MAX,
    ensures
        tree.root() == drive_root@,
        forall|d: Seq<PartView>| #[trigger] tree.total(d) == subtotal(entry_views(records@), d, records@.len() as int),
        forall|d: Seq<PartView>| #[trigger] tree.has_total(d) == (subtotal(entry_views(records@), d, records@.len() as int) > 0),
        forall|d: Seq<PartView>| sorted_by_size(raw_listing(entry_views(records@), d), #[trigger] tree.listing(d)),
{
    let ghost recs = entry_views(records@);
    let ghost n = records@.len() as int;
    let mut ck: Vec<FsPath> = Vec::new();
    let mut cl: Vec<Vec<EntryInfo>> = Vec::new();
    let mut tk: Vec<FsPath> = Vec::new();
    let mut ts: Vec<u64> = Vec::new();
    let mut i: usize = 0;
    while i < records.len()
        invariant
            recs == entry_views(records@),
            n == records@.len(),
            i <= n,
            ck@.len() == cl@.len(),
            tk@.len() == ts@.len(),
            forall|d: Seq<PartView>| #[trigger] list_at(ck@, cl@, d) == listed(recs, d, i as int),
            forall|d: Seq<PartView>| #[trigger] sum_at(tk@, ts@, d) == subtotal(recs, d, i as int),
            forall|d: Seq<PartView>| #[trigger] sum_entry(tk@, ts@, d) is Some <==> sum_at(tk@, ts@, d) > 0,
            forall|d: Seq<PartView>| #[trigger] subtotal(recs, d, n) <= u64::MAX,
        decreases n - i,
    {
        let rec = &records[i];
        assert(recs[i as int] == rec@);
        // Every record is listed under its parent folder.
        match rec.path.parent() {
            Some(parent) => {
                let ghost pv = parent@;
                add_child(&mut ck, &mut cl, parent, rec.copy());
                assert forall|d: Seq<PartView>| #[trigger] list_at(ck@, cl@, d) == listed(recs, d, i + 1) by {
                    assert(parent_of(recs[i as int].path) == Some(pv));
                }
            },
            None => {
                assert forall|d: Seq<PartView>| #[trigger] list_at(ck@, cl@, d) == listed(recs, d, i + 1) by {
                    assert(parent_of(recs[i as int].path) is None);
                }
            },
        }
        // Every file's bytes count toward each of its ancestor folders.
        if !rec.is_dir && rec.size > 0 {
            let ghost p = rec.path@;
            let size = rec.size;
            let mut cur = rec.path.parent();
            let ghost mut k: int = p.len() - 1;
            proof {
                if cur is None {
                    assert forall|d: Seq<PartView>| ancestor_of(d, p) implies d.len() > k by {
                        assert(droppable(p[p.len() - 1]));
                    }
                } else {
                    assert(p.take(k) =~= p.drop_last());
                }
            }
            loop
                invariant
                    recs == entry_views(records@),
                    n == records@.len(),
                    i < n,
                    recs[i as int].path == p,
                    !recs[i as int].is_dir,
                    recs[i as int].size == size,
                    size > 0,
                    tk@.len() == ts@.len(),
                    forall|d: Seq<PartView>| #[trigger] sum_entry(tk@, ts@, d) is Some <==> sum_at(tk@, ts@, d) > 0,
                    -1 <= k < p.len(),
                    forall|d: Seq<PartView>| #[trigger] subtotal(recs, d, n) <= u64::MAX,
                    forall|d: Seq<PartView>|
                        #[trigger] sum_at(tk@, ts@, d) == subtotal(recs, d, i as int) + if ancestor_of(d, p) && d.len() > k {
                            size as int
                        } else {
                            0
                        },
                    match cur {
                        Some(a) => 0 <= k && a@ == p.take(k) && ancestor_of(p.take(k), p),
                        None => forall|d: Seq<PartView>| ancestor_of(d, p) ==> d.len() > k,
                    },
                ensures
                    tk@.len() == ts@.len(),
                    forall|d: Seq<PartView>| #[trigger] sum_entry(tk@, ts@, d) is Some <==> sum_at(tk@, ts@, d) > 0,
                    forall|d: Seq<PartView>|
                        #[trigger] sum_at(tk@, ts@, d) == subtotal(recs, d, i as int) + if ancestor_of(d, p) {
                            size as int
                        } else {
                            0
                        },
                decreases k + 1,
            {
                match cur {
                    None => {
                        break;
                    },
                    Some(a) => {
                        let ghost av = a@;
                        let next = a.parent();
                        proof {
                            assert(sum_at(tk@, ts@, av) == subtotal(recs, av, i as int));
                            assert(counts_toward(recs[i as int], av));
                            assert(subtotal(recs, av, i + 1) == subtotal(recs, av, i as int) + size);
                            lemma_subtotal_mono(recs, av, i + 1, n);
                        }
                        add_to_total(&mut tk, &mut ts, a, size);
                        proof {
                            match &next {
                                Some(b) => {
                                    assert(av.len() > 0 && droppable(av.last()));
                                    assert(av.last() == p[k - 1]);
                                    assert(b@ =~= p.take(k - 1));
                                    assert(ancestor_of(p.take(k - 1), p));
                                },
                                None => {
                                    assert forall|d: Seq<PartView>| ancestor_of(d, p) implies d.len() > k - 1 by {
                                        if d.len() <= k - 1 {
                                            assert(droppable(p[k - 1]));
                                            assert(av[k - 1] == p[k - 1]);
                                        }
                                    }
                                },
                            }
                        }
                        cur = next;
                        proof {
                            k = k - 1;
                        }
                    },
                }
            }
            assert forall|d: Seq<PartView>| #[trigger] sum_at(tk@, ts@, d) == subtotal(recs, d, i + 1) by {
                assert(counts_toward(recs[i as int], d) == ancestor_of(d, p));
            }
        } else {
            assert forall|d: Seq<PartView>| #[trigger] sum_at(tk@, ts@, d) == subtotal(recs, d, i + 1) by {
                assert(!counts_toward(recs[i as int], d));
            }
        }
        i += 1;
    }
    // Folders show their subtree total; listings go biggest first.
    let mut lists: Vec<Vec<EntryInfo>> = Vec::new();
    let mut j: usize = 0;
    while j < cl.len()
        invariant
            recs == entry_views(records@),
            n == records@.len(),
            ck@.len() == cl@.len(),
            tk@.len() == ts@.len(),
            j <= cl@.len(),
            lists@.len() == j,
            forall|d: Seq<PartView>| #[trigger] sum_at(tk@, ts@, d) == subtotal(recs, d, n),
            forall|d: Seq<PartView>| #[trigger] sum_entry(tk@, ts@, d) is Some <==> sum_at(tk@, ts@, d) > 0,
            forall|d: Seq<PartView>| #[trigger] subtotal(recs, d, n) <= u64::MAX,
            forall|q: int|
                0 <= q < j ==> sorted_by_size(
                    entry_views((#[trigger] cl@[q])@).map_values(|e: EntryView| with_total(recs, e)),
                    entry_views(lists@[q]@),
                ),
        decreases cl@.len() - j,
    {
        let src = &cl[j];
        let mut fixed: Vec<EntryInfo> = Vec::new();
        let mut m: usize = 0;
        while m < src.len()
            invariant
                recs == entry_views(records@),
                n == records@.len(),
                tk@.len() == ts@.len(),
                m <= src@.len(),
                fixed@.len() == m,
                forall|d: Seq<PartView>| #[trigger] sum_at(tk@, ts@, d) == subtotal(recs, d, n),
                forall|d: Seq<PartView>| #[trigger] subtotal(recs, d, n) <= u64::MAX,
                forall|q: int| 0 <= q < m ==> (#[trigger] fixed@[q])@ == with_total(recs, src@[q]@),
            decreases src@.len() - m,
        {
            let mut c = src[m].copy();
            if c.is_dir {
                c.size = match sum_find(&tk, &ts, &c.path) {
                    Some(v) => v,
                    None => 0,
                };
                assert(c.size == sum_at(tk@, ts@, c.path@));
            }
            fixed.push(c);
            m += 1;
        }
        assert(entry_views(fixed@) =~= entry_views(src@).map_values(|e: EntryView| with_total(recs, e)));
        sort_by_size(&mut fixed);
        lists.push(fixed);
        j += 1;
    }
    let tree = ScanTree { drive_root, child_keys: ck, child_lists: lists, total_keys: tk, total_sums: ts };
    proof {
        assert forall|d: Seq<PartView>| sorted_by_size(raw_listing(recs, d), #[trigger] tree.listing(d)) by {
            lemma_first_key_found(tree.child_keys@, d, tree.child_keys@.len() as int);
            match first_key(tree.child_keys@, d) {
                Some(q) => {
                    assert(list_at(tree.child_keys@, cl@, d) == entry_views(cl@[q]@));
                },
                None => {
                    assert(list_at(tree.child_keys@, cl@, d) == Seq::<EntryView>::empty());
                    assert(raw_listing(recs, d) =~= Seq::<EntryView>::empty());
                    lemma_sorted_empty();
                },
            }
        }
    }
    tree
}


/// The result of a fast scan: the tree, or why the drive could not be read.
pub type ScanResult = Result<ScanTree, String>;

/// The bytes of the files among the first `n` records.
pub open spec fn file_bytes(recs: Seq<EntryView>, n: int) -> nat
    decreases n,
{
    if n <= 0 {
        0
    } else {
        file_bytes(recs, n - 1) + if !recs[n - 1].is_dir { recs[n - 1].size as nat } else { 0 }
    }
}

/// No folder holds more bytes than all the files together.
proof fn lemma_subtotal_le_file_bytes(recs: Seq<EntryView>, d: Seq<PartView>, n: int)
    ensures
        subtotal(recs, d, n) <= file_bytes(recs, n),
    decreases n,
{
    if n > 0 {
        lemma_subtotal_le_file_bytes(recs, d, n - 1);
    }
}

/// Whether the bytes of all the files fit in a `u64`, so that no folder's
/// total can overflow.
pub fn file_bytes_fit(records: &[EntryInfo]) -> (res: bool)
    ensures
        res == (file_bytes(entry_views(records@), records@.len() as int) <= u64::MAX),
        res ==> forall|d: Seq<PartView>| #[trigger] subtotal(entry_views(records@), d, records@.len() as int) <= u64::MAX,
{
    let ghost recs = entry_views(records@);
    let mut sum: u64 = 0;
    let mut i: usize = 0;
    while i < records.len()
        invariant
            recs == entry_views(records@),
            i <= records@.len(),
            sum == file_bytes(recs, i as int),
        decreases records@.len() - i,
    {
        assert(recs[i as int] == records@[i as int]@);
        if !records[i].is_dir {
            match sum.checked_add(records[i].size) {
                Some(s) => {
                    sum = s;
                },
                None => {
                    proof {
                        lemma_file_bytes_mono(recs, i + 1, records@.len() as int);
                    }
                    return false;
                },
            }
        }
        i += 1;
    }
    proof {
        assert forall|d: Seq<PartView>| #[trigger] subtotal(recs, d, records@.len() as int) <= u64::MAX by {
            lemma_subtotal_le_file_bytes(recs, d, records@.len() as int);
        }
    }
    true
}

proof fn lemma_file_bytes_mono(recs: Seq<EntryView>, i: int, n: int)
    requires
        0 <= i <= n,
    ensures
        file_bytes(recs, i) <= file_bytes(recs, n),
    decreases n - i,
{
    if i < n {
        lemma_file_bytes_mono(recs, i, n - 1);
    }
}

/// Turns what the fast scan read off a drive into its result: the tree of
/// the file records, or the reader's error message unchanged.
pub fn run_scan(drive_root: FsPath, read: Result<Vec<EntryInfo>, String>) -> (res: ScanResult)
    requires
        read matches Ok(records) ==> forall|d: Seq<PartView>|
            #[trigger] subtotal(entry_views(records@), d, records@.len() as int) <= u64::MAX,
    ensures
        match read {
            Ok(records) => match res {
                Ok(tree) => {
                    &&& tree.root() == drive_root@
                    &&& forall|d: Seq<PartView>| #[trigger] tree.total(d) == subtotal(entry_views(records@), d, records@.len() as int)
                    &&& forall|d: Seq<PartView>| #[trigger] tree.has_total(d) == (subtotal(entry_views(records@), d, records@.len() as int) > 0)
                    &&& forall|d: Seq<PartView>| sorted_by_size(raw_listing(entry_views(records@), d), #[trigger] tree.listing(d))
                },
                Err(_) => false,
            },
            Err(e) => res == Err::<ScanTree, String>(e),
        },
{
    match read {
        Ok(records) => Ok(build_tree(drive_root, records)),
        Err(e) => Err(e),
    }
}

} // verus!
