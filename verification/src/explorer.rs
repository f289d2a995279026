//! The storage explorer's state: the drive overview, the folder being
//! viewed with its entries sorted by size, and how streamed scan results and
//! a finished fast scan update it.

use std::cmp::Ordering;
use vstd::prelude::*;
use crate::paths::{FsPath, PartView, copy_string, starts_with};
use crate::mft_scan::ScanTree;

verus! {

/// One folder entry: a file or a subdirectory with its size in bytes.
pub struct EntryInfo {
    pub name: String,
    pub path: FsPath,
    pub size: u64,
    pub is_dir: bool,
}

/// A folder entry as plain values.
pub ghost struct EntryView {
    pub name: Seq<char>,
    pub path: Seq<PartView>,
    pub size: u64,
    pub is_dir: bool,
}

impl View for EntryInfo {
    type V = EntryView;

    open spec fn view(&self) -> EntryView {
        EntryView { name: self.name@, path: self.path@, size: self.size, is_dir: self.is_dir }
    }
}

/// The entries of a list as plain values.
pub open spec fn entry_views(s: Seq<EntryInfo>) -> Seq<EntryView> {
    s.map_values(|e: EntryInfo| e@)
}

impl EntryInfo {
    /// A copy of the entry.
    pub fn copy(&self) -> (res: EntryInfo)
        ensures
            res@ == self@,
    {
        EntryInfo {
            name: copy_string(&self.name),
            path: self.path.copy(),
            size: self.size,
            is_dir: self.is_dir,
        }
    }
}

/// A copy of a list of entries.
pub fn copy_entries(v: &Vec<EntryInfo>) -> (res: Vec<EntryInfo>)
    ensures
        entry_views(res@) == entry_views(v@),
{
    let mut res: Vec<EntryInfo> = Vec::new();
    let mut i: usize = 0;
    while i < v.len()
        invariant
            i <= v@.len(),
            res@.len() == i,
            forall|k: int| 0 <= k < i ==> (#[trigger] res@[k])@ == v@[k]@,
        decreases v@.len() - i,
    {
        res.push(v[i].copy());
        i += 1;
    }
    assert(entry_views(res@) =~= entry_views(v@));
    res
}

/// `after` is `before` reordered by the index map `p`: biggest size first,
/// entries of equal size keeping their original order.
pub open spec fn stable_desc_by(before: Seq<EntryView>, after: Seq<EntryView>, p: Seq<int>) -> bool {
    &&& p.len() == before.len()
    &&& after.len() == before.len()
    &&& forall|k: int| 0 <= k < p.len() ==> 0 <= #[trigger] p[k] < before.len() && after[k] == before[p[k]]
    &&& forall|k: int, l: int| 0 <= k < l < p.len() ==> #[trigger] p[k] != #[trigger] p[l]
    &&& forall|k: int, l: int| 0 <= k < l < after.len() ==> (#[trigger] after[k]).size >= (#[trigger] after[l]).size
    &&& forall|k: int, l: int|
        0 <= k < l < p.len() && after[k].size == after[l].size ==> #[trigger] p[k] < #[trigger] p[l]
}

/// `after` is a stable sort of `before` by size, biggest first.
pub open spec fn sorted_by_size(before: Seq<EntryView>, after: Seq<EntryView>) -> bool {
    exists|p: Seq<int>| stable_desc_by(before, after, p)
}

/// The order of two entries in a listing, biggest first: `a` comes before
/// `b` when it is bigger, and entries of equal size are equal.
pub fn size_order(a: &EntryInfo, b: &EntryInfo) -> (res: Ordering)
    ensures
        res == if a.size > b.size {
            Ordering::Less
        } else if a.size == b.size {
            Ordering::Equal
        } else {
            Ordering::Greater
        },
{
    if a.size > b.size {
        Ordering::Less
    } else if a.size == b.size {
        Ordering::Equal
    } else {
        Ordering::Greater
    }
}

/// Sorts entries by size, biggest first, keeping entries of equal size in
/// their order.
///
/// Calls `slice::sort_by` with `size_order` as the comparator. std documents
/// that sort as stable (equal elements are not reordered) and as ordering the
/// elements by the comparator, so the result is the entries in descending
/// size, ties in their original order; the contract states that through an
/// index map.
#[verifier::external_body]
pub fn sort_by_size(v: &mut Vec<EntryInfo>)
    ensures
        sorted_by_size(entry_views(old(v)@), entry_views(final(v)@)),
{
    v.sort_by(|a, b| size_order(a, b));
}

/// The ASCII lower-case form of a character.
pub open spec fn ascii_lower(c: char) -> char {
    if 'A' <= c && c <= 'Z' {
        ((c as u32) + 32) as char
    } else {
        c
    }
}

/// Whether two strings are equal ignoring ASCII case.
pub open spec fn eq_ignore_ascii_case(a: Seq<char>, b: Seq<char>) -> bool {
    a.len() == b.len() && forall|i: int| 0 <= i < a.len() ==> ascii_lower(#[trigger] a[i]) == ascii_lower(b[i])
}

fn lower_char(c: char) -> (r: char)
    ensures
        r == ascii_lower(c),
{
    if 'A' <= c && c <= 'Z' {
        ((c as u8) + 32) as char
    } else {
        c
    }
}

/// Whether two strings are equal ignoring ASCII case.
pub fn str_eq_ignore_ascii_case(a: &str, b: &str) -> (res: bool)
    ensures
        res == eq_ignore_ascii_case(a@, b@),
{
    let n = a.unicode_len();
    if n != b.unicode_len() {
        return false;
    }
    let mut i: usize = 0;
    while i < n
        invariant
            n == a@.len(),
            n == b@.len(),
            i <= n,
            forall|k: int| 0 <= k < i ==> ascii_lower(#[trigger] a@[k]) == ascii_lower(b@[k]),
        decreases n - i,
    {
        if lower_char(a.get_char(i)) != lower_char(b.get_char(i)) {
            return false;
        }
        i += 1;
    }
    true
}

/// What the explorer and the disks panel read of a mounted disk.
pub struct DiskSample {
    pub mount: FsPath,
    /// The mount point as text.
    pub label: String,
    pub total_space: u64,
    pub available_space: u64,
    pub removable: bool,
    pub file_system: String,
}

/// A drive in the explorer's overview.
pub struct DriveInfo {
    pub label: String,
    pub path: FsPath,
    pub used: u64,
    pub total: u64,
    /// A local NTFS volume the MFT fast scan can read (given admin rights).
    pub fast_scan_ok: bool,
}

/// Whether the fast scan can read a disk: local (not removable) and NTFS.
pub open spec fn fast_scan_ok_spec(d: DiskSample) -> bool {
    !d.removable && eq_ignore_ascii_case(d.file_system@, seq!['n', 't', 'f', 's'])
}

/// Space in use: total minus available, or zero when more is available than
/// the total.
pub open spec fn used_space(total: u64, available: u64) -> u64 {
    if total >= available { (total - available) as u64 } else { 0 }
}

/// Free space: total minus used, or zero when more is used than the total.
pub open spec fn free_space(total: u64, used: u64) -> u64 {
    if total >= used { (total - used) as u64 } else { 0 }
}

/// The overview entry for a disk.
pub fn drive_of(d: &DiskSample) -> (res: DriveInfo)
    ensures
        res.label@ == d.label@,
        res.path@ == d.mount@,
        res.total == d.total_space,
        res.used == used_space(d.total_space, d.available_space),
        res.fast_scan_ok == fast_scan_ok_spec(*d),
{
    proof {
        reveal_strlit("ntfs");
        assert("ntfs"@ =~= seq!['n', 't', 'f', 's']);
    }
    let fast_scan_ok = !d.removable && str_eq_ignore_ascii_case(d.file_system.as_str(), "ntfs");
    DriveInfo {
        label: copy_string(&d.label),
        path: d.mount.copy(),
        total: d.total_space,
        used: d.total_space.saturating_sub(d.available_space),
        fast_scan_ok,
    }
}

/// A message from the background folder walk.
pub enum ScanMsg {
    /// A child of the folder, with its size.
    Entry(EntryInfo),
    /// The walk is over.
    Done,
    /// The folder could not be read.
    Error(String),
}

/// The storage explorer: drive overview, and the folder being viewed.
pub struct ExplorerPanel {
    pub roots: Vec<DriveInfo>,
    pub current_dir: Option<FsPath>,
    pub entries: Vec<EntryInfo>,
    pub dir_total: u64,
    pub loading: bool,
    pub error: Option<String>,
    /// A finished fast scan, backing instant navigation within its drive.
    pub tree: Option<ScanTree>,
    pub scanning: bool,
    /// The shown entries came from the fast-scan tree (logical sizes) rather
    /// than the live walk (on-disk sizes).
    pub viewing_tree: bool,
}

/// The characters of an optional path.
pub open spec fn opt_path(p: Option<FsPath>) -> Option<Seq<PartView>> {
    match p {
        Some(q) => Some(q@),
        None => None,
    }
}

/// Whether a finished fast scan covers `dir`.
pub open spec fn tree_covers(tree: Option<ScanTree>, dir: Seq<PartView>) -> bool {
    match tree {
        Some(t) => starts_with(dir, t.root()),
        None => false,
    }
}

impl ExplorerPanel {
    /// An explorer at the drive overview, with nothing scanned.
    pub fn new() -> (res: ExplorerPanel)
        ensures
            res.roots@.len() == 0,
            res.current_dir is None,
            res.entries@.len() == 0,
            res.dir_total == 0,
            !res.loading,
            res.error is None,
            res.tree is None,
            !res.scanning,
            !res.viewing_tree,
    {
        ExplorerPanel {
            roots: Vec::new(),
            current_dir: None,
            entries: Vec::new(),
            dir_total: 0,
            loading: false,
            error: None,
            tree: None,
            scanning: false,
            viewing_tree: false,
        }
    }

    /// Replaces the drive overview with the disks just read.
    pub fn set_drives(&mut self, disks: &[DiskSample])
        ensures
            final(self).roots@.len() == disks@.len(),
            forall|i: int|
                0 <= i < disks@.len() ==> {
                    &&& (#[trigger] final(self).roots@[i]).label@ == disks@[i].label@
                    &&& final(self).roots@[i].path@ == disks@[i].mount@
                    &&& final(self).roots@[i].total == disks@[i].total_space
                    &&& final(self).roots@[i].used == used_space(disks@[i].total_space, disks@[i].available_space)
                    &&& final(self).roots@[i].fast_scan_ok == fast_scan_ok_spec(disks@[i])
                },
            final(self).current_dir == old(self).current_dir,
            final(self).entries == old(self).entries,
            final(self).dir_total == old(self).dir_total,
            final(self).loading == old(self).loading,
            final(self).error == old(self).error,
            final(self).tree == old(self).tree,
            final(self).scanning == old(self).scanning,
            final(self).viewing_tree == old(self).viewing_tree,
    {
        let mut roots: Vec<DriveInfo> = Vec::new();
        let mut i: usize = 0;
        while i < disks.len()
            invariant
                i <= disks@.len(),
                roots@.len() == i,
                forall|k: int|
                    0 <= k < i ==> {
                        &&& (#[trigger] roots@[k]).label@ == disks@[k].label@
                        &&& roots@[k].path@ == disks@[k].mount@
                        &&& roots@[k].total == disks@[k].total_space
                        &&& roots@[k].used == used_space(disks@[k].total_space, disks@[k].available_space)
                        &&& roots@[k].fast_scan_ok == fast_scan_ok_spec(disks@[k])
                    },
            decreases disks@.len() - i,
        {
            roots.push(drive_of(&disks[i]));
            i += 1;
        }
        self.roots = roots;
    }

    /// Opens the folder `dir`, or returns to the drive overview for `None`.
    /// A folder inside the fast-scanned drive is served from the scan at
    /// once; any other folder starts a live walk, which the caller runs: the
    /// result says whether it must.
    pub fn navigate(&mut self, dir: Option<FsPath>) -> (walk: bool)
        ensures
            opt_path(final(self).current_dir) == opt_path(dir),
            final(self).error is None,
            final(self).roots == old(self).roots,
            final(self).tree == old(self).tree,
            final(self).scanning == old(self).scanning,
            match dir {
                None => {
                    &&& !walk
                    &&& final(self).entries@.len() == 0
                    &&& final(self).dir_total == 0
                    &&& !final(self).loading
                    &&& !final(self).viewing_tree
                },
                Some(d) => if tree_covers(old(self).tree, d@) {
                    &&& !walk
                    &&& entry_views(final(self).entries@) == old(self).tree.unwrap().listing(d@)
                    &&& final(self).dir_total == old(self).tree.unwrap().total(d@)
                    &&& !final(self).loading
                    &&& final(self).viewing_tree
                } else {
                    &&& walk
                    &&& final(self).entries@.len() == 0
                    &&& final(self).dir_total == 0
                    &&& final(self).loading
                    &&& !final(self).viewing_tree
                },
            },
    {
        self.entries = Vec::new();
        self.dir_total = 0;
        self.error = None;
        self.viewing_tree = false;
        match dir {
            None => {
                self.current_dir = None;
                self.loading = false;
                false
            },
            Some(d) => {
                let covered = match &self.tree {
                    Some(tree) => d.starts_with(tree.drive_root()),
                    None => false,
                };
                if covered {
                    let tree = self.tree.as_ref().unwrap();
                    self.entries = tree.children_of(&d);
                    self.dir_total = tree.total_of(&d);
                    self.viewing_tree = true;
                    self.loading = false;
                    self.current_dir = Some(d);
                    false
                } else {
                    self.loading = true;
                    self.current_dir = Some(d);
                    true
                }
            },
        }
    }

    /// Begins a fast scan, which the caller runs: drops the previous scan.
    pub fn start_fast_scan(&mut self)
        ensures
            final(self).tree is None,
            final(self).scanning,
            final(self).error is None,
            final(self).roots == old(self).roots,
            final(self).current_dir == old(self).current_dir,
            final(self).entries == old(self).entries,
            final(self).dir_total == old(self).dir_total,
            final(self).loading == old(self).loading,
            final(self).viewing_tree == old(self).viewing_tree,
    {
        self.tree = None;
        self.scanning = true;
        self.error = None;
    }

    /// A fast scan finished. On success its tree backs navigation from now
    /// on and the open folder, if any, is reloaded (the result says whether
    /// that needs a live walk); on failure its message is shown.
    pub fn scan_finished(&mut self, result: Result<ScanTree, String>) -> (walk: bool)
        ensures
            !final(self).scanning,
            final(self).roots == old(self).roots,
            match result {
                Ok(t) => {
                    &&& final(self).tree == Some(t)
                    &&& final(self).error is None
                    &&& opt_path(final(self).current_dir) == opt_path(old(self).current_dir)
                    &&& match old(self).current_dir {
                        None => {
                            &&& !walk
                            &&& final(self).entries == old(self).entries
                            &&& final(self).dir_total == old(self).dir_total
                            &&& final(self).loading == old(self).loading
                            &&& final(self).viewing_tree == old(self).viewing_tree
                        },
                        Some(d) => if starts_with(d@, t.root()) {
                            &&& !walk
                            &&& entry_views(final(self).entries@) == t.listing(d@)
                            &&& final(self).dir_total == t.total(d@)
                            &&& !final(self).loading
                            &&& final(self).viewing_tree
                        } else {
                            &&& walk
                            &&& final(self).entries@.len() == 0
                            &&& final(self).dir_total == 0
                            &&& final(self).loading
                            &&& !final(self).viewing_tree
                        },
                    }
                },
                Err(e) => {
                    &&& !walk
                    &&& final(self).error == Some(e)
                    &&& final(self).tree == old(self).tree
                    &&& final(self).current_dir == old(self).current_dir
                    &&& final(self).entries == old(self).entries
                    &&& final(self).dir_total == old(self).dir_total
                    &&& final(self).loading == old(self).loading
                    &&& final(self).viewing_tree == old(self).viewing_tree
                },
            },
    {
        match result {
            Ok(tree) => {
                self.tree = Some(tree);
                self.scanning = false;
                self.error = None;
                // If we're already viewing a folder, refill it from the tree.
                if self.current_dir.is_some() {
                    let dir = self.current_dir.as_ref().unwrap().copy();
                    self.navigate(Some(dir))
                } else {
                    false
                }
            },
            Err(err) => {
                self.error = Some(err);
                self.scanning = false;
                false
            },
        }
    }

    /// The fast scan stopped without a result.
    pub fn scan_lost(&mut self)
        ensures
            !final(self).scanning,
            final(self).roots == old(self).roots,
            final(self).current_dir == old(self).current_dir,
            final(self).entries == old(self).entries,
            final(self).dir_total == old(self).dir_total,
            final(self).loading == old(self).loading,
            final(self).error == old(self).error,
            final(self).tree == old(self).tree,
            final(self).viewing_tree == old(self).viewing_tree,
    {
        self.scanning = false;
    }

    /// Takes one message of the live folder walk. An entry is added and
    /// counted toward the folder total (the result says the list changed);
    /// the end of the walk, or an error, stops the loading indicator.
    pub fn walk_message(&mut self, msg: ScanMsg) -> (changed: bool)
        requires
            msg matches ScanMsg::Entry(e) ==> old(self).dir_total + e.size <= u64::MAX,
        ensures
            final(self).roots == old(self).roots,
            final(self).current_dir == old(self).current_dir,
            final(self).tree == old(self).tree,
            final(self).scanning == old(self).scanning,
            final(self).viewing_tree == old(self).viewing_tree,
            match msg {
                ScanMsg::Entry(e) => {
                    &&& changed
                    &&& final(self).dir_total == old(self).dir_total + e.size
                    &&& final(self).entries@ == old(self).entries@.push(e)
                    &&& final(self).loading == old(self).loading
                    &&& final(self).error == old(self).error
                },
                ScanMsg::Done => {
                    &&& !changed
                    &&& !final(self).loading
                    &&& final(self).entries == old(self).entries
                    &&& final(self).dir_total == old(self).dir_total
                    &&& final(self).error == old(self).error
                },
                ScanMsg::Error(err) => {
                    &&& !changed
                    &&& !final(self).loading
                    &&& final(self).error == Some(err)
                    &&& final(self).entries == old(self).entries
                    &&& final(self).dir_total == old(self).dir_total
                },
            },
    {
        match msg {
            ScanMsg::Entry(entry) => {
                self.dir_total = self.dir_total + entry.size;
                self.entries.push(entry);
                true
            },
            ScanMsg::Done => {
                self.loading = false;
                false
            },
            ScanMsg::Error(err) => {
                self.error = Some(err);
                self.loading = false;
                false
            },
        }
    }

    /// The live walk stopped without saying it was done.
    pub fn walk_lost(&mut self)
        ensures
            !final(self).loading,
            final(self).roots == old(self).roots,
            final(self).current_dir == old(self).current_dir,
            final(self).entries == old(self).entries,
            final(self).dir_total == old(self).dir_total,
            final(self).error == old(self).error,
            final(self).tree == old(self).tree,
            final(self).scanning == old(self).scanning,
            final(self).viewing_tree == old(self).viewing_tree,
    {
        self.loading = false;
    }

    /// Orders the folder's entries biggest first (after new ones arrived).
    pub fn sort_entries(&mut self)
        ensures
            sorted_by_size(entry_views(old(self).entries@), entry_views(final(self).entries@)),
            final(self).roots == old(self).roots,
            final(self).current_dir == old(self).current_dir,
            final(self).dir_total == old(self).dir_total,
            final(self).loading == old(self).loading,
            final(self).error == old(self).error,
            final(self).tree == old(self).tree,
            final(self).scanning == old(self).scanning,
            final(self).viewing_tree == old(self).viewing_tree,
    {
        sort_by_size(&mut self.entries);
    }
}

/// The entries that arrive in a sequence of walk messages, in order.
pub open spec fn arrived(ms: Seq<ScanMsg>) -> Seq<EntryView>
    decreases ms.len(),
{
    if ms.len() == 0 {
        Seq::empty()
    } else {
        match ms.last() {
            ScanMsg::Entry(e) => arrived(ms.drop_last()).push(e@),
            _ => arrived(ms.drop_last()),
        }
    }
}

/// The entry a walk message carries (a placeholder for the other
/// messages).
pub open spec fn msg_entry(m: ScanMsg) -> EntryView {
    match m {
        ScanMsg::Entry(e) => e@,
        _ => EntryView { name: Seq::empty(), path: Seq::empty(), size: 0, is_dir: false },
    }
}

/// The entry messages among walk messages, in order.
pub open spec fn entry_msgs(ms: Seq<ScanMsg>) -> Seq<ScanMsg> {
    ms.filter(|m: ScanMsg| m is Entry)
}

/// Every entry message of a walk, file or folder, arrives, once and in
/// order: what arrives is the entries the entry messages carry, one per
/// entry message.
pub proof fn lemma_arrived_every_entry(ms: Seq<ScanMsg>)
    ensures
        arrived(ms) == entry_msgs(ms).map_values(|m: ScanMsg| msg_entry(m)),
        arrived(ms).len() == entry_msgs(ms).len(),
    decreases ms.len(),
{
    if ms.len() > 0 {
        lemma_arrived_every_entry(ms.drop_last());
        reveal(Seq::filter);
        assert(entry_msgs(ms) == if ms.last() is Entry {
            entry_msgs(ms.drop_last()).push(ms.last())
        } else {
            entry_msgs(ms.drop_last())
        });
        assert(arrived(ms) =~= entry_msgs(ms).map_values(|m: ScanMsg| msg_entry(m)));
    }
}

/// Whether a sequence of walk messages says the walk is over: it holds the
/// end of the walk or an error.
pub open spec fn walk_ended(ms: Seq<ScanMsg>) -> bool
    decreases ms.len(),
{
    if ms.len() == 0 {
        false
    } else {
        walk_ended(ms.drop_last()) || !(ms.last() is Entry)
    }
}

/// The last error among a sequence of walk messages, if any.
pub open spec fn last_error(ms: Seq<ScanMsg>) -> Option<String>
    decreases ms.len(),
{
    if ms.len() == 0 {
        None
    } else {
        match ms.last() {
            ScanMsg::Error(e) => Some(e),
            _ => last_error(ms.drop_last()),
        }
    }
}

/// The entries arriving in a prefix of the messages weigh no more than all
/// of them.
proof fn lemma_arrived_prefix_sum(ms: Seq<ScanMsg>, k: int)
    requires
        0 <= k <= ms.len(),
    ensures
        size_sum(arrived(ms.take(k))) <= size_sum(arrived(ms)),
    decreases ms.len() - k,
{
    if k < ms.len() {
        lemma_arrived_prefix_sum(ms.drop_last(), k);
        assert(ms.drop_last().take(k) =~= ms.take(k));
        assert(ms.take(ms.len() as int) =~= ms);
        match ms.last() {
            ScanMsg::Entry(e) => {
                assert(arrived(ms).drop_last() =~= arrived(ms.drop_last()));
            },
            _ => {},
        }
    } else {
        assert(ms.take(k) =~= ms);
    }
}

impl ExplorerPanel {
    /// Takes the messages the live walk has sent since the last frame, in
    /// order, then whether the walk has closed without saying it was done.
    /// Every arriving entry joins the listing and counts toward the folder
    /// total, and the listing is sorted biggest first once any arrived; the
    /// end of the walk, an error or the walk closing stops the loading
    /// indicator; the last error is the one shown.
    pub fn drain_walk(&mut self, msgs: Vec<ScanMsg>, closed: bool)
        requires
            old(self).dir_total + size_sum(arrived(msgs@)) <= u64::MAX,
        ensures
            final(self).roots == old(self).roots,
            final(self).current_dir == old(self).current_dir,
            final(self).tree == old(self).tree,
            final(self).scanning == old(self).scanning,
            final(self).viewing_tree == old(self).viewing_tree,
            final(self).dir_total == old(self).dir_total + size_sum(arrived(msgs@)),
            final(self).entries@.len() == old(self).entries@.len() + entry_msgs(msgs@).len(),
            if arrived(msgs@).len() > 0 {
                sorted_by_size(entry_views(old(self).entries@) + arrived(msgs@), entry_views(final(self).entries@))
            } else {
                final(self).entries == old(self).entries
            },
            final(self).loading == (old(self).loading && !walk_ended(msgs@) && !closed),
            final(self).error == match last_error(msgs@) {
                Some(e) => Some(e),
                None => old(self).error,
            },
            old(self).dir_total == size_sum(entry_views(old(self).entries@)) ==> final(self).dir_total
                == size_sum(entry_views(final(self).entries@)),
    {
        let ghost orig = msgs@;
        let ghost start = entry_views(self.entries@);
        proof {
            lemma_arrived_every_entry(orig);
        }
        let mut msgs = msgs;
        let n = msgs.len();
        let mut changed = false;
        let mut k: usize = 0;
        while k < n
            invariant
                k <= n,
                n == orig.len(),
                msgs@ == orig.skip(k as int),
                old(self).dir_total + size_sum(arrived(orig)) <= u64::MAX,
                start == entry_views(old(self).entries@),
                self.roots == old(self).roots,
                self.current_dir == old(self).current_dir,
                self.tree == old(self).tree,
                self.scanning == old(self).scanning,
                self.viewing_tree == old(self).viewing_tree,
                self.dir_total == old(self).dir_total + size_sum(arrived(orig.take(k as int))),
                entry_views(self.entries@) == start + arrived(orig.take(k as int)),
                arrived(orig.take(k as int)).len() == 0 ==> self.entries == old(self).entries,
                changed == (arrived(orig.take(k as int)).len() > 0),
                self.loading == (old(self).loading && !walk_ended(orig.take(k as int))),
                self.error == match last_error(orig.take(k as int)) {
                    Some(e) => Some(e),
                    None => old(self).error,
                },
                old(self).dir_total == size_sum(start) ==> self.dir_total == size_sum(entry_views(self.entries@)),
            decreases n - k,
        {
            let ghost pre = orig.take(k as int);
            let ghost before = self.entries@;
            let ghost total_before = self.dir_total;
            let msg = msgs.remove(0);
            assert(msg == orig[k as int]);
            assert(orig.take(k + 1).drop_last() =~= pre);
            assert(orig.take(k + 1).last() == orig[k as int]);
            assert(msgs@ =~= orig.skip(k + 1));
            let ghost mview = msg;
            proof {
                lemma_arrived_prefix_sum(orig, k + 1);
                match mview {
                    ScanMsg::Entry(e) => {
                        assert(arrived(orig.take(k + 1)) == arrived(pre).push(e@));
                        assert(arrived(orig.take(k + 1)).drop_last() =~= arrived(pre));
                        assert(size_sum(arrived(orig.take(k + 1))) == size_sum(arrived(pre)) + e.size);
                    },
                    _ => {},
                }
            }
            let got = self.walk_message(msg);
            proof {
                match mview {
                    ScanMsg::Entry(e) => {
                        assert(entry_views(self.entries@) =~= entry_views(before).push(e@));
                        assert(size_sum(arrived(orig.take(k + 1))) == size_sum(arrived(pre)) + e.size) by {
                            assert(arrived(orig.take(k + 1)).drop_last() =~= arrived(pre));
                        }
                        assert(entry_views(self.entries@) =~= start + arrived(orig.take(k + 1)));
                        if old(self).dir_total == size_sum(start) {
                            lemma_entry_keeps_total(entry_views(before), total_before as nat, e@);
                        }
                    },
                    _ => {},
                }
            }
            changed = changed || got;
            k += 1;
        }
        assert(orig.take(orig.len() as int) =~= orig);
        if closed {
            self.walk_lost();
        }
        if changed {
            let ghost unsorted = entry_views(self.entries@);
            self.sort_entries();
            proof {
                lemma_sort_keeps_total(unsorted, entry_views(self.entries@));
            }
        }
    }
}

/// What the fast-scan control under a drive shows.
#[derive(Clone, Copy, PartialEq, Eq, Debug, Structural)]
pub enum FastScanControl {
    /// The drive cannot be fast-scanned: no control.
    Unavailable,
    /// A scan is running: a spinner.
    Scanning,
    /// A scan button; `rescan` when a finished scan is held.
    Scan { rescan: bool },
    /// A button that relaunches the app with administrator rights.
    NeedsAdmin,
}

impl DriveInfo {
    /// Free space: total minus used, or zero.
    pub fn free(&self) -> (res: u64)
        ensures
            res == free_space(self.total, self.used),
    {
        self.total.saturating_sub(self.used)
    }
}

impl ExplorerPanel {
    /// The fast-scan control shown under a drive: none unless the drive can
    /// be fast-scanned; a spinner while scanning; a scan (or re-scan) button
    /// when running elevated; otherwise a button asking for admin rights.
    pub fn fast_scan_control(&self, drive: &DriveInfo, elevated: bool) -> (res: FastScanControl)
        ensures
            res == if !drive.fast_scan_ok {
                FastScanControl::Unavailable
            } else if self.scanning {
                FastScanControl::Scanning
            } else if elevated {
                FastScanControl::Scan { rescan: self.tree is Some }
            } else {
                FastScanControl::NeedsAdmin
            },
    {
        if !drive.fast_scan_ok {
            FastScanControl::Unavailable
        } else if self.scanning {
            FastScanControl::Scanning
        } else if elevated {
            FastScanControl::Scan { rescan: self.tree.is_some() }
        } else {
            FastScanControl::NeedsAdmin
        }
    }

    /// The heading of the size column: logical sizes from the fast scan, or
    /// on-disk sizes from the live walk.
    pub fn size_heading(&self) -> (res: &'static str)
        ensures
            res@ == if self.viewing_tree {
                seq!['S', 'i', 'z', 'e', ' ', '(', 'M', 'F', 'T', ')']
            } else {
                seq!['S', 'i', 'z', 'e', ' ', 'o', 'n', ' ', 'd', 'i', 's', 'k']
            },
    {
        proof {
            reveal_strlit("Size (MFT)");
            reveal_strlit("Size on disk");
            assert("Size (MFT)"@ =~= seq!['S', 'i', 'z', 'e', ' ', '(', 'M', 'F', 'T', ')']);
            assert("Size on disk"@ =~= seq!['S', 'i', 'z', 'e', ' ', 'o', 'n', ' ', 'd', 'i', 's', 'k']);
        }
        if self.viewing_tree {
            "Size (MFT)"
        } else {
            "Size on disk"
        }
    }

    /// The whole against which each entry's share bar is drawn: the folder
    /// total, at least one.
    pub fn share_base(&self) -> (res: u64)
        ensures
            res == if self.dir_total >= 1 { self.dir_total } else { 1 },
    {
        if self.dir_total >= 1 {
            self.dir_total
        } else {
            1
        }
    }
}

/// The sum of the entries' sizes.
pub open spec fn size_sum(s: Seq<EntryView>) -> nat
    decreases s.len(),
{
    if s.len() == 0 {
        0
    } else {
        size_sum(s.drop_last()) + s.last().size as nat
    }
}

/// An arriving entry adds exactly its size to the folder total, so a total
/// that matched the listed entries still matches them.
pub proof fn lemma_entry_keeps_total(entries: Seq<EntryView>, total: nat, e: EntryView)
    requires
        total == size_sum(entries),
    ensures
        total + e.size == size_sum(entries.push(e)),
{
    assert(entries.push(e).drop_last() =~= entries);
}

/// Taking out the entry at `j` takes its size off the sum.
proof fn lemma_sum_remove(s: Seq<EntryView>, j: int)
    requires
        0 <= j < s.len(),
    ensures
        size_sum(s) == size_sum(s.remove(j)) + s[j].size,
    decreases s.len(),
{
    if j < s.len() - 1 {
        lemma_sum_remove(s.drop_last(), j);
        assert(s.remove(j).drop_last() =~= s.drop_last().remove(j));
        assert(s.remove(j).last() == s.last());
    } else {
        assert(s.remove(j) =~= s.drop_last());
    }
}

/// Reordering entries by an index map that uses each position once keeps
/// their total size.
proof fn lemma_sum_reorder(before: Seq<EntryView>, after: Seq<EntryView>, p: Seq<int>)
    requires
        p.len() == before.len(),
        after.len() == before.len(),
        forall|k: int| 0 <= k < p.len() ==> 0 <= #[trigger] p[k] < before.len() && after[k] == before[p[k]],
        forall|k: int, l: int| 0 <= k < l < p.len() ==> #[trigger] p[k] != #[trigger] p[l],
    ensures
        size_sum(before) == size_sum(after),
    decreases before.len(),
{
    let n = before.len() as int;
    if n > 0 {
        let j = p[n - 1];
        let b2 = before.remove(j);
        let a2 = after.drop_last();
        let p2 = Seq::new((n - 1) as nat, |k: int| if p[k] < j { p[k] } else { p[k] - 1 });
        assert forall|k: int| 0 <= k < p2.len() implies 0 <= #[trigger] p2[k] < b2.len() && a2[k] == b2[p2[k]] by {
            assert(p[k] != p[n - 1]);
            assert(after[k] == before[p[k]]);
        }
        assert forall|k: int, l: int| 0 <= k < l < p2.len() implies #[trigger] p2[k] != #[trigger] p2[l] by {
            assert(p[k] != p[l]);
            assert(p[k] != p[n - 1]);
            assert(p[l] != p[n - 1]);
        }
        lemma_sum_reorder(b2, a2, p2);
        lemma_sum_remove(before, j);
        assert(after.last() == before[j]);
    }
}

/// Sorting the entries by size keeps their total size.
pub proof fn lemma_sort_keeps_total(before: Seq<EntryView>, after: Seq<EntryView>)
    requires
        sorted_by_size(before, after),
    ensures
        size_sum(before) == size_sum(after),
{
    let p = choose|p: Seq<int>| stable_desc_by(before, after, p);
    lemma_sum_reorder(before, after, p);
}

/// A disk in the disks panel.
pub struct DiskInfo {
    pub name: String,
    pub used: u64,
    pub total: u64,
}

/// Per-disk usage bars.
pub struct DisksPanel {
    pub disks: Vec<DiskInfo>,
}

impl DisksPanel {
    /// A panel with no disks read yet.
    pub fn new() -> (res: DisksPanel)
        ensures
            res.disks@.len() == 0,
    {
        DisksPanel { disks: Vec::new() }
    }

    /// Replaces the disks with those just read: each named by its mount
    /// point, with used space = total minus available.
    pub fn refresh(&mut self, disks: &[DiskSample])
        ensures
            final(self).disks@.len() == disks@.len(),
            forall|i: int|
                0 <= i < disks@.len() ==> {
                    &&& (#[trigger] final(self).disks@[i]).name@ == disks@[i].label@
                    &&& final(self).disks@[i].total == disks@[i].total_space
                    &&& final(self).disks@[i].used == used_space(disks@[i].total_space, disks@[i].available_space)
                },
    {
        let mut out: Vec<DiskInfo> = Vec::new();
        let mut i: usize = 0;
        while i < disks.len()
            invariant
                i <= disks@.len(),
                out@.len() == i,
                forall|k: int|
                    0 <= k < i ==> {
                        &&& (#[trigger] out@[k]).name@ == disks@[k].label@
                        &&& out@[k].total == disks@[k].total_space
                        &&& out@[k].used == used_space(disks@[k].total_space, disks@[k].available_space)
                    },
            decreases disks@.len() - i,
        {
            let d = &disks[i];
            out.push(DiskInfo {
                name: copy_string(&d.label),
                total: d.total_space,
                used: d.total_space.saturating_sub(d.available_space),
            });
            i += 1;
        }
        self.disks = out;
    }
}

} // verus!
