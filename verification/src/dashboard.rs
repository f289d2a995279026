//! The dashboard's persisted layout and the ordering decisions behind it:
//! the default widget set, which saved entries this build can show, and how
//! a drag reorders the cards.

use vstd::prelude::*;
use crate::widgets::{WidgetKind, WidgetSize, kind_id, kind_of};

verus! {

/// A JSON value, held as each widget's opaque per-instance configuration.
#[verifier::external_type_specification]
#[verifier::external_body]
pub struct ExJsonValue(serde_json::Value);

/// An empty (JSON `null`) widget configuration.
///
/// Builds `serde_json::Value::Null`. Nothing is stated of the value: the
/// library only carries configurations through, it never reads them.
#[verifier::external_body]
fn null_config() -> serde_json::Value {
    serde_json::Value::Null
}

/// A persisted widget placement. The dashboard's display order is the vec
/// order of the saved layout.
pub struct WidgetEntry {
    /// Registry id of the widget's kind.
    pub kind: String,
    /// Instance id, unique within the layout.
    pub id: u64,
    pub size: WidgetSize,
    /// Per-instance configuration, opaque to the dashboard.
    pub config: serde_json::Value,
}

/// The kinds, ids and sizes of the default widget set: CPU, Memory, Network
/// (medium) and Uptime, numbered from 1.
pub open spec fn default_entry(i: int) -> (WidgetKind, u64, WidgetSize) {
    if i == 0 {
        (WidgetKind::Cpu, 1, WidgetSize::Small)
    } else if i == 1 {
        (WidgetKind::Memory, 2, WidgetSize::Small)
    } else if i == 2 {
        (WidgetKind::Network, 3, WidgetSize::Medium)
    } else {
        (WidgetKind::System, 4, WidgetSize::Small)
    }
}

/// The default widget set for a fresh install: CPU, Memory, Network, Uptime.
pub fn default_layout() -> (res: Vec<WidgetEntry>)
    ensures
        res@.len() == 4,
        forall|i: int|
            0 <= i < 4 ==> {
                &&& (#[trigger] res@[i]).kind@ == kind_id(default_entry(i).0)
                &&& res@[i].id == default_entry(i).1
                &&& res@[i].size == default_entry(i).2
            },
{
    let kinds = [
        (WidgetKind::Cpu, WidgetSize::Small),
        (WidgetKind::Memory, WidgetSize::Small),
        (WidgetKind::Network, WidgetSize::Medium),
        (WidgetKind::System, WidgetSize::Small),
    ];
    let mut res: Vec<WidgetEntry> = Vec::new();
    let mut i: usize = 0;
    while i < 4
        invariant
            i <= 4,
            res@.len() == i,
            kinds@ == seq![
                (WidgetKind::Cpu, WidgetSize::Small),
                (WidgetKind::Memory, WidgetSize::Small),
                (WidgetKind::Network, WidgetSize::Medium),
                (WidgetKind::System, WidgetSize::Small),
            ],
            forall|k: int|
                0 <= k < i ==> {
                    &&& (#[trigger] res@[k]).kind@ == kind_id(default_entry(k).0)
                    &&& res@[k].id == default_entry(k).1
                    &&& res@[k].size == default_entry(k).2
                },
        decreases 4 - i,
    {
        let (kind, size) = kinds[i];
        res.push(
            WidgetEntry {
                kind: String::from_str(kind.id()),
                id: i as u64 + 1,
                size,
                config: null_config(),
            },
        );
        i += 1;
    }
    res
}

/// A card on the dashboard as its layout records it: the widget's instance
/// id, kind and size. The live widget behind it is the application's.
#[derive(Clone, Copy, PartialEq, Eq, Debug, Structural)]
pub struct Card {
    pub id: u64,
    pub kind: WidgetKind,
    pub size: WidgetSize,
}

/// What an entry persists of its widget: kind id, instance id and size.
pub open spec fn entry_meta(e: WidgetEntry) -> (Seq<char>, u64, WidgetSize) {
    (e.kind@, e.id, e.size)
}

/// What a card persists: its kind's registry id, instance id and size.
pub open spec fn card_meta(c: Card) -> (Seq<char>, u64, WidgetSize) {
    (kind_id(c.kind), c.id, c.size)
}

/// Whether this build knows the kind of a saved entry.
pub open spec fn is_known(e: WidgetEntry) -> bool {
    kind_of(e.kind@) is Some
}

/// The cards of the first `n` saved entries whose kind this build knows, in
/// order, each with the index of the entry it came from.
pub open spec fn known_cards(entries: Seq<WidgetEntry>, n: int) -> Seq<(usize, Card)>
    decreases n,
{
    if n <= 0 {
        Seq::empty()
    } else {
        let rest = known_cards(entries, n - 1);
        let e = entries[n - 1];
        match kind_of(e.kind@) {
            Some(k) => rest.push(((n - 1) as usize, Card { id: e.id, kind: k, size: e.size })),
            None => rest,
        }
    }
}

/// The cards of the saved entries this build can show, each with the index
/// of its entry (whose configuration the widget takes): entries whose kind
/// is unknown (saved by a newer build) are skipped, the rest keep their
/// order.
pub fn cards_from_entries(entries: &[WidgetEntry]) -> (res: Vec<(usize, Card)>)
    ensures
        res@ == known_cards(entries@, entries@.len() as int),
{
    let mut res: Vec<(usize, Card)> = Vec::new();
    let mut i: usize = 0;
    while i < entries.len()
        invariant
            i <= entries@.len(),
            res@ == known_cards(entries@, i as int),
        decreases entries@.len() - i,
    {
        let e = &entries[i];
        match WidgetKind::lookup(e.kind.as_str()) {
            Some(k) => res.push((i, Card { id: e.id, kind: k, size: e.size })),
            None => {},
        }
        i += 1;
    }
    res
}

/// The entries that persist the cards, in order, each with the
/// configuration its widget reports.
pub fn entries_from_cards(cards: &[Card], configs: Vec<serde_json::Value>) -> (res: Vec<WidgetEntry>)
    requires
        configs@.len() == cards@.len(),
    ensures
        res@.len() == cards@.len(),
        forall|i: int|
            0 <= i < cards@.len() ==> entry_meta(#[trigger] res@[i]) == card_meta(cards@[i])
                && res@[i].config == configs@[i],
{
    let ghost all = configs@;
    let mut configs = configs;
    let mut res: Vec<WidgetEntry> = Vec::new();
    let mut i: usize = 0;
    while i < cards.len()
        invariant
            i <= cards@.len(),
            all.len() == cards@.len(),
            configs@ == all.skip(i as int),
            res@.len() == i,
            forall|k: int|
                0 <= k < i ==> entry_meta(#[trigger] res@[k]) == card_meta(cards@[k]) && res@[k].config == all[k],
        decreases cards@.len() - i,
    {
        let c = cards[i];
        let config = configs.remove(0);
        assert(configs@ =~= all.skip(i + 1));
        res.push(WidgetEntry { kind: String::from_str(c.kind.id()), id: c.id, size: c.size, config });
        i += 1;
    }
    res
}

/// A known registry id is the id of the kind it names.
pub proof fn lemma_kind_of_id(id: Seq<char>)
    ensures
        kind_of(id) matches Some(k) ==> kind_id(k) == id,
{
}

/// The saved entries whose kind this build knows, in order.
pub open spec fn known_only(entries: Seq<WidgetEntry>) -> Seq<WidgetEntry> {
    entries.filter(|e: WidgetEntry| is_known(e))
}

/// What the entries persist, in order.
pub open spec fn entry_metas(entries: Seq<WidgetEntry>) -> Seq<(Seq<char>, u64, WidgetSize)> {
    entries.map_values(|e: WidgetEntry| entry_meta(e))
}

/// What the cards persist, in order.
pub open spec fn card_metas(cards: Seq<(usize, Card)>) -> Seq<(Seq<char>, u64, WidgetSize)> {
    cards.map_values(|p: (usize, Card)| card_meta(p.1))
}

/// Persisting the cards read from saved entries gives back exactly the
/// entries whose kind this build knows, in their order, with their kinds,
/// ids and sizes: entries of unknown kinds are skipped and nothing else
/// changes.
pub proof fn lemma_cards_round_trip(entries: Seq<WidgetEntry>)
    ensures
        card_metas(known_cards(entries, entries.len() as int)) == entry_metas(known_only(entries)),
    decreases entries.len(),
{
    let n = entries.len() as int;
    if n > 0 {
        let front = entries.drop_last();
        lemma_cards_round_trip(front);
        lemma_known_cards_prefix(entries, n - 1);
        lemma_kind_of_id(entries.last().kind@);
        let lhs0 = card_metas(known_cards(front, n - 1));
        let rhs0 = entry_metas(known_only(front));
        reveal(Seq::filter);
        assert(known_only(entries) == if is_known(entries.last()) {
            known_only(front).push(entries.last())
        } else {
            known_only(front)
        });
        if is_known(entries.last()) {
            assert(card_metas(known_cards(entries, n)) =~= lhs0.push(entry_meta(entries.last())));
            assert(entry_metas(known_only(entries)) =~= rhs0.push(entry_meta(entries.last())));
        } else {
            assert(card_metas(known_cards(entries, n)) =~= lhs0);
            assert(entry_metas(known_only(entries)) =~= rhs0);
        }
    }
}

/// The cards of a prefix of the entries are those of the whole list up to
/// that point.
proof fn lemma_known_cards_prefix(entries: Seq<WidgetEntry>, m: int)
    requires
        0 <= m < entries.len(),
    ensures
        known_cards(entries.drop_last(), m) == known_cards(entries, m),
    decreases m,
{
    if m > 0 {
        lemma_known_cards_prefix(entries, m - 1);
        assert(entries.drop_last()[m - 1] == entries[m - 1]);
    }
}

/// A sequence with the item at `from` taken out and put back at `to`
/// (counted among the remaining items, and clamped to the end).
pub open spec fn moved<T>(s: Seq<T>, from: int, to: int) -> Seq<T> {
    let rest = s.remove(from);
    let at = if to < rest.len() { to } else { rest.len() as int };
    rest.insert(at, s[from])
}

/// Takes the item at `from` out and puts it back at `to`, counted among the
/// remaining items and clamped to the end: how a dropped card or tab is
/// committed.
pub fn reinsert<T>(v: &mut Vec<T>, from: usize, to: usize)
    requires
        from < old(v)@.len(),
    ensures
        final(v)@ == moved(old(v)@, from as int, to as int),
{
    let item = v.remove(from);
    let at = if to < v.len() { to } else { v.len() };
    v.insert(at, item);
}

/// The indices `0..n`.
pub open spec fn index_range(n: nat) -> Seq<usize> {
    Seq::new(n, |i: int| i as usize)
}

/// The display order while card `dragged` is held over insertion slot `k`:
/// the other cards in their order, with the dragged one placed at `k`.
pub fn drag_order(n: usize, dragged: usize, k: usize) -> (order: Vec<usize>)
    requires
        dragged < n,
    ensures
        order@ == moved(index_range(n as nat), dragged as int, k as int),
{
    let mut order: Vec<usize> = Vec::new();
    let mut i: usize = 0;
    while i < n
        invariant
            i <= n,
            dragged < n,
            order@ == (if i <= dragged { index_range(i as nat) } else { index_range(n as nat).remove(dragged as int).take(i - 1) }),
        decreases n - i,
    {
        if i != dragged {
            order.push(i);
        }
        proof {
            let r = index_range(n as nat).remove(dragged as int);
            if i < dragged {
                assert(order@ =~= index_range((i + 1) as nat));
            } else if i == dragged {
                assert(index_range(i as nat) =~= r.take(i as int));
            } else {
                assert(order@ =~= r.take(i as int));
            }
        }
        i += 1;
    }
    proof {
        let r = index_range(n as nat).remove(dragged as int);
        assert(order@ =~= r);
    }
    let at = if k < order.len() { k } else { order.len() };
    order.insert(at, dragged);
    order
}

/// How a frame's pointer events move a card drag on: the id of the card
/// dragged from now on, and the drop to commit as `(from, to)`. A drag that
/// stopped ends, committing the held card at its insertion slot when both
/// are known; otherwise a drag that started this frame takes over; otherwise
/// the current drag goes on.
pub fn drag_step(
    dragging: Option<u64>,
    started: Option<u64>,
    stopped: bool,
    held: Option<usize>,
    slot: Option<usize>,
) -> (res: (Option<u64>, Option<(usize, usize)>))
    ensures
        res.0 == if stopped {
            None
        } else if started is Some {
            started
        } else {
            dragging
        },
        res.1 == if stopped && held is Some && slot is Some {
            Some((held->0, slot->0))
        } else {
            None
        },
{
    let drop = match (held, slot) {
        (Some(from), Some(to)) => if stopped {
            Some((from, to))
        } else {
            None
        },
        _ => None,
    };
    let next = if stopped {
        None
    } else if started.is_some() {
        started
    } else {
        dragging
    };
    (next, drop)
}

/// The position of the card with instance id `id`, if any (the first one).
pub fn position_of_id(ids: &[u64], id: u64) -> (res: Option<usize>)
    ensures
        match res {
            Some(i) => i < ids@.len() && ids@[i as int] == id && forall|j: int|
                0 <= j < i ==> ids@[j] != id,
            None => forall|j: int| 0 <= j < ids@.len() ==> ids@[j] != id,
        },
{
    let mut i: usize = 0;
    while i < ids.len()
        invariant
            i <= ids@.len(),
            forall|j: int| 0 <= j < i ==> ids@[j] != id,
        decreases ids@.len() - i,
    {
        if ids[i] == id {
            return Some(i);
        }
        i += 1;
    }
    None
}

/// Moving an item keeps every item: the result is a rearrangement of the
/// original, of the same length, with the moved item at its target slot.
pub proof fn lemma_moved_permutes<T>(s: Seq<T>, from: int, to: int)
    requires
        0 <= from < s.len(),
        0 <= to,
    ensures
        moved(s, from, to).len() == s.len(),
        moved(s, from, to).to_multiset() == s.to_multiset(),
        moved(s, from, to)[if to < s.len() - 1 { to } else { s.len() - 1 }] == s[from],
{
    let rest = s.remove(from);
    let at = if to < rest.len() { to } else { rest.len() as int };
    broadcast use vstd::multiset::group_multiset_axioms;
    vstd::seq_lib::to_multiset_remove(s, from);
    vstd::seq_lib::to_multiset_insert(rest, at, s[from]);
    vstd::seq_lib::to_multiset_contains(s, s[from]);
    assert(s.contains(s[from]));
    assert(s.to_multiset().count(s[from]) > 0);
    assert(s.to_multiset().remove(s[from]).insert(s[from]) =~= s.to_multiset());
}

/// Items other than the moved one keep their relative order.
pub proof fn lemma_moved_keeps_others<T>(s: Seq<T>, from: int, to: int)
    requires
        0 <= from < s.len(),
        0 <= to,
    ensures
        moved(s, from, to).remove(if to < s.len() - 1 { to } else { s.len() - 1 }) == s.remove(from),
{
    let rest = s.remove(from);
    let at = if to < rest.len() { to } else { rest.len() as int };
    assert(rest.insert(at, s[from]).remove(at) =~= rest);
}

} // verus!
