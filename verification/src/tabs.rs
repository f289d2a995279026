//! The decisions behind the tab bar: which panels are shown, which tab is
//! active, the user's saved tab order, drag-reordering tabs, and when the
//! shared tick refreshes the data.

use vstd::prelude::*;
use crate::dashboard::moved;
use crate::text::str_eq;

verus! {

/// The characters of each string.
pub open spec fn names(s: Seq<String>) -> Seq<Seq<char>> {
    s.map_values(|x: String| x@)
}

/// Whether `name` is among `hidden`.
pub open spec fn is_hidden_spec(hidden: Seq<Seq<char>>, name: Seq<char>) -> bool {
    exists|j: int| 0 <= j < hidden.len() && hidden[j] == name
}

/// Whether the panel called `name` is hidden.
pub fn is_hidden(hidden: &[String], name: &str) -> (res: bool)
    ensures
        res == is_hidden_spec(names(hidden@), name@),
{
    let mut j: usize = 0;
    while j < hidden.len()
        invariant
            j <= hidden@.len(),
            forall|k: int| 0 <= k < j ==> hidden@[k]@ != name@,
        decreases hidden@.len() - j,
    {
        if str_eq(hidden[j].as_str(), name) {
            assert(names(hidden@)[j as int] == name@);
            return true;
        }
        j += 1;
    }
    proof {
        if is_hidden_spec(names(hidden@), name@) {
            let k = choose|k: int| 0 <= k < names(hidden@).len() && names(hidden@)[k] == name@;
            assert(hidden@[k]@ == name@);
        }
    }
    false
}

/// The first `n` names with every copy of `name` left out.
pub open spec fn without(s: Seq<Seq<char>>, name: Seq<char>, n: int) -> Seq<Seq<char>>
    decreases n,
{
    if n <= 0 {
        Seq::empty()
    } else if s[n - 1] == name {
        without(s, name, n - 1)
    } else {
        without(s, name, n - 1).push(s[n - 1])
    }
}

/// Shows or hides the panel called `name`: showing removes every copy of the
/// name from the hidden list, hiding appends it.
pub fn set_shown(hidden: &mut Vec<String>, name: String, shown: bool)
    ensures
        shown ==> names(final(hidden)@) == without(names(old(hidden)@), name@, old(hidden)@.len() as int),
        shown ==> names(final(hidden)@) == others(names(old(hidden)@), name@),
        !shown ==> names(final(hidden)@) == names(old(hidden)@).push(name@),
{
    proof {
        lemma_show_keeps_others(names(old(hidden)@), name@);
    }
    if shown {
        let mut kept: Vec<String> = Vec::new();
        let mut j: usize = 0;
        while j < hidden.len()
            invariant
                j <= hidden@.len(),
                names(kept@) == without(names(hidden@), name@, j as int),
            decreases hidden@.len() - j,
        {
            if !str_eq(hidden[j].as_str(), name.as_str()) {
                kept.push(hidden[j].clone());
                assert(names(kept@) =~= without(names(hidden@), name@, j as int).push(hidden@[j as int]@));
            }
            j += 1;
        }
        *hidden = kept;
    } else {
        hidden.push(name);
        assert(names(hidden@) =~= names(old(hidden)@).push(name@));
    }
}

/// The indices of the first `n` panels whose names are not hidden, in order.
pub open spec fn visible_upto(panel_names: Seq<Seq<char>>, hidden: Seq<Seq<char>>, n: int) -> Seq<usize>
    decreases n,
{
    if n <= 0 {
        Seq::empty()
    } else if is_hidden_spec(hidden, panel_names[n - 1]) {
        visible_upto(panel_names, hidden, n - 1)
    } else {
        visible_upto(panel_names, hidden, n - 1).push((n - 1) as usize)
    }
}

/// The positions of the panels that are not hidden, in tab order.
pub fn visible_indices(panel_names: &[String], hidden: &[String]) -> (res: Vec<usize>)
    ensures
        res@ == visible_upto(names(panel_names@), names(hidden@), panel_names@.len() as int),
{
    let mut res: Vec<usize> = Vec::new();
    let mut i: usize = 0;
    while i < panel_names.len()
        invariant
            i <= panel_names@.len(),
            res@ == visible_upto(names(panel_names@), names(hidden@), i as int),
        decreases panel_names@.len() - i,
    {
        if !is_hidden(hidden, panel_names[i].as_str()) {
            res.push(i);
        }
        i += 1;
    }
    res
}

/// The tab to show: the remembered one while it is still visible, else the
/// first visible panel, else none.
pub open spec fn active_spec(active: Option<Seq<char>>, visible: Seq<Seq<char>>) -> Option<Seq<char>> {
    match active {
        Some(a) if visible.contains(a) => Some(a),
        _ => if visible.len() > 0 { Some(visible[0]) } else { None },
    }
}

/// The characters of an optional string.
pub open spec fn opt_chars(o: Option<String>) -> Option<Seq<char>> {
    match o {
        Some(s) => Some(s@),
        None => None,
    }
}

/// Chooses the panel tab to show among the visible ones.
pub fn resolve_active(active: Option<String>, visible: &[String]) -> (res: Option<String>)
    ensures
        match res {
            Some(s) => active_spec(opt_chars(active), names(visible@)) == Some(s@),
            None => active_spec(opt_chars(active), names(visible@)) is None,
        },
        res is None <==> visible@.len() == 0,
        forall|i: int|
            0 <= i < visible@.len() && opt_chars(active) == Some(#[trigger] visible@[i]@) ==> opt_chars(res)
                == opt_chars(active),
        (forall|i: int| 0 <= i < visible@.len() ==> opt_chars(active) != Some(#[trigger] visible@[i]@))
            && visible@.len() > 0 ==> opt_chars(res) == Some(visible@[0]@),
{
    proof {
        lemma_active_choice(opt_chars(active), names(visible@));
    }
    let vs = Ghost(names(visible@));
    if let Some(a) = &active {
        let mut j: usize = 0;
        while j < visible.len()
            invariant
                j <= visible@.len(),
                vs@ == names(visible@),
                opt_chars(active) == Some(a@),
                forall|k: int| 0 <= k < j ==> visible@[k]@ != a@,
            decreases visible@.len() - j,
        {
            if str_eq(visible[j].as_str(), a.as_str()) {
                assert(vs@[j as int] == a@);
                assert(vs@.contains(a@));
                assert(opt_chars(active) == Some(a@));
                return Some(a.clone());
            }
            j += 1;
        }
        proof {
            if vs@.contains(a@) {
                let k = choose|k: int| 0 <= k < vs@.len() && vs@[k] == a@;
                assert(visible@[k]@ == a@);
            }
        }
    }
    if visible.len() > 0 {
        Some(visible[0].clone())
    } else {
        None
    }
}

/// Moves the tab dragged from position `from` so it drops before the tab
/// that was at position `to` (`to` may be one past the end). Nothing happens
/// when `from` is out of range; returns whether a tab moved.
pub fn move_tab<T>(tabs: &mut Vec<T>, from: usize, to: usize) -> (res: bool)
    ensures
        res == (from < old(tabs)@.len()),
        res ==> final(tabs)@ == moved(old(tabs)@, from as int, if to > from { to - 1 } else { to as int }),
        !res ==> final(tabs)@ == old(tabs)@,
{
    if from < tabs.len() {
        let item = tabs.remove(from);
        let target = if to > from { to - 1 } else { to };
        let at = if target < tabs.len() { target } else { tabs.len() };
        tabs.insert(at, item);
        true
    } else {
        false
    }
}

/// Where a panel's name stands in the saved tab order: the position of its
/// first mention, or `usize::MAX` if the order does not mention it.
pub open spec fn saved_rank(order: Seq<Seq<char>>, name: Seq<char>) -> int {
    if exists|j: int| 0 <= j < order.len() && order[j] == name {
        let j = choose|j: int|
            0 <= j < order.len() && order[j] == name && forall|k: int| 0 <= k < j ==> order[k] != name;
        j
    } else {
        usize::MAX as int
    }
}

/// The position of `name`'s first mention in `order`, or `usize::MAX`.
fn rank_of(order: &[String], name: &str) -> (r: usize)
    ensures
        r == saved_rank(names(order@), name@),
{
    let ghost os = names(order@);
    let mut j: usize = 0;
    while j < order.len()
        invariant
            j <= order@.len(),
            os == names(order@),
            forall|k: int| 0 <= k < j ==> os[k] != name@,
        decreases order@.len() - j,
    {
        if str_eq(order[j].as_str(), name) {
            proof {
                assert(os[j as int] == name@);
                let c = choose|c: int|
                    0 <= c < os.len() && os[c] == name@ && forall|k: int| 0 <= k < c ==> os[k] != name@;
                if c < j {
                } else if c > j {
                    assert(os[j as int] != name@);
                }
            }
            return j;
        }
        j += 1;
    }
    usize::MAX
}

/// `(rank, index)` pairs in strictly increasing lexicographic order.
pub open spec fn rank_before(ranks: Seq<int>, a: usize, b: usize) -> bool {
    ranks[a as int] < ranks[b as int] || (ranks[a as int] == ranks[b as int] && a < b)
}

/// `perm` lists the indices `0..n` once each, ordered by rank and then by
/// index: a stable sort of the indices by rank.
pub open spec fn sorted_by_rank(ranks: Seq<int>, perm: Seq<usize>, n: int) -> bool {
    &&& perm.len() == n
    &&& forall|p: int| 0 <= p < n ==> (#[trigger] perm[p]) < n
    &&& forall|p: int, q: int| 0 <= p < q < n ==> rank_before(ranks, #[trigger] perm[p], #[trigger] perm[q])
}

/// The order in which panels are shown given the user's saved tab order:
/// panels the order mentions come first, in the order's sequence; panels
/// it does not mention (e.g. newly added ones) keep their natural order at
/// the end. Returned as the panel positions, in display order.
pub fn saved_order(panel_names: &[String], order: &[String]) -> (perm: Vec<usize>)
    ensures
        sorted_by_rank(
            Seq::new(panel_names@.len(), |i: int| saved_rank(names(order@), panel_names@[i]@)),
            perm@,
            panel_names@.len() as int,
        ),
{
    let ghost ranks = Seq::new(panel_names@.len(), |i: int| saved_rank(names(order@), panel_names@[i]@));
    let mut rank: Vec<usize> = Vec::new();
    let mut i: usize = 0;
    while i < panel_names.len()
        invariant
            i <= panel_names@.len(),
            rank@.len() == i,
            ranks.len() == panel_names@.len(),
            ranks == Seq::new(panel_names@.len(), |i: int| saved_rank(names(order@), panel_names@[i]@)),
            forall|k: int| 0 <= k < i ==> rank@[k] == ranks[k],
        decreases panel_names@.len() - i,
    {
        rank.push(rank_of(order, panel_names[i].as_str()));
        i += 1;
    }
    let mut perm: Vec<usize> = Vec::new();
    let mut i: usize = 0;
    while i < panel_names.len()
        invariant
            i <= panel_names@.len(),
            rank@.len() == panel_names@.len(),
            ranks.len() == panel_names@.len(),
            forall|k: int| 0 <= k < rank@.len() ==> rank@[k] == ranks[k],
            sorted_by_rank(ranks, perm@, i as int),
        decreases panel_names@.len() - i,
    {
        // Insert `i` after every panel ranked no later than it.
        let mut p: usize = 0;
        while p < perm.len() && rank[perm[p]] <= rank[i]
            invariant
                p <= perm@.len(),
                i < rank@.len(),
                rank@.len() == panel_names@.len(),
                ranks.len() == panel_names@.len(),
                forall|k: int| 0 <= k < rank@.len() ==> rank@[k] == ranks[k],
                sorted_by_rank(ranks, perm@, i as int),
                forall|q: int| 0 <= q < p ==> ranks[perm@[q] as int] <= ranks[i as int],
            decreases perm@.len() - p,
        {
            p += 1;
        }
        let ghost old_perm = perm@;
        perm.insert(p, i);
        proof {
            assert forall|q: int| p < q <= i implies ranks[(#[trigger] perm@[q]) as int] > ranks[i as int] by {
                assert(perm@[q] == old_perm[q - 1]);
                if q - 1 > p {
                    assert(rank_before(ranks, old_perm[p as int], old_perm[q - 1]));
                }
            }
            assert forall|a: int, b: int| 0 <= a < b < i + 1 implies rank_before(ranks, #[trigger] perm@[a], #[trigger] perm@[b]) by {
                if a < p && b < p {
                    assert(perm@[a] == old_perm[a] && perm@[b] == old_perm[b]);
                } else if a < p && b == p {
                    assert(perm@[a] == old_perm[a]);
                } else if a < p && b > p {
                    assert(perm@[a] == old_perm[a] && perm@[b] == old_perm[b - 1]);
                } else if a == p {
                } else {
                    assert(perm@[a] == old_perm[a - 1] && perm@[b] == old_perm[b - 1]);
                }
            }
        }
        i += 1;
    }
    perm
}

/// Ordering the panels by the saved order loses and repeats none: every
/// position `0..n` appears exactly once.
pub proof fn lemma_sorted_by_rank_is_permutation(ranks: Seq<int>, perm: Seq<usize>, n: int)
    requires
        sorted_by_rank(ranks, perm, n),
    ensures
        forall|p: int, q: int| 0 <= p < q < n ==> perm[p] != perm[q],
        forall|i: usize| 0 <= i < n ==> #[trigger] perm.contains(i),
{
    let ip = perm.map_values(|x: usize| x as int);
    assert forall|p: int, q: int| 0 <= p < q < n implies perm[p] != perm[q] by {
        assert(rank_before(ranks, perm[p], perm[q]));
    }
    assert(ip.no_duplicates()) by {
        assert forall|p: int, q: int| 0 <= p < ip.len() && 0 <= q < ip.len() && p != q implies ip[p] != ip[q] by {
            if p < q {
                assert(rank_before(ranks, perm[p], perm[q]));
            } else {
                assert(rank_before(ranks, perm[q], perm[p]));
            }
        }
    }
    ip.unique_seq_to_set();
    let range = vstd::set_lib::set_int_range(0, n);
    vstd::set_lib::lemma_int_range(0, n);
    assert(ip.to_set().subset_of(range));
    vstd::set_lib::lemma_subset_equality(ip.to_set(), range);
    assert forall|i: usize| 0 <= i < n implies #[trigger] perm.contains(i) by {
        assert(range.contains(i as int));
        assert(ip.to_set().contains(i as int));
        let k = choose|k: int| 0 <= k < ip.len() && ip[k] == i as int;
        assert(perm[k] == i);
    }
}

/// Showing a panel unhides it; hiding a panel hides it.
pub proof fn lemma_show_hide(hidden: Seq<Seq<char>>, name: Seq<char>)
    ensures
        !is_hidden_spec(without(hidden, name, hidden.len() as int), name),
        is_hidden_spec(hidden.push(name), name),
{
    lemma_without_excludes(hidden, name, hidden.len() as int);
    assert(hidden.push(name)[hidden.len() as int] == name);
}

/// No kept name equals the removed one.
proof fn lemma_without_excludes(s: Seq<Seq<char>>, name: Seq<char>, n: int)
    requires
        0 <= n <= s.len(),
    ensures
        forall|j: int| 0 <= j < without(s, name, n).len() ==> #[trigger] without(s, name, n)[j] != name,
    decreases n,
{
    if n > 0 {
        lemma_without_excludes(s, name, n - 1);
        let v = without(s, name, n - 1);
        if s[n - 1] != name {
            assert forall|j: int| 0 <= j < v.push(s[n - 1]).len() implies #[trigger] v.push(s[n - 1])[j] != name by {
                if j < v.len() {
                    assert(v.push(s[n - 1])[j] == v[j]);
                }
            }
        }
    }
}

/// A panel is listed as visible exactly when its name is not hidden.
pub proof fn lemma_visible_iff_not_hidden(panel_names: Seq<Seq<char>>, hidden: Seq<Seq<char>>, n: int, i: int)
    requires
        0 <= i < n <= panel_names.len(),
        n <= usize::MAX,
    ensures
        visible_upto(panel_names, hidden, n).contains(i as usize) == !is_hidden_spec(hidden, panel_names[i]),
    decreases n,
{
    lemma_visible_below(panel_names, hidden, n - 1);
    if i < n - 1 {
        lemma_visible_iff_not_hidden(panel_names, hidden, n - 1, i);
        let v = visible_upto(panel_names, hidden, n - 1);
        if !is_hidden_spec(hidden, panel_names[n - 1]) {
            let w = v.push((n - 1) as usize);
            if w.contains(i as usize) {
                let k = choose|k: int| 0 <= k < w.len() && w[k] == i as usize;
                if k < v.len() {
                    assert(v[k] == i as usize);
                }
            }
            if v.contains(i as usize) {
                let k = choose|k: int| 0 <= k < v.len() && v[k] == i as usize;
                assert(w[k] == i as usize);
            }
        }
    } else {
        let v = visible_upto(panel_names, hidden, n - 1);
        if !is_hidden_spec(hidden, panel_names[n - 1]) {
            assert(v.push((n - 1) as usize)[v.len() as int] == (n - 1) as usize);
        } else {
            if v.contains(i as usize) {
                let k = choose|k: int| 0 <= k < v.len() && v[k] == i as usize;
                assert(v[k] < n - 1);
            }
        }
    }
}

/// The visible positions among the first `n` are below `n`.
proof fn lemma_visible_below(panel_names: Seq<Seq<char>>, hidden: Seq<Seq<char>>, n: int)
    requires
        n <= usize::MAX,
    ensures
        forall|k: int|
            0 <= k < visible_upto(panel_names, hidden, n).len() ==> (#[trigger] visible_upto(panel_names, hidden, n)[k]) < n,
    decreases n,
{
    if n > 0 {
        lemma_visible_below(panel_names, hidden, n - 1);
        let v = visible_upto(panel_names, hidden, n - 1);
        if !is_hidden_spec(hidden, panel_names[n - 1]) {
            assert forall|k: int| 0 <= k < v.push((n - 1) as usize).len() implies (#[trigger] v.push((n - 1) as usize)[k]) < n by {
                if k < v.len() {
                    assert(v.push((n - 1) as usize)[k] == v[k]);
                }
            }
        }
    }
}

/// Whether the shared tick should refresh now: not while paused, and only
/// once the refresh interval has elapsed since the last refresh.
pub fn should_refresh(paused: bool, elapsed_nanos: u128, refresh_ms: u64) -> (res: bool)
    ensures
        res == (!paused && elapsed_nanos >= refresh_ms as int * 1_000_000),
{
    !paused && elapsed_nanos >= refresh_ms as u128 * 1_000_000
}

/// A stable ordering by rank leaves the panels untouched when no panel is
/// mentioned by the saved order.
pub proof fn lemma_sorted_by_equal_ranks_is_identity(ranks: Seq<int>, perm: Seq<usize>, n: int)
    requires
        sorted_by_rank(ranks, perm, n),
        n <= ranks.len(),
        forall|i: int, j: int| 0 <= i < n && 0 <= j < n ==> ranks[i] == ranks[j],
    ensures
        forall|p: int| 0 <= p < n ==> perm[p] == p,
{
    assert forall|p: int| 0 <= p < n implies perm[p] == p by {
        lemma_increasing_is_identity(perm, n, p);
    }
}

/// A strictly increasing sequence of `n` values below `n` is `0, 1, .., n-1`.
proof fn lemma_increasing_is_identity(perm: Seq<usize>, n: int, p: int)
    requires
        perm.len() == n,
        forall|q: int| 0 <= q < n ==> (#[trigger] perm[q]) < n,
        forall|a: int, b: int| 0 <= a < b < n ==> #[trigger] perm[a] < #[trigger] perm[b],
        0 <= p < n,
    ensures
        perm[p] == p,
    decreases n - p,
{
    lemma_increasing_lower(perm, n, p);
    if p + 1 < n {
        lemma_increasing_is_identity(perm, n, p + 1);
        assert(perm[p] < perm[p + 1]);
    } else {
        assert(perm[p] < n);
    }
}

/// In a strictly increasing sequence of naturals, the value at `p` is at
/// least `p`.
proof fn lemma_increasing_lower(perm: Seq<usize>, n: int, p: int)
    requires
        perm.len() == n,
        forall|a: int, b: int| 0 <= a < b < n ==> #[trigger] perm[a] < #[trigger] perm[b],
        0 <= p < n,
    ensures
        perm[p] >= p,
    decreases p,
{
    if p > 0 {
        lemma_increasing_lower(perm, n, p - 1);
        assert(perm[p - 1] < perm[p]);
    }
}

/// The names other than `name`, in their order.
pub open spec fn others(s: Seq<Seq<char>>, name: Seq<char>) -> Seq<Seq<char>> {
    s.filter(|x: Seq<char>| x != name)
}

/// Showing a panel removes exactly the copies of its name from the hidden
/// list: every other hidden name is kept, in order, and so stays hidden.
pub proof fn lemma_show_keeps_others(hidden: Seq<Seq<char>>, name: Seq<char>)
    ensures
        without(hidden, name, hidden.len() as int) == others(hidden, name),
        forall|x: Seq<char>|
            x != name && is_hidden_spec(hidden, x) ==> is_hidden_spec(
                #[trigger] without(hidden, name, hidden.len() as int),
                x,
            ),
    decreases hidden.len(),
{
    if hidden.len() > 0 {
        let front = hidden.drop_last();
        lemma_show_keeps_others(front, name);
        lemma_without_prefix(hidden, name, hidden.len() - 1);
        reveal(Seq::filter);
        assert(others(hidden, name) == if hidden.last() != name {
            others(front, name).push(hidden.last())
        } else {
            others(front, name)
        });
        let w = without(hidden, name, hidden.len() as int);
        let w0 = without(front, name, front.len() as int);
        assert forall|x: Seq<char>| x != name && is_hidden_spec(hidden, x) implies is_hidden_spec(w, x) by {
            if x == hidden.last() {
                assert(w[w.len() - 1] == x);
            } else {
                let k = choose|k: int| 0 <= k < hidden.len() && hidden[k] == x;
                assert(front[k] == x);
                assert(is_hidden_spec(front, x));
                let j = choose|j: int| 0 <= j < w0.len() && w0[j] == x;
                assert(w[j] == x);
            }
        }
    }
}

/// The names left after removing `name` from a prefix do not depend on what
/// follows it.
proof fn lemma_without_prefix(s: Seq<Seq<char>>, name: Seq<char>, n: int)
    requires
        0 <= n < s.len(),
    ensures
        without(s.drop_last(), name, n) == without(s, name, n),
    decreases n,
{
    if n > 0 {
        lemma_without_prefix(s, name, n - 1);
        assert(s.drop_last()[n - 1] == s[n - 1]);
    }
}

/// The tab chosen among the visible ones: none exactly when none is visible;
/// the remembered tab whenever it is visible, wherever it stands; otherwise
/// the first visible tab. The chosen tab is always a visible one.
pub proof fn lemma_active_choice(active: Option<Seq<char>>, visible: Seq<Seq<char>>)
    ensures
        active_spec(active, visible) is None <==> visible.len() == 0,
        active_spec(active, visible) matches Some(t) ==> visible.contains(t),
        forall|i: int| 0 <= i < visible.len() && active == Some(#[trigger] visible[i]) ==> active_spec(active, visible) == active,
        (forall|i: int| 0 <= i < visible.len() ==> active != Some(#[trigger] visible[i])) && visible.len() > 0
            ==> active_spec(active, visible) == Some(visible[0]),
{
    if visible.len() > 0 {
        assert(visible.contains(visible[0]));
    }
    assert forall|i: int| 0 <= i < visible.len() && active == Some(#[trigger] visible[i]) implies active_spec(active, visible) == active by {
        assert(visible.contains(visible[i]));
    }
    if let Some(a) = active {
        if visible.contains(a) {
            let k = choose|k: int| 0 <= k < visible.len() && visible[k] == a;
            assert(active == Some(visible[k]));
        }
    }
}

} // verus!
