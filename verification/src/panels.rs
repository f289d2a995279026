//! Panel state that is plain numbers and text: memory usage, which
//! sensors report a GPU temperature, and how a GPU is named.

use vstd::prelude::*;
use crate::charts::{usage_label, usage_text};
use crate::text::{decimal, push_char, push_decimal};

verus! {

/// RAM and swap usage in bytes.
pub struct MemoryPanel {
    pub ram_used: u64,
    pub ram_total: u64,
    pub swap_used: u64,
    pub swap_total: u64,
}

impl MemoryPanel {
    /// Nothing read yet: all zero.
    pub fn new() -> (res: MemoryPanel)
        ensures
            res.ram_used == 0 && res.ram_total == 0 && res.swap_used == 0 && res.swap_total == 0,
    {
        MemoryPanel { ram_used: 0, ram_total: 0, swap_used: 0, swap_total: 0 }
    }

    /// Takes the usage the OS reports.
    pub fn refresh(&mut self, ram_used: u64, ram_total: u64, swap_used: u64, swap_total: u64)
        ensures
            final(self).ram_used == ram_used,
            final(self).ram_total == ram_total,
            final(self).swap_used == swap_used,
            final(self).swap_total == swap_total,
    {
        self.ram_used = ram_used;
        self.ram_total = ram_total;
        self.swap_used = swap_used;
        self.swap_total = swap_total;
    }

    /// The caption of the RAM bar ("RAM: used / total").
    pub fn ram_label(&self) -> (res: String)
        ensures
            res@ == usage_text(seq!['R', 'A', 'M'], self.ram_used as nat, self.ram_total as nat),
    {
        proof {
            reveal_strlit("RAM");
            assert("RAM"@ =~= seq!['R', 'A', 'M']);
        }
        usage_label("RAM", self.ram_used, self.ram_total)
    }

    /// The caption of the swap bar ("Swap: used / total").
    pub fn swap_label(&self) -> (res: String)
        ensures
            res@ == usage_text(seq!['S', 'w', 'a', 'p'], self.swap_used as nat, self.swap_total as nat),
    {
        proof {
            reveal_strlit("Swap");
            assert("Swap"@ =~= seq!['S', 'w', 'a', 'p']);
        }
        usage_label("Swap", self.swap_used, self.swap_total)
    }
}

/// The lower-case form of a string, as `str::to_lowercase` computes it
/// (full Unicode case mapping).
pub uninterp spec fn lowercase(s: Seq<char>) -> Seq<char>;

/// The lower-case form of `s`.
///
/// Calls `str::to_lowercase`; its result depends only on the string (std's
/// Unicode tables are fixed), so the contract names it `lowercase` of the
/// characters and states nothing more.
#[verifier::external_body]
fn to_lowercase(s: &str) -> (res: String)
    ensures
        res@ == lowercase(s@),
{
    s.to_lowercase()
}

/// `needle` occurs in `hay` as a run of consecutive characters.
pub open spec fn occurs_in(needle: Seq<char>, hay: Seq<char>) -> bool {
    exists|i: int| 0 <= i && i + needle.len() <= hay.len() && #[trigger] hay.subrange(i, i + needle.len()) == needle
}

/// Whether `needle` occurs in `hay`.
pub fn contains_str(hay: &str, needle: &str) -> (res: bool)
    ensures
        res == occurs_in(needle@, hay@),
{
    let n = hay.unicode_len();
    let m = needle.unicode_len();
    if m > n {
        return false;
    }
    let mut i: usize = 0;
    while i <= n - m
        invariant
            n == hay@.len(),
            m == needle@.len(),
            m <= n,
            i <= n - m + 1,
            forall|k: int| 0 <= k < i ==> #[trigger] hay@.subrange(k, k + needle@.len()) != needle@,
        decreases n - m + 1 - i,
    {
        let mut j: usize = 0;
        let mut matched = true;
        while j < m
            invariant
                n == hay@.len(),
                m == needle@.len(),
                i + m <= n,
                j <= m,
                matched == (forall|q: int| 0 <= q < j ==> hay@[i + q] == needle@[q]),
            decreases m - j,
        {
            if hay.get_char(i + j) != needle.get_char(j) {
                matched = false;
            }
            j += 1;
        }
        if matched {
            assert(hay@.subrange(i as int, i + m) =~= needle@);
            return true;
        }
        proof {
            let q = choose|q: int| 0 <= q < m && hay@[i + q] != needle@[q];
            assert(hay@.subrange(i as int, i + needle@.len())[q] != needle@[q]);
        }
        i += 1;
    }
    proof {
        if occurs_in(needle@, hay@) {
            let k = choose|k: int| 0 <= k && k + needle@.len() <= hay@.len() && #[trigger] hay@.subrange(k, k + needle@.len()) == needle@;
            assert(k < i);
        }
    }
    false
}

/// Whether a lower-cased sensor label names a GPU: it mentions "gpu",
/// "radeon" or "amd".
pub open spec fn mentions_gpu_spec(lower: Seq<char>) -> bool {
    occurs_in(seq!['g', 'p', 'u'], lower) || occurs_in(seq!['r', 'a', 'd', 'e', 'o', 'n'], lower) || occurs_in(
        seq!['a', 'm', 'd'],
        lower,
    )
}

/// Whether a lower-cased sensor label mentions "gpu", "radeon" or "amd".
pub fn mentions_gpu(lower: &str) -> (res: bool)
    ensures
        res == mentions_gpu_spec(lower@),
{
    proof {
        reveal_strlit("gpu");
        reveal_strlit("radeon");
        reveal_strlit("amd");
        assert("gpu"@ =~= seq!['g', 'p', 'u']);
        assert("radeon"@ =~= seq!['r', 'a', 'd', 'e', 'o', 'n']);
        assert("amd"@ =~= seq!['a', 'm', 'd']);
    }
    contains_str(lower, "gpu") || contains_str(lower, "radeon") || contains_str(lower, "amd")
}

/// Whether a temperature sensor belongs to a GPU (best effort, by label):
/// its lower-case form mentions "gpu", "radeon" or "amd".
pub fn is_gpu_sensor(label: &str) -> (res: bool)
    ensures
        res == mentions_gpu_spec(lowercase(label@)),
{
    let l = to_lowercase(label);
    mentions_gpu(l.as_str())
}

/// The name shown for GPU `index`: the name its driver reports, or "GPU"
/// followed by the index when it reports none.
pub fn gpu_name(index: u32, reported: Option<String>) -> (res: String)
    ensures
        res@ == match reported {
            Some(n) => n@,
            None => seq!['G', 'P', 'U', ' '] + decimal(index as nat),
        },
{
    match reported {
        Some(n) => n,
        None => {
            let mut s = String::new();
            push_char(&mut s, 'G');
            push_char(&mut s, 'P');
            push_char(&mut s, 'U');
            push_char(&mut s, ' ');
            push_decimal(&mut s, index as u128);
            assert(s@ =~= seq!['G', 'P', 'U', ' '] + decimal(index as nat));
            s
        },
    }
}

} // verus!
