use vstd::prelude::*;

use crate::descriptions::{get_description, insert_description, Description, DescriptionCache};
use crate::man::{gunzipped, has_gz_extension, ManpageBuffer};
use crate::roff::{description_bounds, extract_description_section, DescriptionSection};
use crate::text::utf8_decoded;

verus! {

/// Where the manual page of an executable lives, as far as is known.
pub enum Manpath {
    /// No lookup has been made yet.
    Unresolved,
    /// The lookup gave this path.
    Resolved(String),
    /// The lookup was made and found no manual page.
    Absent,
}

/// A discovered executable.
pub struct Binary {
    pub name: String,
    pub manpath: Manpath,
}

/// The executables found on the search path, each name once.
pub struct Registry {
    binaries: Vec<Binary>,
}

/// Some of the first `j` names is `n`.
pub open spec fn listed(names: Seq<String>, j: int, n: Seq<char>) -> bool {
    exists|k: int| 0 <= k < j && names[k]@ == n
}

impl Registry {
    pub closed spec fn entries(&self) -> Seq<Binary> {
        self.binaries@
    }

    pub open spec fn len(&self) -> nat {
        self.entries().len()
    }

    pub open spec fn name(&self, i: int) -> Seq<char> {
        self.entries()[i].name@
    }

    pub open spec fn wf(&self) -> bool {
        forall|i: int, j: int| 0 <= i < j < self.len() ==> self.name(i) != self.name(j)
    }

    pub open spec fn contains(&self, name: Seq<char>) -> bool {
        exists|i: int| 0 <= i < self.len() && self.name(i) == name
    }

    /// The registry holds exactly the given names, none of them looked up yet.
    pub open spec fn built_from(&self, names: Seq<String>) -> bool {
        &&& self.wf()
        &&& forall|j: int| 0 <= j < names.len() ==> #[trigger] self.contains(names[j]@)
        &&& forall|i: int| 0 <= i < self.len() ==> listed(names, names.len() as int, #[trigger] self.name(i))
        &&& forall|i: int| 0 <= i < self.len() ==> (#[trigger] self.entries()[i]).manpath is Unresolved
    }

    fn find(&self, name: &String) -> (r: Option<usize>)
        ensures
            r.is_none() == !self.contains(name@),
            r matches Some(i) ==> i < self.len() && self.name(i as int) == name@,
    {
        let mut i: usize = 0;
        while i < self.binaries.len()
            invariant
                0 <= i <= self.len(),
                forall|j: int| 0 <= j < i ==> self.name(j) != name@,
            decreases self.len() - i,
        {
            if self.binaries[i].name == *name {
                assert(self.name(i as int) == name@);
                return Some(i);
            }
            i = i + 1;
        }
        None
    }

    /// Builds the registry from the executable names found while scanning the
    /// search path, in scan order. A name seen twice is kept once.
    pub fn build(names: &Vec<String>) -> (r: Registry)
        ensures
            r.built_from(names@),
    {
        let mut reg = Registry { binaries: Vec::new() };
        let mut j: usize = 0;
        while j < names.len()
            invariant
                0 <= j <= names@.len(),
                reg.wf(),
                forall|k: int| 0 <= k < j ==> #[trigger] reg.contains(names@[k]@),
                forall|i: int| 0 <= i < reg.len() ==> listed(names@, j as int, #[trigger] reg.name(i)),
                forall|i: int| 0 <= i < reg.len() ==> (#[trigger] reg.entries()[i]).manpath is Unresolved,
            decreases names@.len() - j,
        {
            let ghost old_reg = reg;
            if reg.find(&names[j]).is_none() {
                reg.binaries.push(Binary { name: names[j].clone(), manpath: Manpath::Unresolved });
                proof {
                    let n = old_reg.len() as int;
                    assert(reg.name(n) == names@[j as int]@);
                    assert forall|a: int, b: int| 0 <= a < b < reg.len() implies reg.name(a) != reg.name(b) by {
                        assert(reg.name(a) == old_reg.name(a));
                        if b < n {
                            assert(reg.name(b) == old_reg.name(b));
                        } else if reg.name(a) == reg.name(b) {
                            assert(old_reg.contains(names@[j as int]@));
                        }
                    }
                    assert forall|k: int| 0 <= k <= j implies #[trigger] reg.contains(names@[k]@) by {
                        if k < j {
                            assert(old_reg.contains(names@[k]@));
                            let i = choose|i: int| 0 <= i < old_reg.len() && old_reg.name(i) == names@[k]@;
                            assert(reg.name(i) == old_reg.name(i));
                        } else {
                            assert(reg.name(n) == names@[k]@);
                        }
                    }
                    assert forall|i: int| 0 <= i < reg.len() implies listed(names@, j + 1, #[trigger] reg.name(i)) by {
                        if i < n {
                            assert(reg.name(i) == old_reg.name(i));
                            let k = choose|k: int| 0 <= k < j && names@[k]@ == old_reg.name(i);
                            assert(names@[k]@ == reg.name(i));
                        } else {
                            assert(names@[j as int]@ == reg.name(i));
                        }
                    }
                    assert forall|i: int| 0 <= i < reg.len() implies (#[trigger] reg.entries()[i]).manpath is Unresolved by {
                        if i < n {
                            assert(reg.entries()[i] == old_reg.entries()[i]);
                        }
                    }
                }
            }
            j = j + 1;
        }
        reg
    }

    pub fn size(&self) -> (r: usize)
        ensures
            r == self.len(),
    {
        self.binaries.len()
    }

    pub fn get(&self, i: usize) -> (r: &Binary)
        requires
            i < self.len(),
        ensures
            *r == self.entries()[i as int],
    {
        &self.binaries[i]
    }
}

/// Whether an executable of this name was found.
pub fn is_binary_exist(registry: &Registry, name: &String) -> (r: bool)
    ensures
        r == registry.contains(name@),
{
    registry.find(name).is_some()
}

/// The Jaro-Winkler similarity of two strings, as the bit pattern of the float that
/// `strsim::jaro_winkler` returns. The float lies in [0, 1], and on non-negative floats
/// the order of the bit patterns is the order of the values.
pub uninterp spec fn similarity(a: Seq<char>, b: Seq<char>) -> u64;

/// The bit pattern of the float 1.0, the similarity of a string to itself.
pub const PERFECT_SCORE: u64 = 4607182418800017408;

/// Relies on `strsim::jaro_winkler` for the similarity of a name to the query; for
/// equal strings it computes 1.0.
#[verifier::external_body]
fn jaro_winkler_bits(name: &str, query: &str) -> (r: u64)
    ensures
        r == similarity(name@, query@),
        name@ == query@ ==> r == PERFECT_SCORE,
{
    strsim::jaro_winkler(name, query).to_bits()
}

/// The similarity of the `i`-th executable's name to the query.
pub open spec fn score_of(reg: &Registry, i: int, query: Seq<char>) -> u64 {
    similarity(reg.name(i), query)
}

/// Executables ranked by similarity to a query, highest first, one per distinct score.
pub struct BinSearchResult {
    entries: Vec<(u64, usize)>,
}

/// Some entry among `e` has score `s`.
pub open spec fn has_score(e: Seq<(u64, usize)>, s: u64) -> bool {
    exists|k: int| 0 <= k < e.len() && e[k].0 == s
}

/// `e` ranks the first `n` executables of `reg` against `query`: each entry is an
/// executable with its score; scores strictly fall; every score of those executables
/// appears; and of executables with equal scores the first one stands.
pub open spec fn ranks(e: Seq<(u64, usize)>, reg: &Registry, query: Seq<char>, n: int) -> bool {
    &&& forall|k: int| 0 <= k < e.len() ==> (#[trigger] e[k]).1 < n && e[k].0 == score_of(reg, e[k].1 as int, query)
    &&& forall|a: int, b: int| 0 <= a < b < e.len() ==> (#[trigger] e[a]).0 > (#[trigger] e[b]).0
    &&& forall|a: int, b: int| 0 <= a < b < e.len() ==> (#[trigger] e[a]).1 != (#[trigger] e[b]).1
    &&& forall|i: int| 0 <= i < n ==> has_score(e, #[trigger] score_of(reg, i, query))
    &&& forall|k: int, i: int| 0 <= k < e.len() && 0 <= i < (#[trigger] e[k]).1 ==>
        #[trigger] score_of(reg, i, query) != e[k].0
}

impl BinSearchResult {
    pub closed spec fn view(&self) -> Seq<(u64, usize)> {
        self.entries@
    }

    pub fn len(&self) -> (r: usize)
        ensures
            r == self@.len(),
    {
        self.entries.len()
    }

    /// The `k`-th best entry: its score and the executable's index in the registry.
    pub fn get(&self, k: usize) -> (r: (u64, usize))
        requires
            k < self@.len(),
        ensures
            r == self@[k as int],
    {
        self.entries[k]
    }

    /// The registry indices of the entries, best first.
    pub fn ordered_iter(&self) -> (r: Vec<usize>)
        ensures
            r@.len() == self@.len(),
            forall|k: int| 0 <= k < r@.len() ==> r@[k] == self@[k].1,
    {
        let mut r: Vec<usize> = Vec::new();
        let mut k: usize = 0;
        while k < self.entries.len()
            invariant
                0 <= k <= self@.len(),
                r@.len() == k,
                forall|j: int| 0 <= j < k ==> r@[j] == self@[j].1,
            decreases self@.len() - k,
        {
            r.push(self.entries[k].1);
            k = k + 1;
        }
        r
    }
}

/// Ranks every executable of the registry by the similarity of its name to `search`.
#[verifier::rlimit(60)]
pub fn search_binaries(registry: &Registry, search: &str) -> (r: BinSearchResult)
    ensures
        ranks(r@, registry, search@, registry.len() as int),
        forall|i: int| 0 <= i < registry.len() && registry.name(i) == search@ ==>
            #[trigger] score_of(registry, i, search@) == PERFECT_SCORE,
{
    let mut e: Vec<(u64, usize)> = Vec::new();
    let n = registry.size();
    let mut i: usize = 0;
    while i < n
        invariant
            0 <= i <= n == registry.len(),
            ranks(e@, registry, search@, i as int),
            forall|j: int| 0 <= j < i && registry.name(j) == search@ ==>
                #[trigger] score_of(registry, j, search@) == PERFECT_SCORE,
        decreases n - i,
    {
        let s = jaro_winkler_bits(registry.get(i).name.as_str(), search);
        let mut p: usize = 0;
        while p < e.len() && e[p].0 > s
            invariant
                0 <= p <= e@.len(),
                forall|k: int| 0 <= k < p ==> (#[trigger] e@[k]).0 > s,
            decreases e@.len() - p,
        {
            p = p + 1;
        }
        let ghost old_e = e@;
        if p < e.len() && e[p].0 == s {
            proof {
                assert(has_score(e@, s));
                assert forall|k: int, j: int| 0 <= k < e@.len() && 0 <= j < (#[trigger] e@[k]).1 implies
                    #[trigger] score_of(registry, j, search@) != e@[k].0 by {
                }
            }
        } else {
            e.insert(p, (s, i));
            proof {
                assert(e@[p as int] == (s, i));
                assert forall|k: int| 0 <= k < e@.len() implies (#[trigger] e@[k]).1 < i + 1
                    && e@[k].0 == score_of(registry, e@[k].1 as int, search@) by {
                    if k < p {
                        assert(e@[k] == old_e[k]);
                    } else if k > p {
                        assert(e@[k] == old_e[k - 1]);
                    }
                }
                assert forall|a: int, b: int| 0 <= a < b < e@.len() implies (#[trigger] e@[a]).0 > (#[trigger] e@[b]).0 by {
                    if b < p {
                        assert(e@[a] == old_e[a] && e@[b] == old_e[b]);
                    } else if b == p {
                        assert(e@[a] == old_e[a]);
                    } else if a < p {
                        assert(e@[a] == old_e[a] && e@[b] == old_e[b - 1]);
                        assert(old_e[p as int].0 <= s);
                        if p < b - 1 {
                            assert(old_e[p as int].0 > old_e[b - 1].0);
                        }
                    } else if a == p {
                        assert(e@[b] == old_e[b - 1]);
                        assert(old_e[p as int].0 != s);
                        if p < b - 1 {
                            assert(old_e[p as int].0 > old_e[b - 1].0);
                        }
                    } else {
                        assert(e@[a] == old_e[a - 1] && e@[b] == old_e[b - 1]);
                    }
                }
                assert forall|a: int, b: int| 0 <= a < b < e@.len() implies (#[trigger] e@[a]).1 != (#[trigger] e@[b]).1 by {
                    if a < p {
                        assert(e@[a] == old_e[a]);
                    } else if a > p {
                        assert(e@[a] == old_e[a - 1]);
                    }
                    if b < p {
                        assert(e@[b] == old_e[b]);
                    } else if b > p {
                        assert(e@[b] == old_e[b - 1]);
                    }
                }
                assert forall|j: int| 0 <= j < i + 1 implies has_score(e@, #[trigger] score_of(registry, j, search@)) by {
                    if j == i {
                        assert(e@[p as int].0 == s);
                    } else {
                        assert(has_score(old_e, score_of(registry, j, search@)));
                        let k = choose|k: int| 0 <= k < old_e.len() && old_e[k].0 == score_of(registry, j, search@);
                        if k < p {
                            assert(e@[k] == old_e[k]);
                        } else {
                            assert(e@[k + 1] == old_e[k]);
                        }
                    }
                }
                assert forall|k: int, j: int| 0 <= k < e@.len() && 0 <= j < (#[trigger] e@[k]).1 implies
                    #[trigger] score_of(registry, j, search@) != e@[k].0 by {
                    if k < p {
                        assert(e@[k] == old_e[k]);
                    } else if k > p {
                        assert(e@[k] == old_e[k - 1]);
                    } else {
                        if score_of(registry, j, search@) == s {
                            assert(has_score(old_e, s));
                            let q = choose|q: int| 0 <= q < old_e.len() && old_e[q].0 == s;
                            if q < p {
                                assert(old_e[q].0 > s);
                            } else if q > p {
                                assert(old_e[p as int].0 > old_e[q].0);
                                assert(old_e[p as int].0 <= s);
                            }
                        }
                    }
                }
            }
        }
        i = i + 1;
    }
    BinSearchResult { entries: e }
}

/// How many entries on each side of the cursor the enrichment window reaches.
pub const HEAT_RANGE: usize = 8;

/// The window of ranked entries around the cursor: from `HEAT_RANGE` before it to
/// `HEAT_RANGE` after it, clipped to the result.
pub open spec fn hot_window(len: int, selected: int) -> (int, int) {
    (
        if selected > HEAT_RANGE { selected - HEAT_RANGE } else { 0 },
        if selected + HEAT_RANGE < len { selected + HEAT_RANGE } else { len },
    )
}

/// The registry indices of the entries `lo..hi` of `e` whose manual page has not been
/// looked up, in rank order.
pub open spec fn hot_indices(e: Seq<(u64, usize)>, reg: &Registry, lo: int, hi: int) -> Seq<usize>
    decreases hi - lo,
{
    if hi <= lo {
        Seq::empty()
    } else {
        let rest = hot_indices(e, reg, lo, hi - 1);
        if reg.entries()[e[hi - 1].1 as int].manpath is Unresolved {
            rest.push(e[hi - 1].1)
        } else {
            rest
        }
    }
}

proof fn lemma_hot_indices(e: Seq<(u64, usize)>, reg: &Registry, lo: int, hi: int)
    requires
        0 <= lo,
        hi <= e.len(),
        forall|k: int| 0 <= k < e.len() ==> (#[trigger] e[k]).1 < reg.len(),
        forall|a: int, b: int| 0 <= a < b < e.len() ==> (#[trigger] e[a]).1 != (#[trigger] e[b]).1,
    ensures
        hot_indices(e, reg, lo, hi).len() <= if hi > lo { hi - lo } else { 0 },
        forall|k: int| 0 <= k < hot_indices(e, reg, lo, hi).len() ==>
            (#[trigger] hot_indices(e, reg, lo, hi)[k]) < reg.len()
            && reg.entries()[hot_indices(e, reg, lo, hi)[k] as int].manpath is Unresolved
            && exists|q: int| lo <= q < hi && e[q].1 == hot_indices(e, reg, lo, hi)[k],
        forall|a: int, b: int| 0 <= a < b < hot_indices(e, reg, lo, hi).len() ==>
            (#[trigger] hot_indices(e, reg, lo, hi)[a]) != (#[trigger] hot_indices(e, reg, lo, hi)[b]),
    decreases hi - lo,
{
    if hi > lo {
        lemma_hot_indices(e, reg, lo, hi - 1);
        let rest = hot_indices(e, reg, lo, hi - 1);
        let h = hot_indices(e, reg, lo, hi);
        assert forall|k: int| 0 <= k < h.len() implies (#[trigger] h[k]) < reg.len()
            && reg.entries()[h[k] as int].manpath is Unresolved
            && exists|q: int| lo <= q < hi && e[q].1 == h[k] by {
            if k < rest.len() {
                assert(h[k] == rest[k]);
                let q = choose|q: int| lo <= q < hi - 1 && e[q].1 == rest[k];
                assert(e[q].1 == h[k]);
            } else {
                assert(e[hi - 1].1 == h[k]);
            }
        }
        assert forall|a: int, b: int| 0 <= a < b < h.len() implies (#[trigger] h[a]) != (#[trigger] h[b]) by {
            if b == rest.len() {
                assert(h[a] == rest[a]);
                let q = choose|q: int| lo <= q < hi - 1 && e[q].1 == rest[a];
                assert(e[q].1 != e[hi - 1].1);
            } else {
                assert(h[a] == rest[a] && h[b] == rest[b]);
            }
        }
    }
}

/// The executables near the cursor whose manual page is still to be looked up: the
/// batch that enrichment hands to the lookup.
pub fn get_hot_binaries(registry: &Registry, result: &BinSearchResult, selected: usize) -> (r: Vec<usize>)
    requires
        forall|k: int| 0 <= k < result@.len() ==> (#[trigger] result@[k]).1 < registry.len(),
        forall|a: int, b: int| 0 <= a < b < result@.len() ==> (#[trigger] result@[a]).1 != (#[trigger] result@[b]).1,
    ensures
        r@ == hot_indices(result@, registry, hot_window(result@.len() as int, selected as int).0,
            hot_window(result@.len() as int, selected as int).1),
        r@.len() <= selected + HEAT_RANGE,
        forall|k: int| 0 <= k < r@.len() ==> (#[trigger] r@[k]) < registry.len()
            && registry.entries()[r@[k] as int].manpath is Unresolved,
        forall|a: int, b: int| 0 <= a < b < r@.len() ==> (#[trigger] r@[a]) != (#[trigger] r@[b]),
{
    let n = result.len();
    let lo: usize = if selected > HEAT_RANGE { selected - HEAT_RANGE } else { 0 };
    let hi: usize = if selected < n && n - selected > HEAT_RANGE { selected + HEAT_RANGE } else { n };
    assert((lo as int, hi as int) == hot_window(n as int, selected as int));
    let mut r: Vec<usize> = Vec::new();
    let mut k: usize = lo;
    while k < hi
        invariant
            hi <= n == result@.len(),
            lo <= k,
            k <= hi || k == lo,
            r@ == hot_indices(result@, registry, lo as int, k as int),
            forall|q: int| 0 <= q < result@.len() ==> (#[trigger] result@[q]).1 < registry.len(),
        decreases hi - k,
    {
        let (_, idx) = result.get(k);
        match registry.get(idx).manpath {
            Manpath::Unresolved => r.push(idx),
            _ => {},
        }
        k = k + 1;
    }
    proof {
        lemma_hot_indices(result@, registry, lo as int, hi as int);
        lemma_hot_batch_bounded(result@, registry, selected as int);
        if k != hi {
            assert(hot_indices(result@, registry, lo as int, k as int) == hot_indices(result@, registry, lo as int, hi as int));
        }
    }
    r
}

/// The answer of a manual-page lookup: the paths found, in the order of the names
/// that have one, and the names that have none.
pub struct Manpaths {
    pub paths: Vec<String>,
    pub not_founds: Vec<String>,
}

/// The lookup reported no manual page for `name`.
pub open spec fn is_missing(not_founds: Seq<String>, name: Seq<char>) -> bool {
    exists|j: int| 0 <= j < not_founds.len() && not_founds[j]@ == name
}

/// The batch entry at `k` takes part in the lookup: its page was not looked up yet.
pub open spec fn is_pending(reg: &Registry, batch: Seq<usize>, k: int) -> bool {
    reg.entries()[batch[k] as int].manpath is Unresolved
}

/// How many of the first `k` batch entries take part and were not reported missing:
/// the number of paths that the lookup gave for them.
pub open spec fn found_count(reg: &Registry, batch: Seq<usize>, not_founds: Seq<String>, k: int) -> int
    decreases k,
{
    if k <= 0 {
        0
    } else {
        found_count(reg, batch, not_founds, k - 1) + if is_pending(reg, batch, k - 1)
            && !is_missing(not_founds, reg.name(batch[k - 1] as int)) {
            1int
        } else {
            0int
        }
    }
}

/// What the lookup tells of the batch entry at `k`, which takes part in it: no page
/// where the name was reported missing; else the next path in order, if one is left.
pub open spec fn manpath_learned(reg: &Registry, batch: Seq<usize>, found: Manpaths, k: int, m: Manpath) -> bool {
    let c = found_count(reg, batch, found.not_founds@, k);
    if is_missing(found.not_founds@, reg.name(batch[k] as int)) {
        m is Absent
    } else if c < found.paths@.len() {
        m matches Manpath::Resolved(p) && p@ == found.paths@[c]@
    } else {
        m is Unresolved
    }
}

fn missing(not_founds: &Vec<String>, name: &String) -> (r: bool)
    ensures
        r == is_missing(not_founds@, name@),
{
    let mut j: usize = 0;
    while j < not_founds.len()
        invariant
            0 <= j <= not_founds@.len(),
            forall|q: int| 0 <= q < j ==> not_founds@[q]@ != name@,
        decreases not_founds@.len() - j,
    {
        if not_founds[j] == *name {
            assert(not_founds@[j as int]@ == name@);
            return true;
        }
        j = j + 1;
    }
    false
}

/// Some of the first `j` batch entries takes part in the lookup and is called `name`.
pub open spec fn pending_before(reg: &Registry, batch: Seq<usize>, j: int, name: Seq<char>) -> bool {
    exists|k: int| 0 <= k < j && is_pending(reg, batch, k) && reg.name(batch[k] as int) == name
}

/// Some of the first `q` names is `name`.
pub open spec fn named_before(names: Seq<String>, q: int, name: Seq<char>) -> bool {
    exists|i: int| 0 <= i < q && names[i]@ == name
}

/// The names of the batch entries whose page was not looked up yet: what the lookup
/// is asked for.
pub fn pending_names(registry: &Registry, batch: &Vec<usize>) -> (r: Vec<String>)
    requires
        forall|k: int| 0 <= k < batch@.len() ==> (#[trigger] batch@[k]) < registry.len(),
    ensures
        r@.len() <= batch@.len(),
        forall|q: int| 0 <= q < r@.len() ==> pending_before(registry, batch@, batch@.len() as int, (#[trigger] r@[q])@),
        forall|k: int| 0 <= k < batch@.len() && #[trigger] is_pending(registry, batch@, k) ==>
            named_before(r@, r@.len() as int, registry.name(batch@[k] as int)),
{
    let mut r: Vec<String> = Vec::new();
    let mut k: usize = 0;
    while k < batch.len()
        invariant
            0 <= k <= batch@.len(),
            r@.len() <= k,
            forall|q: int| 0 <= q < batch@.len() ==> (#[trigger] batch@[q]) < registry.len(),
            forall|q: int| 0 <= q < r@.len() ==> pending_before(registry, batch@, k as int, (#[trigger] r@[q])@),
            forall|j: int| 0 <= j < k && #[trigger] is_pending(registry, batch@, j) ==>
                named_before(r@, r@.len() as int, registry.name(batch@[j] as int)),
        decreases batch@.len() - k,
    {
        let b = registry.get(batch[k]);
        let ghost old_r = r@;
        match b.manpath {
            Manpath::Unresolved => {
                r.push(b.name.clone());
                proof {
                    let n = old_r.len() as int;
                    assert(r@[n]@ == registry.name(batch@[k as int] as int));
                    assert(is_pending(registry, batch@, k as int));
                    assert forall|q: int| 0 <= q < r@.len() implies
                        pending_before(registry, batch@, k + 1, (#[trigger] r@[q])@) by {
                        if q < n {
                            assert(r@[q] == old_r[q]);
                            assert(pending_before(registry, batch@, k as int, old_r[q]@));
                        }
                    }
                    assert forall|j: int| 0 <= j < k + 1 && #[trigger] is_pending(registry, batch@, j) implies
                        named_before(r@, r@.len() as int, registry.name(batch@[j] as int)) by {
                        if j < k {
                            assert(named_before(old_r, n, registry.name(batch@[j] as int)));
                            let q = choose|q: int| 0 <= q < n && old_r[q]@ == registry.name(batch@[j] as int);
                            assert(r@[q] == old_r[q]);
                        } else {
                            assert(r@[n]@ == registry.name(batch@[j] as int));
                        }
                    }
                }
            },
            _ => {
                proof {
                    assert forall|q: int| 0 <= q < r@.len() implies
                        pending_before(registry, batch@, k + 1, (#[trigger] r@[q])@) by {
                        assert(pending_before(registry, batch@, k as int, r@[q]@));
                    }
                }
            },
        }
        k = k + 1;
    }
    r
}

/// Some batch entry that takes part in the lookup is the executable `i`.
pub open spec fn touched(reg: &Registry, batch: Seq<usize>, j: int, i: int) -> bool {
    exists|k: int| 0 <= k < j && is_pending(reg, batch, k) && batch[k] == i
}

/// Records what a manual-page lookup for the batch answered: each batch entry whose
/// page was not looked up yet learns its path, or that it has none. The answer lists
/// one path per name that has a page, in batch order.
pub fn attach_manpaths(registry: &mut Registry, batch: &Vec<usize>, found: &Manpaths)
    requires
        forall|k: int| 0 <= k < batch@.len() ==> (#[trigger] batch@[k]) < old(registry).len(),
        forall|a: int, b: int| 0 <= a < b < batch@.len() ==> (#[trigger] batch@[a]) != (#[trigger] batch@[b]),
    ensures
        final(registry).len() == old(registry).len(),
        forall|i: int| 0 <= i < final(registry).len() ==> #[trigger] final(registry).name(i) == old(registry).name(i),
        forall|i: int| 0 <= i < final(registry).len() && !touched(old(registry), batch@, batch@.len() as int, i) ==>
            (#[trigger] final(registry).entries()[i]).manpath == old(registry).entries()[i].manpath,
        forall|k: int| 0 <= k < batch@.len() && #[trigger] is_pending(old(registry), batch@, k) ==>
            manpath_learned(old(registry), batch@, *found, k, final(registry).entries()[batch@[k] as int].manpath),
{
    let ghost o = *registry;
    let mut c: usize = 0;
    let mut k: usize = 0;
    while k < batch.len()
        invariant
            0 <= k <= batch@.len(),
            c <= k,
            c == found_count(&o, batch@, found.not_founds@, k as int),
            registry.len() == o.len(),
            forall|q: int| 0 <= q < batch@.len() ==> (#[trigger] batch@[q]) < o.len(),
            forall|a: int, b: int| 0 <= a < b < batch@.len() ==> (#[trigger] batch@[a]) != (#[trigger] batch@[b]),
            forall|i: int| 0 <= i < registry.len() ==> #[trigger] registry.name(i) == o.name(i),
            forall|i: int| 0 <= i < registry.len() && !touched(&o, batch@, k as int, i) ==>
                (#[trigger] registry.entries()[i]).manpath == o.entries()[i].manpath,
            forall|q: int| 0 <= q < k && #[trigger] is_pending(&o, batch@, q) ==>
                manpath_learned(&o, batch@, *found, q, registry.entries()[batch@[q] as int].manpath),
        decreases batch@.len() - k,
    {
        let idx = batch[k];
        proof {
            assert(!touched(&o, batch@, k as int, idx as int));
        }
        let ghost before = *registry;
        let pending = match registry.binaries[idx].manpath {
            Manpath::Unresolved => true,
            _ => false,
        };
        let ghost c0 = c;
        assert(idx < registry.len());
        assert(registry.name(idx as int) == o.name(idx as int));
        if pending {
            let name = registry.binaries[idx].name.clone();
            assert(name@ == o.name(idx as int));
            let m = if missing(&found.not_founds, &name) {
                Manpath::Absent
            } else {
                let m = if c < found.paths.len() {
                    Manpath::Resolved(found.paths[c].clone())
                } else {
                    Manpath::Unresolved
                };
                c = c + 1;
                m
            };
            let ghost mv = m;
            registry.binaries.set(idx, Binary { name, manpath: m });
            proof {
                assert(is_pending(&o, batch@, k as int));
                assert(registry.entries()[idx as int].manpath == mv);
                assert(registry.name(idx as int) == o.name(idx as int));
                assert(manpath_learned(&o, batch@, *found, k as int, mv));
                assert forall|i: int| 0 <= i < registry.len() implies #[trigger] registry.name(i) == o.name(i) by {
                    assert(before.name(i) == o.name(i));
                    if i != idx {
                        assert(registry.entries()[i] == before.entries()[i]);
                    }
                }
                assert forall|i: int| 0 <= i < registry.len() && !touched(&o, batch@, k + 1, i) implies
                    (#[trigger] registry.entries()[i]).manpath == o.entries()[i].manpath by {
                    if i != idx {
                        assert(registry.entries()[i] == before.entries()[i]);
                        assert(!touched(&o, batch@, k as int, i));
                    } else {
                        assert(touched(&o, batch@, k + 1, i));
                    }
                }
                assert forall|q: int| 0 <= q < k + 1 && #[trigger] is_pending(&o, batch@, q) implies
                    manpath_learned(&o, batch@, *found, q, registry.entries()[batch@[q] as int].manpath) by {
                    if q < k {
                        assert(batch@[q] != idx);
                        assert(registry.entries()[batch@[q] as int] == before.entries()[batch@[q] as int]);
                    }
                }
            }
        } else {
            proof {
                assert(!is_pending(&o, batch@, k as int));
                assert forall|i: int| 0 <= i < registry.len() && !touched(&o, batch@, k + 1, i) implies
                    (#[trigger] registry.entries()[i]).manpath == o.entries()[i].manpath by {
                    if touched(&o, batch@, k as int, i) {
                        let q = choose|q: int| 0 <= q < k && is_pending(&o, batch@, q) && batch@[q] == i;
                        assert(touched(&o, batch@, k + 1, i));
                    }
                }
            }
        }
        k = k + 1;
    }
}

/// Where looking up an executable's description leads.
pub enum DescriptionLookup {
    /// The description was found before.
    Cached(Description),
    /// It is to be extracted from the manual page at this path.
    Extract(String),
    /// There is no manual page to extract it from.
    Unavailable,
}

/// The text of the manual-page file `path` whose content is `content`.
pub open spec fn page_text(path: Seq<char>, content: Seq<u8>) -> Seq<u8> {
    if has_gz_extension(path) {
        gunzipped(content)
    } else {
        content
    }
}

impl Binary {
    /// The first step of looking up the description: the cached one if there is one;
    /// else, where the manual page is known, its path; else nothing.
    pub fn get_description(&self, cache: &DescriptionCache) -> (r: DescriptionLookup)
        requires
            cache.wf(),
        ensures
            cache@.contains_key(self.name@) ==> (r matches DescriptionLookup::Cached(d) && d@ == cache@[self.name@]),
            !cache@.contains_key(self.name@) ==> (self.manpath matches Manpath::Resolved(p)
                ==> (r matches DescriptionLookup::Extract(q) && q@ == p@)),
            !cache@.contains_key(self.name@) ==> (!(self.manpath is Resolved) ==> r is Unavailable),
    {
        match get_description(cache, self) {
            Some(d) => DescriptionLookup::Cached(d),
            None => match &self.manpath {
                Manpath::Resolved(p) => DescriptionLookup::Extract(p.clone()),
                _ => DescriptionLookup::Unavailable,
            },
        }
    }

    /// The DESCRIPTION section of this executable's manual page, given the content of
    /// the file at its path; `None` where the page is unknown or has no such section.
    pub fn extract_description(&self, content: Vec<u8>) -> (r: Option<DescriptionSection>)
        ensures
            !(self.manpath is Resolved) ==> r.is_none(),
            self.manpath matches Manpath::Resolved(p) ==> {
                let page = page_text(p@, content@);
                &&& r.is_some() == (description_bounds(page).is_some() && utf8_decoded(page).is_some())
                &&& r matches Some(d) ==> d.wf() && d.page() == page && description_bounds(page) == Some(d.bounds())
            },
    {
        match &self.manpath {
            Manpath::Resolved(p) => extract_description_section(ManpageBuffer::from_file(p, content)),
            _ => None,
        }
    }

    /// Keeps a freshly extracted description for later look-ups.
    pub fn store_description(&self, cache: &mut DescriptionCache, description: Description)
        requires
            old(cache).wf(),
        ensures
            final(cache).wf(),
            final(cache)@ == old(cache)@.insert(self.name@, description@),
    {
        insert_description(cache, self, description);
    }
}

/// Once a description is stored for an executable, every later look-up of it, as long
/// as nothing else is stored for that name, finds that description in the cache: the
/// extraction is done at most once, and two look-ups agree.
pub proof fn lemma_stored_description_is_served(before: DescriptionCache, after: DescriptionCache, b: Binary, d: Description)
    requires
        after@ == before@.insert(b.name@, d@),
    ensures
        after@.contains_key(b.name@),
        after@[b.name@] == d@,
{
}

/// Every name that the registry was built from stays in it: building keeps them all,
/// and recording manual-page paths changes no name.
pub proof fn lemma_registry_keeps_names(names: Seq<String>, built: Registry, later: Registry)
    requires
        built.built_from(names),
        later.len() == built.len(),
        forall|i: int| 0 <= i < later.len() ==> #[trigger] later.name(i) == built.name(i),
    ensures
        forall|j: int| 0 <= j < names.len() ==> #[trigger] later.contains(names[j]@),
{
    assert forall|j: int| 0 <= j < names.len() implies #[trigger] later.contains(names[j]@) by {
        assert(built.contains(names[j]@));
        let i = choose|i: int| 0 <= i < built.len() && built.name(i) == names[j]@;
        assert(later.name(i) == names[j]@);
    }
}

/// The first entry of a ranking scores at least as high as every executable.
pub proof fn lemma_top_ranked_is_best(reg: &Registry, query: Seq<char>, e: Seq<(u64, usize)>)
    requires
        ranks(e, reg, query, reg.len() as int),
        e.len() > 0,
    ensures
        forall|i: int| 0 <= i < reg.len() ==> e[0].0 >= #[trigger] score_of(reg, i, query),
{
    assert forall|i: int| 0 <= i < reg.len() implies e[0].0 >= #[trigger] score_of(reg, i, query) by {
        assert(has_score(e, score_of(reg, i, query)));
        let k = choose|k: int| 0 <= k < e.len() && e[k].0 == score_of(reg, i, query);
        if k > 0 {
            assert(e[0].0 > e[k].0);
        }
    }
}

/// The enrichment batch stays small and asks only about pages not yet looked up: it
/// holds at most `selected + HEAT_RANGE` executables, none of them twice.
pub proof fn lemma_hot_batch_bounded(e: Seq<(u64, usize)>, reg: &Registry, selected: int)
    requires
        0 <= selected,
        forall|k: int| 0 <= k < e.len() ==> (#[trigger] e[k]).1 < reg.len(),
        forall|a: int, b: int| 0 <= a < b < e.len() ==> (#[trigger] e[a]).1 != (#[trigger] e[b]).1,
    ensures
        ({
            let (lo, hi) = hot_window(e.len() as int, selected);
            let h = hot_indices(e, reg, lo, hi);
            &&& h.len() <= selected + HEAT_RANGE
            &&& forall|k: int| 0 <= k < h.len() ==> reg.entries()[(#[trigger] h[k]) as int].manpath is Unresolved
            &&& forall|a: int, b: int| 0 <= a < b < h.len() ==> (#[trigger] h[a]) != (#[trigger] h[b])
        }),
{
    let (lo, hi) = hot_window(e.len() as int, selected);
    lemma_hot_indices(e, reg, lo, hi);
}

} // verus!
