use vstd::prelude::*;

use crate::binaries::Binary;
use crate::text::{chars_of, string_of, trim, trim_chars};

verus! {

/// The one-line summary of an executable, in plain text.
pub struct Description {
    pub value: String,
}

/// Relies on `strip_ansi_escapes::strip_str`: the text without terminal escape sequences.
pub uninterp spec fn ansi_stripped(s: Seq<char>) -> Seq<char>;

/// Relies on `strip_ansi_escapes::strip_str` to remove terminal escape sequences.
#[verifier::external_body]
fn strip_ansi(s: &str) -> (r: String)
    ensures
        r@ == ansi_stripped(s@),
{
    strip_ansi_escapes::strip_str(s)
}

/// The index of the first `c` in `s` at or after `i`, or `s.len()` if there is none.
pub open spec fn find_char(s: Seq<char>, c: char, i: int) -> int
    decreases s.len() - i,
{
    if i >= s.len() {
        s.len() as int
    } else if s[i] == c {
        i
    } else {
        find_char(s, c, i + 1)
    }
}

/// A text that opens with a roff cross-reference (a `.` and a word) loses that word.
pub open spec fn drop_marker(s: Seq<char>) -> Seq<char> {
    if s.len() > 0 && s[0] == '.' && find_char(s, ' ', 0) < s.len() {
        s.subrange(find_char(s, ' ', 0), s.len() as int)
    } else {
        s
    }
}

/// Each line break becomes a space.
pub open spec fn join_lines(s: Seq<char>) -> Seq<char> {
    Seq::new(s.len(), |i: int| if s[i] == '\n' { ' ' } else { s[i] })
}

/// The normal form of a description text whose escape sequences are gone.
pub open spec fn normalized(s: Seq<char>) -> Seq<char> {
    join_lines(trim(drop_marker(s)))
}

proof fn lemma_find_char_bounds(s: Seq<char>, c: char, i: int)
    requires
        0 <= i <= s.len(),
    ensures
        i <= find_char(s, c, i) <= s.len(),
        find_char(s, c, i) < s.len() ==> s[find_char(s, c, i)] == c,
    decreases s.len() - i,
{
    if i < s.len() && s[i] != c {
        lemma_find_char_bounds(s, c, i + 1);
    }
}

impl Description {
    pub open spec fn view(&self) -> Seq<char> {
        self.value@
    }

    /// Normalizes a raw text: escape sequences go, then a leading cross-reference word,
    /// then surrounding whitespace, and line breaks become spaces.
    pub fn new(value: String) -> (r: Description)
        ensures
            r@ == normalized(ansi_stripped(value@)),
    {
        let stripped = strip_ansi(value.as_str());
        let cs = chars_of(stripped.as_str());
        let ghost s = cs@;
        let n = cs.len();
        let mut lo: usize = 0;
        if n > 0 && cs[0] == '.' {
            let mut k: usize = 0;
            while k < n && cs[k] != ' '
                invariant
                    0 <= k <= n == s.len(),
                    cs@ == s,
                    find_char(s, ' ', 0) == find_char(s, ' ', k as int),
                decreases n - k,
            {
                k = k + 1;
            }
            proof {
                lemma_find_char_bounds(s, ' ', k as int);
            }
            if k < n {
                lo = k;
            }
        }
        assert(drop_marker(s) =~= s.subrange(lo as int, n as int));
        let t = trim_chars(&cs, lo, n);
        let mut out: Vec<char> = Vec::new();
        let mut i: usize = 0;
        while i < t.len()
            invariant
                0 <= i <= t@.len(),
                out@ =~= join_lines(t@).subrange(0, i as int),
            decreases t@.len() - i,
        {
            if t[i] == '\n' {
                out.push(' ');
            } else {
                out.push(t[i]);
            }
            i = i + 1;
        }
        assert(out@ =~= join_lines(t@));
        Description { value: string_of(&out) }
    }

    /// A copy of this description.
    pub fn duplicate(&self) -> (r: Description)
        ensures
            r@ == self@,
    {
        Description { value: self.value.clone() }
    }
}

/// The descriptions found so far, by executable name.
pub struct DescriptionCache {
    names: Vec<String>,
    values: Vec<Description>,
}

impl DescriptionCache {
    pub closed spec fn wf(&self) -> bool {
        &&& self.names@.len() == self.values@.len()
        &&& forall|i: int, j: int|
            0 <= i < j < self.names@.len() ==> self.names@[i]@ != self.names@[j]@
    }

    pub closed spec fn has(&self, k: Seq<char>) -> bool {
        exists|i: int| 0 <= i < self.names@.len() && self.names@[i]@ == k
    }

    closed spec fn index_of(&self, k: Seq<char>) -> int {
        choose|i: int| 0 <= i < self.names@.len() && self.names@[i]@ == k
    }

    /// The cached descriptions: executable name to description text.
    pub closed spec fn view(&self) -> Map<Seq<char>, Seq<char>> {
        Map::new(|k: Seq<char>| self.has(k), |k: Seq<char>| self.values@[self.index_of(k)]@)
    }

    proof fn lemma_at(&self, i: int)
        requires
            self.wf(),
            0 <= i < self.names@.len(),
        ensures
            self@.contains_key(self.names@[i]@),
            self@[self.names@[i]@] == self.values@[i]@,
    {
        let k = self.names@[i]@;
        assert(self.has(k));
        let j = self.index_of(k);
        assert(j == i);
    }

    pub fn new() -> (r: DescriptionCache)
        ensures
            r.wf(),
            r@ == Map::<Seq<char>, Seq<char>>::empty(),
    {
        let r = DescriptionCache { names: Vec::new(), values: Vec::new() };
        assert(r@ =~= Map::<Seq<char>, Seq<char>>::empty());
        r
    }

    fn find(&self, name: &String) -> (r: Option<usize>)
        requires
            self.wf(),
        ensures
            r.is_none() == !self@.contains_key(name@),
            r.is_some() ==> r.unwrap() < self.names@.len() && self.names@[r.unwrap() as int]@ == name@,
    {
        let mut i: usize = 0;
        while i < self.names.len()
            invariant
                self.wf(),
                0 <= i <= self.names@.len(),
                forall|j: int| 0 <= j < i ==> self.names@[j]@ != name@,
            decreases self.names@.len() - i,
        {
            if self.names[i] == *name {
                return Some(i);
            }
            i = i + 1;
        }
        None
    }
}

/// Stores the description of an executable, replacing any earlier one.
pub fn insert_description(cache: &mut DescriptionCache, binary: &Binary, description: Description)
    requires
        old(cache).wf(),
    ensures
        final(cache).wf(),
        final(cache)@ == old(cache)@.insert(binary.name@, description@),
{
    let ghost k = binary.name@;
    match cache.find(&binary.name) {
        Some(i) => {
            cache.values.set(i, description);
            proof {
                assert forall|q: Seq<char>| #[trigger] cache.has(q) == old(cache).has(q) by {
                    if old(cache).has(q) {
                        let j = old(cache).index_of(q);
                        assert(cache.names@[j]@ == q);
                    }
                }
                assert forall|q: Seq<char>| cache.has(q) && q != k implies
                    cache@[q] == old(cache)@[q] by {
                    let j = old(cache).index_of(q);
                    old(cache).lemma_at(j);
                    cache.lemma_at(j);
                }
                cache.lemma_at(i as int);
            }
        },
        None => {
            cache.names.push(binary.name.clone());
            cache.values.push(description);
            proof {
                let n = old(cache).names@.len();
                assert forall|q: Seq<char>| #[trigger] cache.has(q) == (old(cache).has(q) || q == k) by {
                    if old(cache).has(q) {
                        let j = old(cache).index_of(q);
                        assert(cache.names@[j]@ == q);
                    }
                    if q == k {
                        assert(cache.names@[n as int]@ == q);
                    }
                    if cache.has(q) && q != k {
                        let j = cache.index_of(q);
                        assert(old(cache).names@[j]@ == q);
                    }
                }
                assert forall|q: Seq<char>| old(cache).has(q) && q != k implies
                    cache@[q] == old(cache)@[q] by {
                    let j = old(cache).index_of(q);
                    old(cache).lemma_at(j);
                    cache.lemma_at(j);
                }
                cache.lemma_at(n as int);
            }
        },
    }
    assert(cache@ =~= old(cache)@.insert(k, description@));
}

/// Forgets the description of an executable.
pub fn remove_description(cache: &mut DescriptionCache, binary: &Binary)
    requires
        old(cache).wf(),
    ensures
        final(cache).wf(),
        final(cache)@ == old(cache)@.remove(binary.name@),
{
    let ghost k = binary.name@;
    if let Some(i) = cache.find(&binary.name) {
        cache.names.remove(i);
        cache.values.remove(i);
        proof {
            let o = old(cache);
            assert forall|q: Seq<char>| #[trigger] cache.has(q) == (o.has(q) && q != k) by {
                if o.has(q) && q != k {
                    let j = o.index_of(q);
                    if j < i {
                        assert(cache.names@[j]@ == q);
                    } else {
                        assert(cache.names@[j - 1]@ == q);
                    }
                }
                if cache.has(q) {
                    let j = cache.index_of(q);
                    if j < i {
                        assert(o.names@[j]@ == q);
                    } else {
                        assert(o.names@[j + 1]@ == q);
                    }
                }
            }
            assert forall|q: Seq<char>| cache.has(q) implies cache@[q] == o@[q] by {
                let j = cache.index_of(q);
                cache.lemma_at(j);
                if j < i {
                    o.lemma_at(j);
                } else {
                    o.lemma_at(j + 1);
                }
            }
        }
    }
    assert(cache@ =~= old(cache)@.remove(k));
}

/// The cached description of an executable, if there is one.
pub fn get_description(cache: &DescriptionCache, binary: &Binary) -> (r: Option<Description>)
    requires
        cache.wf(),
    ensures
        r.is_some() == cache@.contains_key(binary.name@),
        r.is_some() ==> r.unwrap()@ == cache@[binary.name@],
{
    match cache.find(&binary.name) {
        Some(i) => {
            proof {
                cache.lemma_at(i as int);
            }
            Some(cache.values[i].duplicate())
        },
        None => None,
    }
}

} // verus!
