use vstd::prelude::*;

use crate::descriptions::Description;
use crate::man::{lines_from, split_lines};
use crate::text::chars_of;

verus! {

/// One entry of the result list as drawn: the name and, where known, the description.
pub struct SearchResultItem {
    pub name: String,
    pub description: Option<Description>,
}

/// Where an entry stands in the drawn list.
#[derive(PartialEq, Eq, Structural)]
pub enum SearchResultItemOrder {
    Selected,
    Last,
    Rest,
}

/// The rows that lines of text take in a column `width` wide: one per line, plus one
/// per full `width` of its characters (a count taken modulo 2^16, as the drawing code
/// holds it in 16 bits).
pub open spec fn text_rows(ls: Seq<Seq<char>>, width: int) -> int
    decreases ls.len(),
{
    if ls.len() == 0 || width <= 0 {
        0
    } else {
        text_rows(ls.drop_last(), width) + 1 + (ls.last().len() as int % 65536) / width
    }
}

/// The rows an entry takes: two for the name and its border, and for a description
/// one more plus the rows of its lines.
pub open spec fn item_rows(description: Option<Seq<char>>, width: int) -> int {
    match description {
        Some(d) => text_rows(lines_from(d, 0), width) + 1 + 2,
        None => 2,
    }
}

proof fn lemma_text_rows_grow(ls: Seq<Seq<char>>, width: int, k: int)
    requires
        width > 0,
        0 <= k <= ls.len(),
    ensures
        text_rows(ls.subrange(0, k), width) <= text_rows(ls, width),
        0 <= text_rows(ls.subrange(0, k), width),
    decreases ls.len() - k,
{
    if k < ls.len() {
        lemma_text_rows_grow(ls, width, k + 1);
        assert(ls.subrange(0, k + 1).drop_last() =~= ls.subrange(0, k));
        lemma_text_rows_nonneg(ls.subrange(0, k), width);
    } else {
        assert(ls.subrange(0, k) =~= ls);
        lemma_text_rows_nonneg(ls, width);
    }
}

proof fn lemma_text_rows_nonneg(ls: Seq<Seq<char>>, width: int)
    requires
        width > 0,
    ensures
        0 <= text_rows(ls, width),
    decreases ls.len(),
{
    if ls.len() > 0 {
        lemma_text_rows_nonneg(ls.drop_last(), width);
    }
}

impl SearchResultItem {
    /// The height of the entry in rows, in a column `width` wide.
    pub fn calculate_height(&self, width: u16) -> (r: u16)
        requires
            width > 0,
            item_rows(match self.description {
                Some(d) => Some(d@),
                None => None,
            }, width as int) <= u16::MAX,
        ensures
            r == item_rows(match self.description {
                Some(d) => Some(d@),
                None => None,
            }, width as int),
    {
        match &self.description {
            None => 2,
            Some(d) => {
                let ls = split_lines(&chars_of(d.value.as_str()));
                let ghost all = lines_from(d@, 0);
                assert(all =~= Seq::new(ls@.len(), |k: int| ls@[k]@));
                let mut h: u16 = 0;
                let mut k: usize = 0;
                while k < ls.len()
                    invariant
                        width > 0,
                        0 <= k <= ls@.len() == all.len(),
                        forall|q: int| 0 <= q < ls@.len() ==> (#[trigger] ls@[q])@ == all[q],
                        h == text_rows(all.subrange(0, k as int), width as int),
                        text_rows(all, width as int) + 3 <= u16::MAX,
                    decreases ls@.len() - k,
                {
                    let len = ls[k].len();
                    let over: u16 = ((len % 65536) as u16) / width;
                    proof {
                        assert(all.subrange(0, k + 1).drop_last() =~= all.subrange(0, k as int));
                        assert(all.subrange(0, k + 1).last() == ls@[k as int]@);
                        lemma_text_rows_grow(all, width as int, k + 1);
                    }
                    h = h + 1 + over;
                    k = k + 1;
                }
                assert(all.subrange(0, k as int) =~= all);
                h + 1 + 2
            },
        }
    }
}

} // verus!
