use vstd::prelude::*;

use crate::descriptions::{ansi_stripped, normalized, Description};
use crate::man::{ManpageBuffer, ManpageType};
use crate::text::{copy_bytes, chars_of, decode_utf8, string_of, trim, trim_chars, utf8_decoded};

verus! {

/// The end of the line that starts at `pos`: just after its `\n`, or the end of `s`.
pub open spec fn line_end(s: Seq<u8>, pos: int) -> int
    decreases s.len() - pos,
{
    if pos >= s.len() {
        s.len() as int
    } else if s[pos] == 10 {
        pos + 1
    } else {
        line_end(s, pos + 1)
    }
}

/// The heading convention that a line's macro names: `.SH` (man) or `.Sh` (mdoc),
/// with at least one character after it.
pub open spec fn heading_of(line: Seq<u8>) -> ManpageType {
    if line.len() >= 4 && line[0] == 46 && line[1] == 83 && line[2] == 72 {
        ManpageType::Man
    } else if line.len() >= 4 && line[0] == 46 && line[1] == 83 && line[2] == 104 {
        ManpageType::Mdoc
    } else {
        ManpageType::Unknown
    }
}

/// Whether a heading's argument, as text and trimmed, is `DESCRIPTION`.
pub open spec fn names_description(rest: Seq<u8>) -> bool {
    match utf8_decoded(rest) {
        Some(t) => trim(t) == description_word(),
        None => false,
    }
}

/// `DESCRIPTION`.
pub open spec fn description_word() -> Seq<char> {
    seq!['D', 'E', 'S', 'C', 'R', 'I', 'P', 'T', 'I', 'O', 'N']
}

/// The section boundaries that the scan finds from `pos` on, having locked onto the
/// convention `kind` (or none yet) and having seen the DESCRIPTION heading end at
/// `start` (or not yet).
pub open spec fn scan(s: Seq<u8>, pos: int, kind: ManpageType, start: Option<int>) -> Option<(int, int)>
    decreases s.len() - pos,
{
    if pos < 0 || pos >= s.len() {
        None
    } else {
        let e = line_end(s, pos);
        let line = s.subrange(pos, e);
        let k = heading_of(line);
        if e <= pos || e > s.len() {
            None
        } else if k == ManpageType::Unknown {
            scan(s, e, kind, start)
        } else if kind != ManpageType::Unknown && kind != k {
            None
        } else {
            match start {
                None => if names_description(line.subrange(3, line.len() as int)) {
                    scan(s, e, k, Some(e))
                } else {
                    scan(s, e, k, None)
                },
                Some(st) => Some((st, pos)),
            }
        }
    }
}

/// The DESCRIPTION section of a manual page: the offset just after its heading line
/// and the offset of the next heading line.
pub open spec fn description_bounds(s: Seq<u8>) -> Option<(int, int)> {
    scan(s, 0, ManpageType::Unknown, None)
}

proof fn lemma_line_end(s: Seq<u8>, pos: int)
    requires
        0 <= pos < s.len(),
    ensures
        pos < line_end(s, pos) <= s.len(),
    decreases s.len() - pos,
{
    if s[pos] != 10 {
        if pos + 1 < s.len() {
            lemma_line_end(s, pos + 1);
        } else {
            assert(line_end(s, pos + 1) == s.len());
        }
    }
}

proof fn lemma_scan_bounds(s: Seq<u8>, pos: int, kind: ManpageType, start: Option<int>)
    requires
        0 <= pos,
        start.is_some() ==> 0 <= start.unwrap() <= pos,
    ensures
        scan(s, pos, kind, start) matches Some((a, b)) ==> 0 <= a <= b <= s.len(),
    decreases s.len() - pos,
{
    if 0 <= pos < s.len() {
        lemma_line_end(s, pos);
        let e = line_end(s, pos);
        let k = heading_of(s.subrange(pos, e));
        if k == ManpageType::Unknown {
            lemma_scan_bounds(s, e, kind, start);
        } else if start.is_none() {
            lemma_scan_bounds(s, e, k, Some(e));
            lemma_scan_bounds(s, e, k, None);
        }
    }
}

fn find_line_end(s: &Vec<u8>, pos: usize) -> (r: usize)
    requires
        pos < s@.len(),
    ensures
        r == line_end(s@, pos as int),
{
    let mut i: usize = pos;
    while i < s.len() && s[i] != 10
        invariant
            pos <= i <= s@.len(),
            line_end(s@, pos as int) == line_end(s@, i as int),
        decreases s@.len() - i,
    {
        i = i + 1;
    }
    if i < s.len() {
        i + 1
    } else {
        i
    }
}

fn heading_kind(s: &Vec<u8>, pos: usize, e: usize) -> (r: ManpageType)
    requires
        pos < e <= s@.len(),
    ensures
        r == heading_of(s@.subrange(pos as int, e as int)),
{
    if e - pos >= 4 && s[pos] == 46 && s[pos + 1] == 83 && s[pos + 2] == 72 {
        ManpageType::Man
    } else if e - pos >= 4 && s[pos] == 46 && s[pos + 1] == 83 && s[pos + 2] == 104 {
        ManpageType::Mdoc
    } else {
        ManpageType::Unknown
    }
}

/// Whether the bytes of `s` from `lo` to `hi`, as text and trimmed, spell `DESCRIPTION`.
fn is_description_arg(s: &Vec<u8>, lo: usize, hi: usize) -> (r: bool)
    requires
        lo <= hi <= s@.len(),
    ensures
        r == names_description(s@.subrange(lo as int, hi as int)),
{
    let mut rest: Vec<u8> = Vec::new();
    let mut i: usize = lo;
    while i < hi
        invariant
            lo <= i <= hi <= s@.len(),
            rest@ == s@.subrange(lo as int, i as int),
        decreases hi - i,
    {
        rest.push(s[i]);
        assert(rest@ =~= s@.subrange(lo as int, i + 1));
        i = i + 1;
    }
    let text = match decode_utf8(rest) {
        Some(t) => t,
        None => return false,
    };
    let cs = chars_of(text.as_str());
    let t = trim_chars(&cs, 0, cs.len());
    assert(cs@.subrange(0, cs@.len() as int) =~= cs@);
    let word: Vec<char> = vec!['D', 'E', 'S', 'C', 'R', 'I', 'P', 'T', 'I', 'O', 'N'];
    assert(word@ =~= description_word());
    assert(names_description(s@.subrange(lo as int, hi as int)) == (t@ == word@));
    if t.len() != word.len() {
        return false;
    }
    let mut j: usize = 0;
    while j < word.len()
        invariant
            names_description(s@.subrange(lo as int, hi as int)) == (t@ == word@),
            t@.len() == word@.len(),
            0 <= j <= word@.len(),
            forall|q: int| 0 <= q < j ==> t@[q] == word@[q],
        decreases word@.len() - j,
    {
        if t[j] != word[j] {
            assert(t@[j as int] != word@[j as int]);
            return false;
        }
        j = j + 1;
    }
    assert(t@ =~= word@);
    true
}

/// Finds the DESCRIPTION section of a manual page. Headings follow one convention
/// (`.SH` or `.Sh`); a page that mixes them, or that lacks the heading or a heading
/// after it, has no section.
pub fn find_description_section(buf: &ManpageBuffer) -> (r: Option<(usize, usize)>)
    ensures
        r.is_some() == description_bounds(buf@).is_some(),
        r matches Some((a, b)) ==> description_bounds(buf@) == Some((a as int, b as int)),
{
    let s = buf.get_cursor_ref();
    let mut kind = ManpageType::Unknown;
    let mut start: Option<usize> = None;
    let mut pos: usize = 0;
    while pos < s.len()
        invariant
            pos <= s@.len(),
            s@ == buf@,
            start matches Some(st) ==> st <= pos,
            description_bounds(s@) == scan(
                s@,
                pos as int,
                kind,
                match start {
                    Some(st) => Some(st as int),
                    None => None,
                },
            ),
        decreases s@.len() - pos,
    {
        proof {
            lemma_line_end(s@, pos as int);
        }
        let e = find_line_end(s, pos);
        let k = heading_kind(s, pos, e);
        if k == ManpageType::Unknown {
            pos = e;
            continue;
        }
        if kind != ManpageType::Unknown && kind != k {
            return None;
        }
        match start {
            None => {
                let ghost line = s@.subrange(pos as int, e as int);
                assert(line.subrange(3, line.len() as int) =~= s@.subrange(pos + 3, e as int));
                if is_description_arg(s, pos + 3, e) {
                    start = Some(e);
                }
                kind = k;
                pos = e;
            },
            Some(st) => {
                return Some((st, pos));
            },
        }
    }
    None
}

/// The marker put before the section's body in the typesetter's input, to find where
/// the body's rendering starts in its output.
pub open spec fn start_marker() -> Seq<char> {
    seq!['_', '_', '#', 'D', 'E', 'S', 'C', 'R', 'I', 'P', 'T', 'I', 'O', 'N', '_', 'S', 'T', 'A', 'R', 'T', '#', '_', '_']
}

/// The marker's bytes.
pub open spec fn start_marker_bytes() -> Seq<u8> {
    seq![95, 95, 35, 68, 69, 83, 67, 82, 73, 80, 84, 73, 79, 78, 95, 83, 84, 65, 82, 84, 35, 95, 95u8]
}

fn start_marker_vec() -> (r: Vec<char>)
    ensures
        r@ == start_marker(),
{
    let r = vec!['_', '_', '#', 'D', 'E', 'S', 'C', 'R', 'I', 'P', 'T', 'I', 'O', 'N', '_', 'S', 'T', 'A', 'R', 'T', '#', '_', '_'];
    assert(r@ =~= start_marker());
    r
}

/// The document handed to the typesetter for a section from `start` to `end` of `s`:
/// a no-hyphenation request, the page up to the section (which keeps its macro
/// definitions), a zero-width mark with the marker, and then the section's body.
pub open spec fn typesetter_input(s: Seq<u8>, start: int, end: int) -> Seq<u8> {
    seq![46u8, 110, 104, 10] + s.subrange(0, start) + seq![92u8, 38] + start_marker_bytes()
        + s.subrange(start, end)
}

/// The first index at or after `i` where `p` occurs in `t`.
pub open spec fn first_match(t: Seq<char>, p: Seq<char>, i: int) -> Option<int>
    decreases t.len() + 1 - i,
{
    if i < 0 || i + p.len() > t.len() {
        None
    } else if t.subrange(i, i + p.len()) == p {
        Some(i)
    } else {
        first_match(t, p, i + 1)
    }
}

/// The description in the typesetter's rendering `t`: what follows the marker, trimmed
/// and normalized; none where the marker is missing.
pub open spec fn rendered_description(t: Seq<char>) -> Option<Seq<char>> {
    match first_match(t, start_marker(), 0) {
        Some(i) => Some(
            normalized(ansi_stripped(trim(t.subrange(i + start_marker().len(), t.len() as int)))),
        ),
        None => None,
    }
}

/// A manual page with the bounds of its DESCRIPTION section.
pub struct DescriptionSection {
    inner: Vec<u8>,
    start: usize,
    end: usize,
}

fn push_all(out: &mut Vec<u8>, s: &Vec<u8>, lo: usize, hi: usize)
    requires
        lo <= hi <= s@.len(),
    ensures
        final(out)@ == old(out)@ + s@.subrange(lo as int, hi as int),
{
    let mut i: usize = lo;
    while i < hi
        invariant
            lo <= i <= hi <= s@.len(),
            out@ == old(out)@ + s@.subrange(lo as int, i as int),
        decreases hi - i,
    {
        out.push(s[i]);
        assert(out@ =~= old(out)@ + s@.subrange(lo as int, i + 1));
        i = i + 1;
    }
}

impl DescriptionSection {
    pub closed spec fn wf(&self) -> bool {
        self.start <= self.end <= self.inner@.len()
    }

    /// The whole page.
    pub closed spec fn page(&self) -> Seq<u8> {
        self.inner@
    }

    pub closed spec fn bounds(&self) -> (int, int) {
        (self.start as int, self.end as int)
    }

    /// The document to hand to the typesetter (`groff -Tascii`) to render the section.
    pub fn typesetter_input(&self) -> (r: Vec<u8>)
        requires
            self.wf(),
        ensures
            r@ == typesetter_input(self.page(), self.bounds().0, self.bounds().1),
    {
        let mut out: Vec<u8> = vec![46u8, 110, 104, 10];
        push_all(&mut out, &self.inner, 0, self.start);
        out.push(92u8);
        out.push(38u8);
        let marker: Vec<u8> = vec![95, 95, 35, 68, 69, 83, 67, 82, 73, 80, 84, 73, 79, 78, 95, 83, 84, 65, 82, 84, 35, 95, 95u8];
        assert(marker@ =~= start_marker_bytes());
        push_all(&mut out, &marker, 0, marker.len());
        push_all(&mut out, &self.inner, self.start, self.end);
        assert(marker@.subrange(0, marker@.len() as int) =~= marker@);
        assert(out@ =~= typesetter_input(self.page(), self.bounds().0, self.bounds().1));
        out
    }

    /// The description in the typesetter's output: `None` where the output is not
    /// UTF-8 or lacks the marker.
    pub fn get_description(output: &Vec<u8>) -> (r: Option<Description>)
        ensures
            r.is_some() == (utf8_decoded(output@) matches Some(t) && rendered_description(t).is_some()),
            r.is_some() ==> r.unwrap()@ == rendered_description(utf8_decoded(output@).unwrap()).unwrap(),
    {
        let text = match decode_utf8(copy_bytes(output)) {
            Some(t) => t,
            None => return None,
        };
        let t = chars_of(text.as_str());
        let p = start_marker_vec();
        let n = t.len();
        let m = p.len();
        let mut i: usize = 0;
        while i <= n && m <= n - i
            invariant
                t@ == text@,
                text@ == utf8_decoded(output@).unwrap(),
                utf8_decoded(output@).is_some(),
                p@ == start_marker(),
                n == t@.len(),
                m == p@.len(),
                first_match(t@, p@, 0) == first_match(t@, p@, i as int),
            decreases n + 1 - i,
        {
            let mut j: usize = 0;
            while j < m && t[i + j] == p[j]
                invariant
                    i + m <= n == t@.len(),
                    m == p@.len(),
                    0 <= j <= m,
                    forall|k: int| 0 <= k < j ==> t@[i + k] == p@[k],
                decreases m - j,
            {
                j = j + 1;
            }
            if j == m {
                assert(t@.subrange(i as int, i + m) =~= p@);
                assert(first_match(t@, p@, i as int) == Some(i as int));
                let rest = trim_chars(&t, i + m, n);
                let d = Description::new(string_of(&rest));
                assert(rendered_description(t@) == Some(d@));
                return Some(d);
            }
            assert(t@.subrange(i as int, i + m)[j as int] != p@[j as int]);
            i = i + 1;
        }
        None
    }
}

/// The DESCRIPTION section of a manual page, with the page itself; `None` where the
/// page has no such section or is not UTF-8.
pub fn extract_description_section(buf: ManpageBuffer) -> (r: Option<DescriptionSection>)
    ensures
        r.is_some() == (description_bounds(buf@).is_some() && utf8_decoded(buf@).is_some()),
        r matches Some(d) ==> d.wf() && d.page() == buf@ && description_bounds(buf@) == Some(d.bounds()),
{
    let bounds = find_description_section(&buf);
    let (start, end) = match bounds {
        Some(b) => b,
        None => return None,
    };
    proof {
        lemma_scan_bounds(buf@, 0, ManpageType::Unknown, None);
    }
    let inner = copy_bytes(buf.get_cursor_ref());
    match buf.into_inner() {
        Some(_) => Some(DescriptionSection { inner, start, end }),
        None => None,
    }
}

} // verus!
