use vstd::prelude::*;

use crate::binaries::Manpaths;
use crate::descriptions::find_char;
use crate::text::{chars_of, copy_bytes, decode_utf8, string_of, utf8_decoded};

use std::io::Read;

verus! {

/// The heading convention of a manual page.
#[derive(PartialEq, Eq, Structural)]
pub enum ManpageType {
    Man,
    Mdoc,
    Unknown,
}

/// The raw source of a manual page.
pub struct ManpageBuffer {
    bytes: Vec<u8>,
}

/// What `flate2::read::GzDecoder` yields when it reads the given bytes to the end,
/// keeping what came before any error.
pub uninterp spec fn gunzipped(b: Seq<u8>) -> Seq<u8>;

/// Relies on `flate2::read::GzDecoder` to inflate gzip data.
#[verifier::external_body]
fn gunzip(b: &Vec<u8>) -> (r: Vec<u8>)
    ensures
        r@ == gunzipped(b@),
{
    let mut content = Vec::new();
    let _ = flate2::read::GzDecoder::new(b.as_slice()).read_to_end(&mut content);
    content
}

/// Whether a file name has the extension `gz`, as `Path::extension` reads it: a
/// final `.gz` after a non-empty stem.
pub open spec fn has_gz_extension(name: Seq<char>) -> bool {
    &&& name.len() > 3
    &&& name.subrange(name.len() - 3, name.len() as int) == seq!['.', 'g', 'z']
    &&& name[name.len() - 4] != '/'
}

impl ManpageBuffer {
    pub closed spec fn view(&self) -> Seq<u8> {
        self.bytes@
    }

    pub fn new(vec: Vec<u8>) -> (r: ManpageBuffer)
        ensures
            r@ == vec@,
    {
        ManpageBuffer { bytes: vec }
    }

    /// The text of a manual-page file called `path` whose content is `content`: a
    /// gzip file is inflated first, any other is taken as it is.
    pub fn from_file(path: &String, content: Vec<u8>) -> (r: ManpageBuffer)
        ensures
            has_gz_extension(path@) ==> r@ == gunzipped(content@),
            !has_gz_extension(path@) ==> r@ == content@,
    {
        let cs = crate::text::chars_of(path.as_str());
        let n = cs.len();
        let is_gz = n > 3 && cs[n - 3] == '.' && cs[n - 2] == 'g' && cs[n - 1] == 'z'
            && cs[n - 4] != '/';
        proof {
            if n > 3 {
                assert(is_gz == (cs@.subrange(n - 3, n as int) =~= seq!['.', 'g', 'z']
                    && cs@[n - 4] != '/'));
            }
        }
        if is_gz {
            ManpageBuffer { bytes: gunzip(&content) }
        } else {
            ManpageBuffer { bytes: content }
        }
    }

    pub fn get_cursor_ref(&self) -> (r: &Vec<u8>)
        ensures
            r@ == self@,
    {
        &self.bytes
    }

    /// The source as text, or `None` where it is not UTF-8.
    pub fn into_inner(self) -> (r: Option<String>)
        ensures
            r.is_some() == utf8_decoded(self@).is_some(),
            r.is_some() ==> r.unwrap()@ == utf8_decoded(self@).unwrap(),
    {
        decode_utf8(self.bytes)
    }
}

/// The lines of `t` from `pos` on, as `str::lines` splits them: at each `\n`, dropping
/// a `\r` just before it, with no empty line after a final `\n`.
pub open spec fn lines_from(t: Seq<char>, pos: int) -> Seq<Seq<char>>
    decreases t.len() + 1 - pos,
{
    if pos < 0 || pos >= t.len() {
        Seq::empty()
    } else {
        let e = find_char(t, '\n', pos);
        if e < pos || e > t.len() {
            Seq::empty()
        } else {
            let hi = if e < t.len() && e > pos && t[e - 1] == '\r' { e - 1 } else { e };
            seq![t.subrange(pos, hi)] + lines_from(t, e + 1)
        }
    }
}

/// The text that `man` writes before each name that has no manual page.
pub open spec fn missing_prefix() -> Seq<char> {
    seq!['N', 'o', ' ', 'm', 'a', 'n', 'u', 'a', 'l', ' ', 'e', 'n', 't', 'r', 'y', ' ', 'f', 'o', 'r', ' ']
}

/// The names that diagnostic lines report missing, in order.
pub open spec fn missing_names(ls: Seq<Seq<char>>) -> Seq<Seq<char>>
    decreases ls.len(),
{
    if ls.len() == 0 {
        Seq::empty()
    } else {
        let rest = missing_names(ls.drop_last());
        let l = ls.last();
        let p = missing_prefix();
        if l.len() >= p.len() && l.subrange(0, p.len() as int) == p {
            rest.push(l.subrange(p.len() as int, l.len() as int))
        } else {
            rest
        }
    }
}

/// The views of a sequence of strings.
pub open spec fn views(v: Seq<String>) -> Seq<Seq<char>> {
    Seq::new(v.len(), |i: int| v[i]@)
}

pub(crate) fn split_lines(t: &Vec<char>) -> (r: Vec<Vec<char>>)
    ensures
        r@.len() == lines_from(t@, 0).len(),
        forall|k: int| 0 <= k < r@.len() ==> (#[trigger] r@[k])@ == lines_from(t@, 0)[k],
{
    let n = t.len();
    let mut r: Vec<Vec<char>> = Vec::new();
    let mut pos: usize = 0;
    while pos < n
        invariant
            n == t@.len(),
            pos <= n,
            lines_from(t@, 0) =~= Seq::new(r@.len(), |k: int| r@[k]@) + lines_from(t@, pos as int),
        decreases n - pos,
    {
        let mut e: usize = pos;
        while e < n && t[e] != '\n'
            invariant
                pos <= e <= n == t@.len(),
                find_char(t@, '\n', pos as int) == find_char(t@, '\n', e as int),
            decreases n - e,
        {
            e = e + 1;
        }
        let hi = if e < n && e > pos && t[e - 1] == '\r' { e - 1 } else { e };
        let mut line: Vec<char> = Vec::new();
        let mut i: usize = pos;
        while i < hi
            invariant
                pos <= i <= hi <= n == t@.len(),
                line@ == t@.subrange(pos as int, i as int),
            decreases hi - i,
        {
            line.push(t[i]);
            assert(line@ =~= t@.subrange(pos as int, i + 1));
            i = i + 1;
        }
        let ghost before = Seq::new(r@.len(), |k: int| r@[k]@);
        r.push(line);
        proof {
            assert(Seq::new(r@.len(), |k: int| r@[k]@) =~= before.push(t@.subrange(pos as int, hi as int)));
            assert(lines_from(t@, pos as int) =~= seq![t@.subrange(pos as int, hi as int)] + lines_from(t@, e + 1));
        }
        pos = if e < n { e + 1 } else { n };
        proof {
            if e >= n {
                assert(lines_from(t@, e + 1) =~= lines_from(t@, pos as int));
            }
        }
    }
    proof {
        assert(lines_from(t@, pos as int) =~= Seq::<Seq<char>>::empty());
    }
    r
}

fn missing_prefix_vec() -> (r: Vec<char>)
    ensures
        r@ == missing_prefix(),
{
    let r = vec!['N', 'o', ' ', 'm', 'a', 'n', 'u', 'a', 'l', ' ', 'e', 'n', 't', 'r', 'y', ' ', 'f', 'o', 'r', ' '];
    assert(r@ =~= missing_prefix());
    r
}

fn strings_of(ls: &Vec<Vec<char>>) -> (r: Vec<String>)
    ensures
        r@.len() == ls@.len(),
        forall|k: int| 0 <= k < r@.len() ==> (#[trigger] r@[k])@ == ls@[k]@,
{
    let mut r: Vec<String> = Vec::new();
    let mut k: usize = 0;
    while k < ls.len()
        invariant
            0 <= k <= ls@.len(),
            r@.len() == k,
            forall|j: int| 0 <= j < k ==> (#[trigger] r@[j])@ == ls@[j]@,
        decreases ls@.len() - k,
    {
        r.push(string_of(&ls[k]));
        k = k + 1;
    }
    r
}

fn missing_of(ls: &Vec<Vec<char>>) -> (r: Vec<String>)
    ensures
        views(r@) == missing_names(Seq::new(ls@.len(), |k: int| ls@[k]@)),
{
    let p = missing_prefix_vec();
    let m = p.len();
    let ghost all = Seq::new(ls@.len(), |k: int| ls@[k]@);
    let mut r: Vec<String> = Vec::new();
    let mut k: usize = 0;
    while k < ls.len()
        invariant
            0 <= k <= ls@.len(),
            p@ == missing_prefix(),
            m == p@.len(),
            all == Seq::new(ls@.len(), |q: int| ls@[q]@),
            views(r@) == missing_names(all.subrange(0, k as int)),
        decreases ls@.len() - k,
    {
        let l = &ls[k];
        let mut ok = l.len() >= m;
        let mut j: usize = 0;
        while ok && j < m
            invariant
                p@ == missing_prefix(),
                m == p@.len(),
                0 <= j <= m,
                ok ==> l@.len() >= m,
                ok ==> forall|q: int| 0 <= q < j ==> l@[q] == p@[q],
                !ok ==> !(l@.len() >= m && l@.subrange(0, m as int) == p@),
            decreases m - j,
        {
            if l[j] != p[j] {
                ok = false;
                assert(l@.subrange(0, m as int)[j as int] != p@[j as int]);
            }
            j = j + 1;
        }
        let ghost prev = all.subrange(0, k as int);
        assert(all.subrange(0, k + 1).drop_last() =~= prev);
        assert(all.subrange(0, k + 1).last() == l@);
        if ok {
            assert(l@.subrange(0, m as int) =~= p@);
            let mut rest: Vec<char> = Vec::new();
            let mut i: usize = m;
            while i < l.len()
                invariant
                    m <= i <= l@.len(),
                    rest@ == l@.subrange(m as int, i as int),
                decreases l@.len() - i,
            {
                rest.push(l[i]);
                assert(rest@ =~= l@.subrange(m as int, i + 1));
                i = i + 1;
            }
            let ghost old_r = r@;
            r.push(string_of(&rest));
            assert(views(r@) =~= views(old_r).push(rest@));
        }
        k = k + 1;
    }
    assert(all.subrange(0, ls@.len() as int) =~= all);
    r
}

/// Reads what `man -w` answered for a batch of names: its exit status (`None` where it
/// had none), its standard output (one path per line, for the names that have a
/// page) and its diagnostics (a line for each name that has none). Only the statuses
/// 0 (all found) and 16 (some missing), with UTF-8 output, give an answer.
pub fn parse_manpaths(code: Option<i32>, stdout: &Vec<u8>, stderr: &Vec<u8>) -> (r: Option<Manpaths>)
    ensures
        r.is_some() == ((code == Some(0i32) || code == Some(16i32)) && utf8_decoded(stdout@).is_some()
            && utf8_decoded(stderr@).is_some()),
        r matches Some(m) ==> views(m.paths@) == lines_from(utf8_decoded(stdout@).unwrap(), 0)
            && views(m.not_founds@) == missing_names(lines_from(utf8_decoded(stderr@).unwrap(), 0)),
{
    match code {
        Some(c) => {
            if c != 0 && c != 16 {
                return None;
            }
        },
        None => return None,
    }
    let out = match decode_utf8(copy_bytes(stdout)) {
        Some(s) => s,
        None => return None,
    };
    let err = match decode_utf8(copy_bytes(stderr)) {
        Some(s) => s,
        None => return None,
    };
    let out_lines = split_lines(&chars_of(out.as_str()));
    let err_lines = split_lines(&chars_of(err.as_str()));
    let paths = strings_of(&out_lines);
    let not_founds = missing_of(&err_lines);
    assert(views(paths@) =~= lines_from(utf8_decoded(stdout@).unwrap(), 0));
    assert(Seq::new(err_lines@.len(), |k: int| err_lines@[k]@) =~= lines_from(utf8_decoded(stderr@).unwrap(), 0));
    Some(Manpaths { paths, not_founds })
}

} // verus!
