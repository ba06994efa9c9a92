use vstd::prelude::*;

use crate::binaries::BinSearchResult;
use crate::cli::Cli;
use crate::text::{chars_of, string_of};

verus! {

/// The mode that prints the result for one query and ends.
pub struct SimpleApp {
    pub args: Cli,
}

/// The text printed for one executable: its name alone; with descriptions shown, the
/// name, a colon, a line break and the description, or the name and a comma where it
/// has none. Each entry ends with a line break.
pub open spec fn result_line(name: Seq<char>, show: bool, description: Option<Seq<char>>) -> Seq<char> {
    if !show {
        name.push('\n')
    } else {
        match description {
            Some(d) => name + seq![':', '\n'] + d + seq!['\n'],
            None => name + seq![',', '\n'],
        }
    }
}

fn push_chars(out: &mut Vec<char>, s: &Vec<char>)
    ensures
        final(out)@ == old(out)@ + s@,
{
    let mut i: usize = 0;
    while i < s.len()
        invariant
            0 <= i <= s@.len(),
            out@ == old(out)@ + s@.subrange(0, i as int),
        decreases s@.len() - i,
    {
        out.push(s[i]);
        assert(out@ =~= old(out)@ + s@.subrange(0, i + 1));
        i = i + 1;
    }
    assert(s@.subrange(0, s@.len() as int) =~= s@);
}

impl SimpleApp {
    pub fn with_args(args: Cli) -> (r: SimpleApp)
        ensures
            r.args == args,
    {
        SimpleApp { args }
    }

    /// The registry indices of the entries to print: the best `result_length` ones.
    pub fn shown(&self, result: &BinSearchResult) -> (r: Vec<usize>)
        ensures
            r@.len() == if result@.len() < self.args.result_length { result@.len() as int } else { self.args.result_length as int },
            forall|k: int| 0 <= k < r@.len() ==> r@[k] == result@[k].1,
    {
        let n = if result.len() < self.args.result_length { result.len() } else { self.args.result_length };
        let mut r: Vec<usize> = Vec::new();
        let mut k: usize = 0;
        while k < n
            invariant
                n <= result@.len(),
                0 <= k <= n,
                r@.len() == k,
                forall|j: int| 0 <= j < k ==> r@[j] == result@[j].1,
            decreases n - k,
        {
            r.push(result.get(k).1);
            k = k + 1;
        }
        r
    }

    /// The text printed for one executable of the result.
    pub fn render_line(&self, name: &String, description: Option<&String>) -> (r: String)
        ensures
            r@ == result_line(name@, self.args.show_descriptions, match description {
                Some(d) => Some(d@),
                None => None,
            }),
    {
        let mut out = chars_of(name.as_str());
        if !self.args.show_descriptions {
            out.push('\n');
        } else {
            match description {
                Some(d) => {
                    out.push(':');
                    out.push('\n');
                    push_chars(&mut out, &chars_of(d.as_str()));
                    out.push('\n');
                },
                None => {
                    out.push(',');
                    out.push('\n');
                },
            }
        }
        proof {
            let want = result_line(name@, self.args.show_descriptions, match description {
                Some(d) => Some(d@),
                None => None,
            });
            assert(out@ =~= want);
        }
        string_of(&out)
    }
}

} // verus!
