//! External commands, parsed from a command line.

use vstd::prelude::*;
use vstd::string::StrSliceExecFns;

verus! {

broadcast use vstd::string::group_string_axioms;

/// The characters that carry Unicode's `White_Space` property.
pub open spec fn is_white_space(c: char) -> bool {
    let u = c as u32;
    (0x09 <= u <= 0x0d) || u == 0x20 || u == 0x85 || u == 0xa0 || u == 0x1680 || (0x2000 <= u
        <= 0x200a) || u == 0x2028 || u == 0x2029 || u == 0x202f || u == 0x205f || u == 0x3000
}

/// The words of `s`: its maximal runs of characters that are not white space,
/// in order.
pub open spec fn words(s: Seq<char>) -> Seq<Seq<char>>
    decreases s.len(),
{
    if s.len() == 0 {
        Seq::empty()
    } else {
        let prev = words(s.drop_last());
        let c = s.last();
        if is_white_space(c) {
            prev
        } else if s.len() >= 2 && !is_white_space(s[s.len() - 2]) {
            prev.update(prev.len() - 1, prev.last().push(c))
        } else {
            prev.push(seq![c])
        }
    }
}

/// The program of a command line: its first word, or nothing.
pub open spec fn program_of(line: Seq<char>) -> Seq<char> {
    if words(line).len() == 0 {
        Seq::empty()
    } else {
        words(line)[0]
    }
}

/// The arguments of a command line: the words after the first.
pub open spec fn arguments_of(line: Seq<char>) -> Seq<Seq<char>> {
    if words(line).len() == 0 {
        Seq::empty()
    } else {
        words(line).drop_first()
    }
}

pub open spec fn string_views(v: Seq<String>) -> Seq<Seq<char>> {
    v.map_values(|s: String| s@)
}

/// Whether `c` is white space, as `char::is_whitespace` decides it.
pub fn white_space(c: char) -> (r: bool)
    ensures
        r == is_white_space(c),
{
    let u = c as u32;
    (0x09 <= u && u <= 0x0d) || u == 0x20 || u == 0x85 || u == 0xa0 || u == 0x1680 || (0x2000 <= u
        && u <= 0x200a) || u == 0x2028 || u == 0x2029 || u == 0x202f || u == 0x205f || u == 0x3000
}

/// The words of `line`, split on white space, with no quoting.
pub fn split_words(line: &str) -> (r: Vec<String>)
    ensures
        string_views(r@) == words(line@),
{
    let n = line.unicode_len();
    let mut out: Vec<String> = Vec::new();
    let mut start: usize = 0;
    let mut in_word = false;
    let mut i: usize = 0;
    while i < n
        invariant
            n == line@.len(),
            i <= n,
            start <= i,
            in_word ==> i > 0 && !is_white_space(line@[i - 1]) && start < i && words(
                line@.subrange(0, i as int),
            ) == string_views(out@).push(line@.subrange(start as int, i as int)),
            !in_word ==> (i == 0 || is_white_space(line@[i - 1])) && words(
                line@.subrange(0, i as int),
            ) == string_views(out@),
        decreases n - i,
    {
        let c = line.get_char(i);
        let ghost pre = line@.subrange(0, i as int);
        let ghost next = line@.subrange(0, i + 1);
        assert(next.drop_last() =~= pre);
        assert(next.last() == c);
        if white_space(c) {
            if in_word {
                let w = line.substring_char(start, i).to_string();
                out.push(w);
                assert(string_views(out@) =~= words(pre));
                in_word = false;
            }
        } else {
            if in_word {
                assert(line@.subrange(start as int, i + 1) =~= line@.subrange(
                    start as int,
                    i as int,
                ).push(c));
                assert(words(next) =~= string_views(out@).push(
                    line@.subrange(start as int, i + 1),
                ));
            } else {
                start = i;
                assert(line@.subrange(start as int, i + 1) =~= seq![c]);
                assert(words(next) =~= string_views(out@).push(seq![c]));
                in_word = true;
            }
        }
        i = i + 1;
    }
    assert(line@.subrange(0, n as int) =~= line@);
    if in_word {
        let w = line.substring_char(start, n).to_string();
        out.push(w);
        assert(string_views(out@) =~= words(line@));
    }
    out
}

/// An external command: a program and its arguments, parsed from one command
/// line.
pub struct SystemCall {
    program: String,
    args: Vec<String>,
}

impl SystemCall {
    /// The program that the command runs.
    pub closed spec fn spec_path(&self) -> Seq<char> {
        self.program@
    }

    /// The arguments handed to the program, in order.
    pub closed spec fn spec_arguments(&self) -> Seq<Seq<char>> {
        string_views(self.args@)
    }

    /// Splits `commandline` on white space: the first word is the program, the
    /// others its arguments. A line with no word gives an empty program.
    pub fn new(commandline: &str) -> (r: Self)
        ensures
            r.spec_path() == program_of(commandline@),
            r.spec_arguments() == arguments_of(commandline@),
    {
        let all = split_words(commandline);
        let ghost ws = words(commandline@);
        if all.len() == 0 {
            return SystemCall { program: String::new(), args: Vec::new() };
        }
        let program = all[0].clone();
        let mut args: Vec<String> = Vec::new();
        let mut i: usize = 1;
        while i < all.len()
            invariant
                1 <= i <= all.len(),
                string_views(all@) == ws,
                args@.len() == i - 1,
                string_views(args@) =~= ws.subrange(1, i as int),
            decreases all.len() - i,
        {
            let a = all[i].clone();
            args.push(a);
            assert(args@[i - 1] == all@[i as int]);
            assert(string_views(all@)[i as int] == all@[i as int]@);
            assert(string_views(args@)[i - 1] == ws[i as int]);
            i = i + 1;
        }
        assert(ws.subrange(1, ws.len() as int) =~= ws.drop_first());
        SystemCall { program, args }
    }

    pub fn path(&self) -> (r: String)
        ensures
            r@ == self.spec_path(),
    {
        self.program.clone()
    }

    pub fn arguments(&self) -> (r: Vec<String>)
        ensures
            string_views(r@) == self.spec_arguments(),
    {
        let mut out: Vec<String> = Vec::new();
        let mut i: usize = 0;
        while i < self.args.len()
            invariant
                i <= self.args.len(),
                out@.len() == i,
                string_views(out@) =~= string_views(self.args@).subrange(0, i as int),
            decreases self.args.len() - i,
        {
            let a = self.args[i].clone();
            out.push(a);
            assert(string_views(out@)[i as int] == string_views(self.args@)[i as int]);
            i = i + 1;
        }
        out
    }
}

} // verus!
