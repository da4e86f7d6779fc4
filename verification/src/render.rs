//! Rendering of output lines: the optional file-name and line-number
//! prefixes, each followed by a `:` separator, then the unmodified line.

use vstd::prelude::*;
use crate::matching::Flags;

verus! {

/// The decimal digit character for `d`.
pub open spec fn digit_char(d: int) -> char {
    if d == 0 {
        '0'
    } else if d == 1 {
        '1'
    } else if d == 2 {
        '2'
    } else if d == 3 {
        '3'
    } else if d == 4 {
        '4'
    } else if d == 5 {
        '5'
    } else if d == 6 {
        '6'
    } else if d == 7 {
        '7'
    } else if d == 8 {
        '8'
    } else {
        '9'
    }
}

/// The decimal digits of `n`, most significant first, without leading zeros
/// (`0` itself is the single digit `'0'`).
pub open spec fn dec_seq(n: nat) -> Seq<char>
    decreases n,
{
    if n < 10 {
        seq![digit_char(n as int)]
    } else {
        dec_seq(n / 10).push(digit_char((n % 10) as int))
    }
}

/// One rendered output line: the file name (when more than one file is
/// searched or the `file_name` flag is set) and the 1-based line number (when
/// the `line_number` flag is set), each closed by `':'`, then the line itself.
pub open spec fn rendered_line(
    fname: Seq<char>,
    no: int,
    line: Seq<char>,
    f: Flags,
    multi: bool,
) -> Seq<char> {
    let name_part = if multi {
        fname + seq![':']
    } else {
        Seq::<char>::empty()
    };
    let no_part = if f.line_number {
        dec_seq(no as nat) + seq![':']
    } else {
        Seq::<char>::empty()
    };
    name_part + no_part + line
}

fn digit_str(d: usize) -> (r: &'static str)
    requires
        d < 10,
    ensures
        r@ == seq![digit_char(d as int)],
{
    let s: &'static str = match d {
        0 => "0",
        1 => "1",
        2 => "2",
        3 => "3",
        4 => "4",
        5 => "5",
        6 => "6",
        7 => "7",
        8 => "8",
        _ => "9",
    };
    proof {
        reveal_strlit("0");
        reveal_strlit("1");
        reveal_strlit("2");
        reveal_strlit("3");
        reveal_strlit("4");
        reveal_strlit("5");
        reveal_strlit("6");
        reveal_strlit("7");
        reveal_strlit("8");
        reveal_strlit("9");
        assert(s@ =~= seq![digit_char(d as int)]);
    }
    s
}

/// The decimal rendering of `n`, as `dec_seq` describes.
pub fn render_number(n: usize) -> (r: String)
    ensures
        r@ == dec_seq(n as nat),
    decreases n,
{
    if n < 10 {
        String::from_str(digit_str(n))
    } else {
        let mut s = render_number(n / 10);
        s.append(digit_str(n % 10));
        proof {
            assert(s@ =~= dec_seq(n as nat));
        }
        s
    }
}

/// Renders one matched line, as `rendered_line` describes.
pub fn render_line(fname: &str, no: usize, line: &str, f: &Flags, multi: bool) -> (r: String)
    ensures
        r@ == rendered_line(fname@, no as int, line@, *f, multi),
{
    proof {
        reveal_strlit(":");
        assert(":"@ =~= seq![':']);
    }
    let mut s = String::new();
    if multi {
        s.append(fname);
        s.append(":");
    }
    if f.line_number {
        let num = render_number(no);
        s.append(num.as_str());
        s.append(":");
    }
    s.append(line);
    proof {
        assert(s@ =~= rendered_line(fname@, no as int, line@, *f, multi));
    }
    s
}

} // verus!
