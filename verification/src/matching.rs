//! The per-line match decision: flags, case folding, whole-line equality and
//! substring containment, each with an exact specification.

use vstd::prelude::*;

verus! {

/// Search options recognized by the line matcher.
///
/// `Flags::new` folds a sequence of raw flag tokens into one value of this
/// struct; unrecognized tokens are ignored, so flag parsing never fails.
#[derive(Debug, Clone, Copy, PartialEq, Eq, Structural)]
pub struct Flags {
    /// Prefix each output line with its 1-based line number.
    pub line_number: bool,
    /// Match ignoring ASCII case.
    pub case_insensitive: bool,
    /// Keep the lines that do NOT match.
    pub invert_match: bool,
    /// Require the whole line to equal the pattern, instead of merely
    /// containing it.
    pub entire_line: bool,
    /// Prefix each output line with its source file name, even when a single
    /// file is searched.
    pub file_name: bool,
}

/// The code point of `c`, with ASCII upper-case letters folded to lower case.
pub open spec fn fold_code(c: char) -> int {
    if 65 <= c as u32 && c as u32 <= 90 {
        c as u32 + 32
    } else {
        c as u32 as int
    }
}

/// Whether two characters are equal, up to ASCII case when `ci` is set.
pub open spec fn chars_match(a: char, b: char, ci: bool) -> bool {
    if ci {
        fold_code(a) == fold_code(b)
    } else {
        a == b
    }
}

/// Whether `line` equals `pat` character for character, up to ASCII case when
/// `ci` is set.
pub open spec fn seq_matches(line: Seq<char>, pat: Seq<char>, ci: bool) -> bool {
    &&& line.len() == pat.len()
    &&& forall|j: int| 0 <= j < pat.len() ==> chars_match(line[j], pat[j], ci)
}

/// Whether `pat` occurs in `line` starting at position `i`.
pub open spec fn matches_at(line: Seq<char>, pat: Seq<char>, i: int, ci: bool) -> bool {
    &&& 0 <= i
    &&& i + pat.len() <= line.len()
    &&& forall|j: int| 0 <= j < pat.len() ==> chars_match(line[i + j], pat[j], ci)
}

/// Whether `pat` occurs anywhere in `line` (the empty pattern occurs in every
/// line).
pub open spec fn contains_pat(line: Seq<char>, pat: Seq<char>, ci: bool) -> bool {
    exists|i: int| matches_at(line, pat, i, ci)
}

/// The match decision for one line: whole-line equality under `entire_line`,
/// substring containment otherwise, negated under `invert_match`.
pub open spec fn line_matches(line: Seq<char>, pat: Seq<char>, f: Flags) -> bool {
    let hit = if f.entire_line {
        seq_matches(line, pat, f.case_insensitive)
    } else {
        contains_pat(line, pat, f.case_insensitive)
    };
    if f.invert_match {
        !hit
    } else {
        hit
    }
}

/// Whether one of the tokens is `short` or `long`.
pub open spec fn has_flag(toks: Seq<&str>, short: Seq<char>, long: Seq<char>) -> bool {
    exists|i: int| 0 <= i < toks.len() && (#[trigger] toks[i]@ == short || toks[i]@ == long)
}

fn eq_char(a: char, b: char, ci: bool) -> (r: bool)
    ensures
        r == chars_match(a, b, ci),
{
    if ci {
        let x: u32 = a as u32;
        let y: u32 = b as u32;
        let xf: u32 = if 65 <= x && x <= 90 {
            x + 32
        } else {
            x
        };
        let yf: u32 = if 65 <= y && y <= 90 {
            y + 32
        } else {
            y
        };
        xf == yf
    } else {
        a == b
    }
}

fn eq_str(a: &str, b: &str) -> (r: bool)
    ensures
        r == (a@ == b@),
{
    let n = a.unicode_len();
    let m = b.unicode_len();
    if n != m {
        return false;
    }
    let mut i: usize = 0;
    while i < n
        invariant
            n == a@.len(),
            n == b@.len(),
            i <= n,
            forall|k: int| 0 <= k < i ==> a@[k] == b@[k],
        decreases n - i,
    {
        let ca = a.get_char(i);
        let cb = b.get_char(i);
        if ca != cb {
            return false;
        }
        i += 1;
    }
    proof {
        assert(a@ =~= b@);
    }
    true
}

fn matches_pat_at(line: &str, pat: &str, i: usize, ci: bool) -> (r: bool)
    requires
        i + pat@.len() <= line@.len(),
        line@.len() <= usize::MAX,
    ensures
        r == matches_at(line@, pat@, i as int, ci),
{
    let m = pat.unicode_len();
    let mut j: usize = 0;
    while j < m
        invariant
            m == pat@.len(),
            i + m <= line@.len() <= usize::MAX,
            j <= m,
            forall|k: int| 0 <= k < j ==> chars_match(line@[i + k], pat@[k], ci),
        decreases m - j,
    {
        if !eq_char(line.get_char(i + j), pat.get_char(j), ci) {
            proof {
                assert(!matches_at(line@, pat@, i as int, ci)) by {
                    if matches_at(line@, pat@, i as int, ci) {
                        assert(chars_match(line@[i + j], pat@[j as int], ci));
                    }
                }
            }
            return false;
        }
        j += 1;
    }
    true
}

/// Whether `pattern` occurs anywhere in `line`, ignoring ASCII case when
/// `case_insensitive` is set. The empty pattern occurs in every line.
pub fn line_contains(line: &str, pattern: &str, case_insensitive: bool) -> (r: bool)
    ensures
        r == contains_pat(line@, pattern@, case_insensitive),
{
    let n = line.unicode_len();
    let m = pattern.unicode_len();
    if m > n {
        proof {
            assert forall|i: int| !matches_at(line@, pattern@, i, case_insensitive) by {
                if matches_at(line@, pattern@, i, case_insensitive) {
                    assert(i + pattern@.len() <= line@.len());
                }
            }
        }
        return false;
    }
    let mut i: usize = 0;
    while i <= n - m
        invariant
            m == pattern@.len(),
            n == line@.len(),
            m <= n,
            i <= n - m + 1,
            forall|k: int| 0 <= k < i ==> !matches_at(line@, pattern@, k, case_insensitive),
        decreases n - m - i + 1,
    {
        if matches_pat_at(line, pattern, i, case_insensitive) {
            proof {
                assert(matches_at(line@, pattern@, i as int, case_insensitive));
            }
            return true;
        }
        i += 1;
    }
    proof {
        assert forall|k: int| !matches_at(line@, pattern@, k, case_insensitive) by {
            if matches_at(line@, pattern@, k, case_insensitive) {
                assert(0 <= k && k + m <= n);
            }
        }
    }
    false
}

/// Whether `line` equals `pattern` as a whole, ignoring ASCII case when
/// `case_insensitive` is set.
pub fn line_equals(line: &str, pattern: &str, case_insensitive: bool) -> (r: bool)
    ensures
        r == seq_matches(line@, pattern@, case_insensitive),
{
    let n = line.unicode_len();
    let m = pattern.unicode_len();
    if n != m {
        return false;
    }
    let r = matches_pat_at(line, pattern, 0, case_insensitive);
    proof {
        assert forall|j: int| 0 <= j < pattern@.len() implies #[trigger] line@[j] == line@[0 + j] by {}
    }
    r
}

/// The match decision for one line under `flags`.
pub fn matches_line(line: &str, pattern: &str, flags: &Flags) -> (r: bool)
    ensures
        r == line_matches(line@, pattern@, *flags),
{
    let hit = if flags.entire_line {
        line_equals(line, pattern, flags.case_insensitive)
    } else {
        line_contains(line, pattern, flags.case_insensitive)
    };
    if flags.invert_match {
        !hit
    } else {
        hit
    }
}

fn has_token(toks: &[&str], short: &str, long: &str) -> (r: bool)
    ensures
        r == has_flag(toks@, short@, long@),
{
    let n = toks.len();
    let mut i: usize = 0;
    while i < n
        invariant
            n == toks@.len(),
            i <= n,
            forall|k: int| 0 <= k < i ==> !(#[trigger] toks@[k]@ == short@ || toks@[k]@ == long@),
        decreases n - i,
    {
        if eq_str(toks[i], short) || eq_str(toks[i], long) {
            return true;
        }
        i += 1;
    }
    false
}

impl Flags {
    /// Folds raw flag tokens into a `Flags` value. Each option is recognized
    /// under a short and a long spelling; any other token is ignored.
    pub fn new(flags: &[&str]) -> (r: Self)
        ensures
            r.line_number == has_flag(flags@, "-n"@, "--line-number"@),
            r.case_insensitive == has_flag(flags@, "-i"@, "--case-insensitive"@),
            r.invert_match == has_flag(flags@, "-v"@, "--invert-match"@),
            r.entire_line == has_flag(flags@, "-x"@, "--entire-line"@),
            r.file_name == has_flag(flags@, "-l"@, "--file-name"@),
    {
        Flags {
            line_number: has_token(flags, "-n", "--line-number"),
            case_insensitive: has_token(flags, "-i", "--case-insensitive"),
            invert_match: has_token(flags, "-v", "--invert-match"),
            entire_line: has_token(flags, "-x", "--entire-line"),
            file_name: has_token(flags, "-l", "--file-name"),
        }
    }
}

} // verus!
