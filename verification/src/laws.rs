//! General properties of the search, proved once and for all inputs.

use vstd::prelude::*;
use crate::lines::spec_lines;
use crate::matching::Flags;
use crate::matching::contains_pat;
use crate::matching::line_matches;
use crate::matching::matches_at;
use crate::search::file_out_from;
use crate::search::file_output;
use crate::search::grep_spec;
use crate::search::lemma_plain_render;
use crate::search::matched_lines;

verus! {

/// Whether `a` is an order-preserving subsequence of `b`: `a` is `b` with
/// zero or more elements left out.
pub open spec fn is_subsequence<T>(a: Seq<T>, b: Seq<T>) -> bool
    decreases a.len() + b.len(),
{
    if a.len() == 0 {
        true
    } else if b.len() == 0 {
        false
    } else {
        (a[0] == b[0] && is_subsequence(a.drop_first(), b.drop_first())) || is_subsequence(
            a,
            b.drop_first(),
        )
    }
}

/// The concatenation of the lines of every file, in file order.
pub open spec fn all_lines(files: Seq<(Seq<char>, Seq<char>)>) -> Seq<Seq<char>>
    decreases files.len(),
{
    if files.len() == 0 {
        Seq::<Seq<char>>::empty()
    } else {
        spec_lines(files[0].1) + all_lines(files.drop_first())
    }
}

/// The empty pattern matches every line: with `invert_match` and
/// `entire_line` unset, every line of the input is kept.
pub proof fn lemma_empty_pattern_matches_all(lines: Seq<Seq<char>>, f: Flags)
    requires
        !f.invert_match,
        !f.entire_line,
    ensures
        matched_lines(lines, Seq::<char>::empty(), f) == lines,
    decreases lines.len(),
{
    let pat = Seq::<char>::empty();
    if lines.len() == 0 {
        assert(matched_lines(lines, pat, f) =~= lines);
    } else {
        assert(matches_at(lines[0], pat, 0, f.case_insensitive));
        assert(contains_pat(lines[0], pat, f.case_insensitive));
        lemma_empty_pattern_matches_all(lines.drop_first(), f);
        assert(matched_lines(lines, pat, f) =~= lines);
    }
}

proof fn lemma_file_out_len_all_match(
    lines: Seq<Seq<char>>,
    no: int,
    fname: Seq<char>,
    pat: Seq<char>,
    f: Flags,
    multi: bool,
)
    requires
        forall|i: int| 0 <= i < lines.len() ==> line_matches(#[trigger] lines[i], pat, f),
    ensures
        file_out_from(lines, no, fname, pat, f, multi).len() == lines.len(),
    decreases lines.len(),
{
    if lines.len() == 0 {
    } else {
        assert(line_matches(lines[0], pat, f));
        assert forall|i: int| 0 <= i < lines.drop_first().len() implies line_matches(
            #[trigger] lines.drop_first()[i],
            pat,
            f,
        ) by {
            assert(lines.drop_first()[i] == lines[i + 1]);
        }
        lemma_file_out_len_all_match(lines.drop_first(), no + 1, fname, pat, f, multi);
    }
}

/// The empty pattern matches every line of every file: with `invert_match`
/// and `entire_line` unset, the search emits one output line for each input
/// line.
pub proof fn lemma_empty_pattern_output_total(
    f: Flags,
    files: Seq<(Seq<char>, Seq<char>)>,
    multi: bool,
)
    requires
        !f.invert_match,
        !f.entire_line,
    ensures
        grep_spec(Seq::<char>::empty(), f, files, multi).len() == all_lines(files).len(),
    decreases files.len(),
{
    if files.len() == 0 {
    } else {
        let lines = spec_lines(files[0].1);
        assert forall|i: int| 0 <= i < lines.len() implies line_matches(
            #[trigger] lines[i],
            Seq::<char>::empty(),
            f,
        ) by {
            assert(matches_at(lines[i], Seq::<char>::empty(), 0, f.case_insensitive));
        }
        lemma_file_out_len_all_match(lines, 1, files[0].0, Seq::<char>::empty(), f, multi);
        lemma_empty_pattern_output_total(f, files.drop_first(), multi);
    }
}

/// A line that does not contain the pattern is excluded: with `invert_match`,
/// `entire_line` and `case_insensitive` unset, no kept line equals it.
pub proof fn lemma_unmatched_line_excluded(
    lines: Seq<Seq<char>>,
    pat: Seq<char>,
    f: Flags,
    l: Seq<char>,
)
    requires
        !f.invert_match,
        !f.entire_line,
        !f.case_insensitive,
        !contains_pat(l, pat, false),
    ensures
        forall|j: int|
            0 <= j < matched_lines(lines, pat, f).len() ==> #[trigger] matched_lines(
                lines,
                pat,
                f,
            )[j] != l,
    decreases lines.len(),
{
    if lines.len() == 0 {
    } else {
        lemma_unmatched_line_excluded(lines.drop_first(), pat, f, l);
        let m = matched_lines(lines, pat, f);
        let mt = matched_lines(lines.drop_first(), pat, f);
        if line_matches(lines[0], pat, f) {
            assert(lines[0] != l);
            assert forall|j: int| 0 <= j < m.len() implies #[trigger] m[j] != l by {
                if j == 0 {
                    assert(m[0] == lines[0]);
                } else {
                    assert(m[j] == mt[j - 1]);
                }
            }
        } else {
            assert forall|j: int| 0 <= j < m.len() implies #[trigger] m[j] != l by {
                assert(m[j] == mt[j]);
            }
        }
    }
}

/// The kept lines are an order-preserving subsequence of the input lines.
pub proof fn lemma_matched_lines_subsequence(lines: Seq<Seq<char>>, pat: Seq<char>, f: Flags)
    ensures
        is_subsequence(matched_lines(lines, pat, f), lines),
    decreases lines.len(),
{
    if lines.len() == 0 {
    } else {
        lemma_matched_lines_subsequence(lines.drop_first(), pat, f);
        let m = matched_lines(lines, pat, f);
        let mt = matched_lines(lines.drop_first(), pat, f);
        if line_matches(lines[0], pat, f) {
            assert(m[0] == lines[0]);
            assert(m.drop_first() =~= mt);
        } else {
            assert(m =~= mt);
        }
    }
}

/// A subsequence of `b2` is also a subsequence of `b1 + b2`.
proof fn lemma_subsequence_prefix<T>(a: Seq<T>, b1: Seq<T>, b2: Seq<T>)
    requires
        is_subsequence(a, b2),
    ensures
        is_subsequence(a, b1 + b2),
    decreases b1.len(),
{
    if b1.len() == 0 {
        assert(b1 + b2 =~= b2);
    } else {
        lemma_subsequence_prefix(a, b1.drop_first(), b2);
        assert((b1 + b2).drop_first() =~= b1.drop_first() + b2);
    }
}

/// Subsequences concatenate: a subsequence of `b1` followed by a subsequence
/// of `b2` is a subsequence of `b1 + b2`.
pub proof fn lemma_subsequence_concat<T>(a1: Seq<T>, b1: Seq<T>, a2: Seq<T>, b2: Seq<T>)
    requires
        is_subsequence(a1, b1),
        is_subsequence(a2, b2),
    ensures
        is_subsequence(a1 + a2, b1 + b2),
    decreases b1.len(),
{
    if a1.len() == 0 {
        assert(a1 + a2 =~= a2);
        lemma_subsequence_prefix(a2, b1, b2);
    } else {
        assert(b1.len() > 0);
        assert((b1 + b2).drop_first() =~= b1.drop_first() + b2);
        if a1[0] == b1[0] && is_subsequence(a1.drop_first(), b1.drop_first()) {
            lemma_subsequence_concat(a1.drop_first(), b1.drop_first(), a2, b2);
            assert((a1 + a2).drop_first() =~= a1.drop_first() + a2);
            assert((a1 + a2)[0] == (b1 + b2)[0]);
        } else {
            assert(is_subsequence(a1, b1.drop_first()));
            lemma_subsequence_concat(a1, b1.drop_first(), a2, b2);
        }
    }
}

/// Round trip: with the line-number and file-name prefixes off, the returned
/// lines are an order-preserving subsequence of the concatenation of all
/// input lines.
pub proof fn lemma_grep_output_subsequence(
    pat: Seq<char>,
    f: Flags,
    files: Seq<(Seq<char>, Seq<char>)>,
)
    requires
        !f.line_number,
    ensures
        is_subsequence(grep_spec(pat, f, files, false), all_lines(files)),
    decreases files.len(),
{
    if files.len() == 0 {
    } else {
        let head_lines = spec_lines(files[0].1);
        lemma_plain_render(head_lines, 1, files[0].0, pat, f);
        lemma_matched_lines_subsequence(head_lines, pat, f);
        lemma_grep_output_subsequence(pat, f, files.drop_first());
        lemma_subsequence_concat(
            file_output(files[0].0, files[0].1, pat, f, false),
            head_lines,
            grep_spec(pat, f, files.drop_first(), false),
            all_lines(files.drop_first()),
        );
    }
}

} // verus!
