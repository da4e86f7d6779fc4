//! The search itself: which lines of which inputs are emitted, in what order,
//! and with which errors.

use vstd::prelude::*;
use crate::lines::spec_lines;
use crate::lines::split_lines;
use crate::matching::Flags;
use crate::matching::line_matches;
use crate::matching::matches_line;
use crate::render::rendered_line;
use crate::render::render_line;

verus! {

/// Why a search failed. Errors are terminal: a failed search returns no
/// partial results.
#[derive(Debug, Clone, PartialEq, Eq)]
pub enum GrepError {
    /// No input files were given.
    NoFilesSpecified,
    /// The named file could not be read. The library never constructs this
    /// variant itself; the caller that reads the files reports a failed read
    /// through it.
    FileReadError { path: String },
}

/// A `Flags` value with every option unset.
pub open spec fn plain_flags() -> Flags {
    Flags {
        line_number: false,
        case_insensitive: false,
        invert_match: false,
        entire_line: false,
        file_name: false,
    }
}

/// The lines among `lines` that match, in order, unmodified.
pub open spec fn matched_lines(lines: Seq<Seq<char>>, pat: Seq<char>, f: Flags) -> Seq<Seq<char>>
    decreases lines.len(),
{
    if lines.len() == 0 {
        Seq::<Seq<char>>::empty()
    } else {
        let head = if line_matches(lines[0], pat, f) {
            seq![lines[0]]
        } else {
            Seq::<Seq<char>>::empty()
        };
        head + matched_lines(lines.drop_first(), pat, f)
    }
}

/// The rendered output for `lines`, the first of which has line number `no`.
pub open spec fn file_out_from(
    lines: Seq<Seq<char>>,
    no: int,
    fname: Seq<char>,
    pat: Seq<char>,
    f: Flags,
    multi: bool,
) -> Seq<Seq<char>>
    decreases lines.len(),
{
    if lines.len() == 0 {
        Seq::<Seq<char>>::empty()
    } else {
        let head = if line_matches(lines[0], pat, f) {
            seq![rendered_line(fname, no, lines[0], f, multi)]
        } else {
            Seq::<Seq<char>>::empty()
        };
        head + file_out_from(lines.drop_first(), no + 1, fname, pat, f, multi)
    }
}

/// The rendered output for one file.
pub open spec fn file_output(
    fname: Seq<char>,
    contents: Seq<char>,
    pat: Seq<char>,
    f: Flags,
    multi: bool,
) -> Seq<Seq<char>> {
    file_out_from(spec_lines(contents), 1, fname, pat, f, multi)
}

/// The views of a list of (file name, file contents) pairs.
pub open spec fn files_view(files: Seq<(String, String)>) -> Seq<(Seq<char>, Seq<char>)> {
    files.map_values(|p: (String, String)| (p.0@, p.1@))
}

/// The rendered output of the whole search: the per-file outputs, in file
/// order.
pub open spec fn grep_spec(
    pat: Seq<char>,
    f: Flags,
    files: Seq<(Seq<char>, Seq<char>)>,
    multi: bool,
) -> Seq<Seq<char>>
    decreases files.len(),
{
    if files.len() == 0 {
        Seq::<Seq<char>>::empty()
    } else {
        file_output(files[0].0, files[0].1, pat, f, multi) + grep_spec(
            pat,
            f,
            files.drop_first(),
            multi,
        )
    }
}

/// With the line-number prefix off and the file-name prefix off, the rendered
/// output is exactly the matching lines, unmodified.
pub proof fn lemma_plain_render(
    lines: Seq<Seq<char>>,
    no: int,
    fname: Seq<char>,
    pat: Seq<char>,
    f: Flags,
)
    requires
        !f.line_number,
    ensures
        file_out_from(lines, no, fname, pat, f, false) == matched_lines(lines, pat, f),
    decreases lines.len(),
{
    if lines.len() == 0 {
    } else {
        lemma_plain_render(lines.drop_first(), no + 1, fname, pat, f);
        if line_matches(lines[0], pat, f) {
            assert(rendered_line(fname, no, lines[0], f, false) =~= lines[0]);
            assert(seq![rendered_line(fname, no, lines[0], f, false)] =~= seq![lines[0]]);
        }
        assert(file_out_from(lines, no, fname, pat, f, false) == matched_lines(lines, pat, f));
    }
}

/// The rendered matches of one file, starting with line number 1.
pub fn file_matches(fname: &str, contents: &str, pattern: &str, flags: &Flags, multi: bool) -> (out:
    Vec<String>)
    ensures
        out.deep_view() == file_output(fname@, contents@, pattern@, *flags, multi),
{
    let lines = split_lines(contents);
    let ghost all = lines.deep_view();
    let mut out: Vec<String> = Vec::new();
    let n = lines.len();
    let mut i: usize = 0;
    proof {
        assert(out.deep_view() =~= Seq::<Seq<char>>::empty());
        assert(all.skip(0) =~= all);
        assert(Seq::<Seq<char>>::empty() + file_out_from(all, 1, fname@, pattern@, *flags, multi)
            =~= file_out_from(all, 1, fname@, pattern@, *flags, multi));
    }
    while i < n
        invariant
            n == lines@.len(),
            i <= n,
            lines.deep_view() == all,
            all == spec_lines(contents@),
            file_out_from(all, 1, fname@, pattern@, *flags, multi) == out.deep_view()
                + file_out_from(all.skip(i as int), i + 1, fname@, pattern@, *flags, multi),
        decreases n - i,
    {
        let line: &String = &lines[i];
        proof {
            assert(all.skip(i as int).drop_first() =~= all.skip(i as int + 1));
            assert(all.skip(i as int)[0] == all[i as int]);
            assert(line@ == all[i as int]);
        }
        if matches_line(line.as_str(), pattern, flags) {
            let rendered = render_line(fname, i + 1, line.as_str(), flags, multi);
            let ghost old_deep = out.deep_view();
            out.push(rendered);
            proof {
                assert(out.deep_view() =~= old_deep + seq![rendered@]);
                assert(old_deep + seq![rendered@] + file_out_from(
                    all.skip(i as int + 1),
                    i + 2,
                    fname@,
                    pattern@,
                    *flags,
                    multi,
                ) =~= old_deep + (seq![rendered@] + file_out_from(
                    all.skip(i as int + 1),
                    i + 2,
                    fname@,
                    pattern@,
                    *flags,
                    multi,
                )));
            }
        }
        i += 1;
    }
    proof {
        assert(all.skip(n as int) =~= Seq::<Seq<char>>::empty());
        assert(out.deep_view() =~= file_output(fname@, contents@, pattern@, *flags, multi));
    }
    out
}

/// Searches `files`, each given as a (file name, file contents) pair, for the
/// lines matching `pattern` under `flags`. The file name joins the output
/// prefix when more than one file is searched or the `file_name` flag is set.
/// An empty file list is the one error; no matches is an empty result.
pub fn grep(pattern: &str, flags: &Flags, files: &[(String, String)]) -> (r: Result<
    Vec<String>,
    GrepError,
>)
    ensures
        r is Ok <==> files@.len() > 0,
        r is Err ==> r->Err_0 is NoFilesSpecified,
        r is Ok ==> r->Ok_0.deep_view() == grep_spec(
            pattern@,
            *flags,
            files_view(files@),
            flags.file_name || files@.len() > 1,
        ),
{
    if files.len() == 0 {
        return Err(GrepError::NoFilesSpecified);
    }
    let multi = flags.file_name || files.len() > 1;
    let ghost fv = files_view(files@);
    let mut out: Vec<String> = Vec::new();
    let n = files.len();
    let mut fi: usize = 0;
    proof {
        assert(out.deep_view() =~= Seq::<Seq<char>>::empty());
        assert(fv.skip(0) =~= fv);
        assert(Seq::<Seq<char>>::empty() + grep_spec(pattern@, *flags, fv, multi) =~= grep_spec(
            pattern@,
            *flags,
            fv,
            multi,
        ));
    }
    while fi < n
        invariant
            n == files@.len(),
            fi <= n,
            fv == files_view(files@),
            multi == (flags.file_name || n > 1),
            grep_spec(pattern@, *flags, fv, multi) == out.deep_view() + grep_spec(
                pattern@,
                *flags,
                fv.skip(fi as int),
                multi,
            ),
        decreases n - fi,
    {
        let pair: &(String, String) = &files[fi];
        proof {
            assert(fv.skip(fi as int).drop_first() =~= fv.skip(fi as int + 1));
            assert(fv.skip(fi as int)[0] == fv[fi as int]);
            assert(fv[fi as int] == (pair.0@, pair.1@));
        }
        let mut part = file_matches(pair.0.as_str(), pair.1.as_str(), pattern, flags, multi);
        let ghost part_deep = part.deep_view();
        let ghost old_deep = out.deep_view();
        out.append(&mut part);
        proof {
            assert(out.deep_view() =~= old_deep + part_deep);
            assert(old_deep + part_deep + grep_spec(pattern@, *flags, fv.skip(fi as int + 1), multi)
                =~= old_deep + (part_deep + grep_spec(
                pattern@,
                *flags,
                fv.skip(fi as int + 1),
                multi,
            )));
        }
        fi += 1;
    }
    proof {
        assert(fv.skip(n as int) =~= Seq::<(Seq<char>, Seq<char>)>::empty());
        assert(out.deep_view() =~= grep_spec(pattern@, *flags, fv, multi));
    }
    Ok(out)
}

/// The views of a list of read results: each file name with its contents, or
/// `None` where the read failed.
pub open spec fn reads_view(reads: Seq<(String, Option<String>)>) -> Seq<
    (Seq<char>, Option<Seq<char>>),
> {
    reads.map_values(
        |p: (String, Option<String>)|
            (
                p.0@,
                match p.1 {
                    Option::Some(c) => Option::Some(c@),
                    Option::None => Option::<Seq<char>>::None,
                },
            ),
    )
}

/// Whether every read succeeded.
pub open spec fn all_readable(rv: Seq<(Seq<char>, Option<Seq<char>>)>) -> bool {
    forall|i: int| 0 <= i < rv.len() ==> rv[i].1 is Some
}

/// The position of the first failed read.
pub open spec fn first_failure(rv: Seq<(Seq<char>, Option<Seq<char>>)>) -> int
    decreases rv.len(),
{
    if rv.len() == 0 {
        0
    } else if rv[0].1 is None {
        0
    } else {
        1 + first_failure(rv.drop_first())
    }
}

/// The (file name, file contents) pairs of a list of read results, a failed
/// read standing as empty contents.
pub open spec fn contents_view(rv: Seq<(Seq<char>, Option<Seq<char>>)>) -> Seq<
    (Seq<char>, Seq<char>),
> {
    rv.map_values(
        |p: (Seq<char>, Option<Seq<char>>)|
            (
                p.0,
                match p.1 {
                    Option::Some(c) => c,
                    Option::None => Seq::<char>::empty(),
                },
            ),
    )
}

proof fn lemma_first_failure_at(rv: Seq<(Seq<char>, Option<Seq<char>>)>, i: int)
    requires
        0 <= i < rv.len(),
        rv[i].1 is None,
        forall|k: int| 0 <= k < i ==> rv[k].1 is Some,
    ensures
        first_failure(rv) == i,
    decreases i,
{
    if i == 0 {
    } else {
        assert(rv[0].1 is Some);
        assert(rv.drop_first()[i - 1].1 is None);
        assert forall|k: int| 0 <= k < i - 1 implies rv.drop_first()[k].1 is Some by {
            assert(rv[k + 1].1 is Some);
        }
        lemma_first_failure_at(rv.drop_first(), i - 1);
    }
}

/// Turns a list of read results into the (file name, file contents) pairs a
/// search takes. One failed read fails the whole list with `FileReadError`
/// naming the first unreadable file; no partial results are returned.
pub fn collect_contents(reads: &[(String, Option<String>)]) -> (r: Result<
    Vec<(String, String)>,
    GrepError,
>)
    ensures
        r is Ok <==> all_readable(reads_view(reads@)),
        r is Ok ==> files_view(r->Ok_0@) == contents_view(reads_view(reads@)),
        r is Err ==> (r->Err_0 matches GrepError::FileReadError { path } && path@ == reads_view(
            reads@,
        )[first_failure(reads_view(reads@))].0),
{
    let ghost rv = reads_view(reads@);
    let n = reads.len();
    let mut out: Vec<(String, String)> = Vec::new();
    let mut i: usize = 0;
    while i < n
        invariant
            n == reads@.len(),
            i <= n,
            rv == reads_view(reads@),
            out@.len() == i,
            forall|k: int| 0 <= k < i ==> rv[k].1 is Some,
            forall|k: int| 0 <= k < i ==> #[trigger] files_view(out@)[k] == contents_view(rv)[k],
        decreases n - i,
    {
        let pair: &(String, Option<String>) = &reads[i];
        proof {
            assert(rv[i as int] == (
                pair.0@,
                match pair.1 {
                    Option::Some(c) => Option::Some(c@),
                    Option::None => Option::<Seq<char>>::None,
                },
            ));
        }
        match &pair.1 {
            Option::Some(c) => {
                let ghost old_out = out@;
                out.push((pair.0.clone(), c.clone()));
                proof {
                    assert forall|k: int| 0 <= k < i + 1 implies #[trigger] files_view(out@)[k]
                        == contents_view(rv)[k] by {
                        if k < i {
                            assert(out@[k] == old_out[k]);
                            assert(files_view(old_out)[k] == contents_view(rv)[k]);
                        } else {
                            assert(out@[k].0@ == pair.0@ && out@[k].1@ == c@);
                        }
                    }
                }
            },
            Option::None => {
                proof {
                    lemma_first_failure_at(rv, i as int);
                }
                return Err(GrepError::FileReadError { path: pair.0.clone() });
            },
        }
        i += 1;
    }
    proof {
        assert(files_view(out@) =~= contents_view(rv));
    }
    Ok(out)
}

/// Searches a list of read results: the reads are first checked as
/// `collect_contents` describes, then the contents are searched as `grep`
/// describes. A failed read wins over an empty list being reported, and no
/// partial results accompany an error.
pub fn grep_reads(pattern: &str, flags: &Flags, reads: &[(String, Option<String>)]) -> (r: Result<
    Vec<String>,
    GrepError,
>)
    ensures
        r is Ok <==> (reads@.len() > 0 && all_readable(reads_view(reads@))),
        r is Ok ==> r->Ok_0.deep_view() == grep_spec(
            pattern@,
            *flags,
            contents_view(reads_view(reads@)),
            flags.file_name || reads@.len() > 1,
        ),
        !all_readable(reads_view(reads@)) ==> (r->Err_0 matches GrepError::FileReadError { path }
            && path@ == reads_view(reads@)[first_failure(reads_view(reads@))].0),
        reads@.len() == 0 ==> r->Err_0 is NoFilesSpecified,
{
    match collect_contents(reads) {
        Ok(files) => {
            proof {
                assert(files_view(files@).len() == contents_view(reads_view(reads@)).len());
            }
            grep(pattern, flags, files.as_slice())
        },
        Err(e) => Err(e),
    }
}

/// Returns the lines of `contents` that contain `pattern`, in order,
/// unmodified. This never fails; the `Result` mirrors the wider search
/// interface.
pub fn do_the_thing(contents: String, pattern: &str) -> (r: Result<Vec<String>, GrepError>)
    ensures
        r is Ok,
        r->Ok_0.deep_view() == matched_lines(spec_lines(contents@), pattern@, plain_flags()),
{
    let flags = Flags {
        line_number: false,
        case_insensitive: false,
        invert_match: false,
        entire_line: false,
        file_name: false,
    };
    let out = file_matches("", contents.as_str(), pattern, &flags, false);
    proof {
        lemma_plain_render(spec_lines(contents@), 1, ""@, pattern@, plain_flags());
    }
    Ok(out)
}

} // verus!
