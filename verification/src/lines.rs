//! Splitting file contents into lines on newline boundaries. A trailing
//! newline terminates the last line; it does not start an empty phantom line.

use vstd::prelude::*;

verus! {

/// Whether `s` holds a newline character.
pub open spec fn has_nl(s: Seq<char>) -> bool {
    exists|i: int| 0 <= i < s.len() && s[i] == '\n'
}

/// `s` split at every newline: one piece more than there are newlines, the
/// newline characters themselves dropped.
pub open spec fn split_on_nl(s: Seq<char>) -> Seq<Seq<char>>
    decreases s.len(),
{
    if s.len() == 0 {
        seq![Seq::<char>::empty()]
    } else if s[0] == '\n' {
        seq![Seq::<char>::empty()] + split_on_nl(s.drop_first())
    } else {
        let rest = split_on_nl(s.drop_first());
        seq![seq![s[0]] + rest[0]] + rest.drop_first()
    }
}

/// The lines of a text: the pieces between newlines, except that a final
/// newline closes the last line instead of opening an empty one, and the
/// empty text has no lines.
pub open spec fn spec_lines(s: Seq<char>) -> Seq<Seq<char>> {
    if s.len() == 0 {
        Seq::<Seq<char>>::empty()
    } else if s.last() == '\n' {
        split_on_nl(s.take(s.len() - 1))
    } else {
        split_on_nl(s)
    }
}

pub proof fn lemma_split_on_nl_len(s: Seq<char>)
    ensures
        split_on_nl(s).len() >= 1,
    decreases s.len(),
{
    if s.len() == 0 {
    } else {
        lemma_split_on_nl_len(s.drop_first());
    }
}

/// A text without newlines is one single line.
pub proof fn lemma_split_no_nl(s: Seq<char>)
    requires
        !has_nl(s),
    ensures
        split_on_nl(s) == seq![s],
    decreases s.len(),
{
    if s.len() == 0 {
        assert(s =~= Seq::<char>::empty());
        assert(split_on_nl(s) =~= seq![s]);
    } else {
        assert(s[0] != '\n');
        assert(!has_nl(s.drop_first())) by {
            if has_nl(s.drop_first()) {
                let i = choose|i: int|
                    0 <= i < s.drop_first().len() && s.drop_first()[i] == '\n';
                assert(s[i + 1] == '\n');
            }
        }
        lemma_split_no_nl(s.drop_first());
        assert(seq![s[0]] + s.drop_first() =~= s);
        assert(split_on_nl(s) =~= seq![s]);
    }
}

/// Splitting `a + '\n' + b` where `a` holds no newline gives `a` followed by
/// the split of `b`.
pub proof fn lemma_split_concat(a: Seq<char>, b: Seq<char>)
    requires
        !has_nl(a),
    ensures
        split_on_nl(a + seq!['\n'] + b) == seq![a] + split_on_nl(b),
    decreases a.len(),
{
    let s = a + seq!['\n'] + b;
    if a.len() == 0 {
        assert(s[0] == '\n');
        assert(s.drop_first() =~= b);
        assert(a =~= Seq::<char>::empty());
        assert(split_on_nl(s) =~= seq![a] + split_on_nl(b));
    } else {
        assert(s[0] == a[0]);
        assert(a[0] != '\n');
        assert(!has_nl(a.drop_first())) by {
            if has_nl(a.drop_first()) {
                let i = choose|i: int|
                    0 <= i < a.drop_first().len() && a.drop_first()[i] == '\n';
                assert(a[i + 1] == '\n');
            }
        }
        assert(s.drop_first() =~= a.drop_first() + seq!['\n'] + b);
        lemma_split_concat(a.drop_first(), b);
        let rest = split_on_nl(s.drop_first());
        assert(rest == seq![a.drop_first()] + split_on_nl(b));
        assert(rest[0] == a.drop_first());
        assert(seq![s[0]] + rest[0] =~= a);
        assert(rest.drop_first() =~= split_on_nl(b));
        assert(split_on_nl(s) =~= seq![a] + split_on_nl(b));
    }
}

/// Appending a newline appends one empty piece to the split.
pub proof fn lemma_split_trailing_nl(s: Seq<char>)
    ensures
        split_on_nl(s + seq!['\n']) == split_on_nl(s) + seq![Seq::<char>::empty()],
    decreases s.len(),
{
    let t = s + seq!['\n'];
    if s.len() == 0 {
        assert(t[0] == '\n');
        assert(t.drop_first() =~= Seq::<char>::empty());
        assert(split_on_nl(t.drop_first()) == seq![Seq::<char>::empty()]);
        assert(split_on_nl(t) =~= split_on_nl(s) + seq![Seq::<char>::empty()]);
    } else {
        assert(t[0] == s[0]);
        assert(t.drop_first() =~= s.drop_first() + seq!['\n']);
        lemma_split_trailing_nl(s.drop_first());
        let e = seq![Seq::<char>::empty()];
        let rs = split_on_nl(s.drop_first());
        let rt = split_on_nl(t.drop_first());
        assert(rt == rs + e);
        lemma_split_on_nl_len(s.drop_first());
        if s[0] == '\n' {
            assert(split_on_nl(t) == e + rt);
            assert(split_on_nl(s) == e + rs);
            assert(e + (rs + e) =~= (e + rs) + e);
            assert(split_on_nl(t) =~= split_on_nl(s) + e);
        } else {
            assert(rt[0] == rs[0]);
            assert(rt.drop_first() =~= rs.drop_first() + e);
            assert(split_on_nl(t) =~= split_on_nl(s) + e);
        }
    }
}

/// Splits `contents` into its lines, as `spec_lines` describes.
pub fn split_lines(contents: &str) -> (lines: Vec<String>)
    ensures
        lines.deep_view() == spec_lines(contents@),
{
    let n = contents.unicode_len();
    let mut lines: Vec<String> = Vec::new();
    let mut start: usize = 0;
    let mut i: usize = 0;
    proof {
        assert(lines.deep_view() =~= Seq::<Seq<char>>::empty());
        assert(contents@.skip(0) =~= contents@);
        assert(Seq::<Seq<char>>::empty() + split_on_nl(contents@) =~= split_on_nl(contents@));
    }
    while i < n
        invariant
            n == contents@.len(),
            start <= i <= n,
            start == 0 || contents@[start - 1] == '\n',
            !has_nl(contents@.subrange(start as int, i as int)),
            split_on_nl(contents@) == lines.deep_view() + split_on_nl(
                contents@.skip(start as int),
            ),
        decreases n - i,
    {
        let c = contents.get_char(i);
        if c == '\n' {
            let line = contents.substring_char(start, i);
            let ghost pre = contents@.subrange(start as int, i as int);
            let ghost old_deep = lines.deep_view();
            proof {
                assert(contents@.skip(start as int) =~= pre + seq!['\n'] + contents@.skip(
                    i as int + 1,
                ));
                lemma_split_concat(pre, contents@.skip(i as int + 1));
            }
            lines.push(String::from_str(line));
            proof {
                assert(lines.deep_view() =~= old_deep + seq![pre]);
                assert(old_deep + seq![pre] + split_on_nl(contents@.skip(i as int + 1)) =~= old_deep
                    + (seq![pre] + split_on_nl(contents@.skip(i as int + 1))));
            }
            start = i + 1;
        } else {
            proof {
                assert(contents@.subrange(start as int, i as int + 1) =~= contents@.subrange(
                    start as int,
                    i as int,
                ).push(c));
                assert(!has_nl(contents@.subrange(start as int, i as int + 1))) by {
                    let sub = contents@.subrange(start as int, i as int);
                    let ext = contents@.subrange(start as int, i as int + 1);
                    if has_nl(ext) {
                        let k = choose|k: int| 0 <= k < ext.len() && ext[k] == '\n';
                        if k < sub.len() {
                            assert(sub[k] == '\n');
                        } else {
                            assert(ext[k] == c);
                        }
                    }
                }
            }
        }
        i += 1;
    }
    let ghost rem = contents@.skip(start as int);
    proof {
        assert(rem =~= contents@.subrange(start as int, n as int));
        lemma_split_no_nl(rem);
    }
    if start < n {
        let line = contents.substring_char(start, n);
        let ghost old_deep = lines.deep_view();
        lines.push(String::from_str(line));
        proof {
            assert(lines.deep_view() =~= old_deep + seq![rem]);
            assert(contents@.last() == rem.last());
            assert(contents@.last() != '\n');
            assert(lines.deep_view() =~= spec_lines(contents@));
        }
    } else {
        proof {
            assert(rem =~= Seq::<char>::empty());
            if n == 0 {
                assert(split_on_nl(contents@).len() == lines.deep_view().len() + split_on_nl(
                    rem,
                ).len());
                assert(lines.deep_view().len() == 0);
                assert(lines.deep_view() =~= spec_lines(contents@));
            } else {
                assert(contents@[start - 1] == '\n');
                assert(contents@.last() == '\n');
                let body = contents@.take(n as int - 1);
                assert(contents@ =~= body + seq!['\n']);
                lemma_split_trailing_nl(body);
                let e = seq![Seq::<char>::empty()];
                assert(split_on_nl(contents@) == split_on_nl(body) + e);
                assert(split_on_nl(rem) =~= e);
                assert(lines.deep_view() + e == split_on_nl(body) + e);
                assert(lines.deep_view() =~= split_on_nl(body)) by {
                    let lhs = lines.deep_view();
                    let rhs = split_on_nl(body);
                    assert(lhs.len() == rhs.len());
                    assert forall|k: int| 0 <= k < lhs.len() implies lhs[k] == rhs[k] by {
                        assert((lhs + e)[k] == lhs[k]);
                        assert((rhs + e)[k] == rhs[k]);
                    }
                }
                assert(lines.deep_view() =~= spec_lines(contents@));
            }
        }
    }
    lines
}

} // verus!
