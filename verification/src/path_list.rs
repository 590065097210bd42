//! The intermediate path list: one path per line, newline-terminated, no
//! escaping — written after a walk, read back before hashing. Splitting what
//! was written recovers the paths, as long as no path contains a newline
//! (the format cannot carry one).

use vstd::prelude::*;
use vstd::string::StrSliceExecFns;
use crate::json::chars_to_string;
use crate::json::push_char;

verus! {

/// The text of a path list: each path followed by one newline.
pub open spec fn lines_text(paths: Seq<Seq<char>>) -> Seq<char>
    decreases paths.len(),
{
    if paths.len() == 0 {
        Seq::empty()
    } else {
        paths[0] + seq!['\n'] + lines_text(paths.drop_first())
    }
}

/// The position of the first newline, or -1 when there is none.
pub open spec fn find_nl(s: Seq<char>) -> int
    decreases s.len(),
{
    if s.len() == 0 {
        -1
    } else if s[0] == '\n' {
        0
    } else {
        let r = find_nl(s.drop_first());
        if r == -1 {
            -1
        } else {
            r + 1
        }
    }
}

/// The lines of a text: the segments between newlines, a final unterminated
/// segment kept only when it is not empty.
pub open spec fn split_lines(s: Seq<char>) -> Seq<Seq<char>>
    decreases s.len(),
    via split_lines_decreases
{
    if s.len() == 0 {
        Seq::empty()
    } else {
        let i = find_nl(s);
        if i == -1 {
            seq![s]
        } else {
            seq![s.subrange(0, i)] + split_lines(s.subrange(i + 1, s.len() as int))
        }
    }
}

#[via_fn]
proof fn split_lines_decreases(s: Seq<char>) {
    lemma_find_nl_bounds(s);
}

/// A path the format can carry: one without a newline.
pub open spec fn newline_free(p: Seq<char>) -> bool {
    forall|i: int| 0 <= i < p.len() ==> p[i] != '\n'
}

proof fn lemma_find_nl_bounds(s: Seq<char>)
    ensures
        find_nl(s) == -1 ==> newline_free(s),
        find_nl(s) != -1 ==> 0 <= find_nl(s) < s.len() && s[find_nl(s)] == '\n' && newline_free(
            s.subrange(0, find_nl(s)),
        ),
    decreases s.len(),
{
    if s.len() == 0 {
    } else if s[0] == '\n' {
        assert(s.subrange(0, 0) =~= Seq::<char>::empty());
    } else {
        lemma_find_nl_bounds(s.drop_first());
        let r = find_nl(s.drop_first());
        if r == -1 {
            assert forall|i: int| 0 <= i < s.len() implies s[i] != '\n' by {
                if i > 0 {
                    assert(s.drop_first()[i - 1] == s[i]);
                }
            }
        } else {
            assert(s[r + 1] == s.drop_first()[r]);
            let pre = s.subrange(0, r + 1);
            assert forall|i: int| 0 <= i < pre.len() implies pre[i] != '\n' by {
                if i > 0 {
                    assert(s.drop_first().subrange(0, r)[i - 1] == pre[i]);
                }
            }
        }
    }
}

proof fn lemma_find_nl_of_line(p: Seq<char>, t: Seq<char>)
    requires
        newline_free(p),
    ensures
        find_nl(p + seq!['\n'] + t) == p.len(),
    decreases p.len(),
{
    let s = p + seq!['\n'] + t;
    if p.len() == 0 {
        assert(s[0] == '\n');
    } else {
        assert(s[0] == p[0]);
        assert(s[0] != '\n');
        assert(s.drop_first() =~= p.drop_first() + seq!['\n'] + t);
        assert(newline_free(p.drop_first())) by {
            assert forall|i: int| 0 <= i < p.drop_first().len() implies p.drop_first()[i] != '\n' by {
                assert(p.drop_first()[i] == p[i + 1]);
            }
        }
        lemma_find_nl_of_line(p.drop_first(), t);
    }
}

proof fn lemma_split_step(line: Seq<char>, rest: Seq<char>)
    requires
        newline_free(line),
    ensures
        split_lines(line + seq!['\n'] + rest) == seq![line] + split_lines(rest),
{
    let s = line + seq!['\n'] + rest;
    lemma_find_nl_of_line(line, rest);
    assert(s.len() > 0);
    assert(s.subrange(0, line.len() as int) =~= line);
    assert(s.subrange(line.len() + 1 as int, s.len() as int) =~= rest);
}

/// Law (round trip): splitting the text of any list of newline-free paths
/// yields exactly those paths, in order.
pub proof fn lemma_split_of_lines(paths: Seq<Seq<char>>)
    requires
        forall|j: int| 0 <= j < paths.len() ==> newline_free(#[trigger] paths[j]),
    ensures
        split_lines(lines_text(paths)) == paths,
    decreases paths.len(),
{
    if paths.len() == 0 {
        assert(split_lines(lines_text(paths)) =~= paths);
    } else {
        lemma_split_step(paths[0], lines_text(paths.drop_first()));
        lemma_split_of_lines(paths.drop_first());
        assert(seq![paths[0]] + paths.drop_first() =~= paths);
    }
}

proof fn lemma_lines_push(paths: Seq<Seq<char>>, p: Seq<char>)
    ensures
        lines_text(paths.push(p)) == lines_text(paths) + p + seq!['\n'],
    decreases paths.len(),
{
    let q = paths.push(p);
    if paths.len() == 0 {
        assert(q.len() == 1);
        assert(q[0] == p);
        assert(q.drop_first() =~= Seq::<Seq<char>>::empty());
        assert(lines_text(q.drop_first()) =~= Seq::<char>::empty());
        assert(lines_text(q) == q[0] + seq!['\n'] + lines_text(q.drop_first()));
        assert(lines_text(q) =~= lines_text(paths) + p + seq!['\n']);
    } else {
        assert(q[0] == paths[0]);
        assert(q.drop_first() =~= paths.drop_first().push(p));
        lemma_lines_push(paths.drop_first(), p);
        assert(lines_text(q) == q[0] + seq!['\n'] + lines_text(q.drop_first()));
        assert(lines_text(paths) == paths[0] + seq!['\n'] + lines_text(paths.drop_first()));
        assert(lines_text(q) =~= lines_text(paths) + p + seq!['\n']);
    }
}

/// Render a path list as its newline-terminated text.
pub fn path_list_text(paths: &Vec<String>) -> (s: String)
    ensures
        s@ == lines_text(paths.deep_view()),
{
    let ghost paths_view = paths.deep_view();
    let mut out = String::new();
    let mut i: usize = 0;
    while i < paths.len()
        invariant
            i <= paths.len(),
            paths_view == paths.deep_view(),
            paths_view.len() == paths.len(),
            out@ == lines_text(paths_view.subrange(0, i as int)),
        decreases paths.len() - i,
    {
        let p = &paths[i];
        let n = p.as_str().unicode_len();
        let mut j: usize = 0;
        while j < n
            invariant
                j <= n,
                n == p@.len(),
                out@ == lines_text(paths_view.subrange(0, i as int)) + p@.subrange(0, j as int),
            decreases n - j,
        {
            push_char(&mut out, p.as_str().get_char(j));
            proof {
                assert(p@.subrange(0, j as int).push(p@[j as int]) =~= p@.subrange(0, j + 1 as int));
                assert(out@ =~= lines_text(paths_view.subrange(0, i as int)) + p@.subrange(
                    0,
                    j + 1 as int,
                ));
            }
            j += 1;
        }
        push_char(&mut out, '\n');
        proof {
            assert(p@.subrange(0, p@.len() as int) =~= p@);
            assert(paths_view.subrange(0, i as int).push(paths_view[i as int])
                =~= paths_view.subrange(0, i + 1 as int));
            assert(paths_view[i as int] == p@);
            lemma_lines_push(paths_view.subrange(0, i as int), p@);
            assert(out@ =~= lines_text(paths_view.subrange(0, i + 1 as int)));
        }
        i += 1;
    }
    proof {
        assert(paths_view.subrange(0, paths_view.len() as int) =~= paths_view);
    }
    out
}

/// Split a path-list text back into its paths.
pub fn split_path_list(text: &str) -> (r: Vec<String>)
    ensures
        r.deep_view() == split_lines(text@),
{
    let n = text.unicode_len();
    let mut r: Vec<String> = Vec::new();
    let mut acc: Vec<char> = Vec::new();
    let mut i: usize = 0;
    proof {
        assert(acc@ + text@.skip(0) =~= text@);
        assert(r.deep_view() =~= Seq::<Seq<char>>::empty());
        assert(r.deep_view() + split_lines(acc@ + text@.skip(0)) =~= split_lines(text@));
    }
    while i < n
        invariant
            i <= n,
            n == text@.len(),
            newline_free(acc@),
            split_lines(text@) == r.deep_view() + split_lines(acc@ + text@.skip(i as int)),
        decreases n - i,
    {
        let c = text.get_char(i);
        let ghost acc0 = acc@;
        let ghost r0 = r.deep_view();
        if c == '\n' {
            proof {
                assert(acc0 + text@.skip(i as int) =~= acc0 + seq!['\n'] + text@.skip(
                    i + 1 as int,
                ));
                lemma_split_step(acc0, text@.skip(i + 1 as int));
            }
            let line = chars_to_string(&acc);
            r.push(line);
            acc = Vec::new();
            proof {
                assert(r.deep_view() =~= r0 + seq![acc0]);
                assert(acc@ + text@.skip(i + 1 as int) =~= text@.skip(i + 1 as int));
                assert(r.deep_view() + split_lines(acc@ + text@.skip(i + 1 as int))
                    =~= r0 + (seq![acc0] + split_lines(text@.skip(i + 1 as int))));
            }
        } else {
            acc.push(c);
            proof {
                assert(acc@ + text@.skip(i + 1 as int) =~= acc0 + text@.skip(i as int));
                assert forall|k: int| 0 <= k < acc@.len() implies acc@[k] != '\n' by {
                    if k < acc0.len() {
                        assert(acc@[k] == acc0[k]);
                    } else {
                        assert(acc@[k] == c);
                    }
                }
            }
        }
        i += 1;
    }
    proof {
        assert(text@.skip(n as int) =~= Seq::<char>::empty());
        assert(acc@ + text@.skip(n as int) =~= acc@);
    }
    if acc.len() > 0 {
        let ghost r0 = r.deep_view();
        let ghost acc0 = acc@;
        proof {
            lemma_find_nl_bounds(acc0);
            if find_nl(acc0) != -1 {
                assert(acc0[find_nl(acc0)] == '\n');
                assert(false);
            }
            assert(split_lines(acc0) =~= seq![acc0]);
        }
        let line = chars_to_string(&acc);
        r.push(line);
        proof {
            assert(r.deep_view() =~= r0 + seq![acc0]);
            assert(r.deep_view() =~= split_lines(text@));
        }
    } else {
        proof {
            assert(acc@ =~= Seq::<char>::empty());
            assert(split_lines(acc@) =~= Seq::<Seq<char>>::empty());
            assert(r.deep_view() + split_lines(acc@) =~= r.deep_view());
        }
    }
    r
}

} // verus!
