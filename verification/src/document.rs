//! A buffer as file contents: lines joined by `'\n'`, and text split back
//! into lines.
use vstd::prelude::*;

use crate::helpers::lines_of;

verus! {

/// The lines of `s`: the pieces between its `'\n'` chars (one empty line for
/// empty text).
pub open spec fn split_lines(s: Seq<char>) -> Seq<Seq<char>>
    decreases s.len(),
{
    if s.len() == 0 {
        seq![Seq::empty()]
    } else {
        let p = split_lines(s.drop_last());
        if s.last() == '\n' {
            p.push(Seq::empty())
        } else {
            p.update(p.len() - 1, p.last().push(s.last()))
        }
    }
}

/// The lines `ls` written one after the other with `'\n'` between them.
pub open spec fn join_lines(ls: Seq<Seq<char>>) -> Seq<char>
    decreases ls.len(),
{
    if ls.len() == 0 {
        Seq::empty()
    } else if ls.len() == 1 {
        ls[0]
    } else {
        join_lines(ls.drop_last()) + seq!['\n'] + ls.last()
    }
}

/// `s` with each `"\r\n"`, and then each remaining `'\r'`, turned into `'\n'`.
pub open spec fn normalize(s: Seq<char>) -> Seq<char>
    decreases s.len(),
{
    if s.len() == 0 {
        Seq::empty()
    } else if s.last() == '\n' && s.len() >= 2 && s[s.len() - 2] == '\r' {
        normalize(s.drop_last().drop_last()).push('\n')
    } else if s.last() == '\r' {
        normalize(s.drop_last()).push('\n')
    } else {
        normalize(s.drop_last()).push(s.last())
    }
}

/// `s` holds no line break.
pub open spec fn no_newline(s: Seq<char>) -> bool {
    forall|i: int| 0 <= i < s.len() ==> s[i] != '\n'
}

pub proof fn lemma_split_nonempty(s: Seq<char>)
    ensures
        split_lines(s).len() >= 1,
    decreases s.len(),
{
    if s.len() > 0 {
        lemma_split_nonempty(s.drop_last());
    }
}

/// Appending text with no line break extends the last line.
proof fn lemma_split_append(a: Seq<char>, b: Seq<char>)
    requires
        no_newline(b),
    ensures
        split_lines(a + b) == split_lines(a).update(
            split_lines(a).len() - 1,
            split_lines(a).last() + b,
        ),
    decreases b.len(),
{
    lemma_split_nonempty(a);
    if b.len() == 0 {
        assert(a + b =~= a);
        assert(split_lines(a).last() + b =~= split_lines(a).last());
        assert(split_lines(a).update(split_lines(a).len() - 1, split_lines(a).last())
            =~= split_lines(a));
    } else {
        let b0 = b.drop_last();
        assert((a + b).drop_last() =~= a + b0);
        lemma_split_append(a, b0);
        assert(split_lines(a).last() + b =~= (split_lines(a).last() + b0).push(b.last()));
        assert(split_lines(a + b) =~= split_lines(a).update(
            split_lines(a).len() - 1,
            split_lines(a).last() + b,
        ));
    }
}

/// Splitting joined lines gives the lines back, when none holds a line break.
pub proof fn law_split_join(ls: Seq<Seq<char>>)
    requires
        ls.len() >= 1,
        forall|i: int| 0 <= i < ls.len() ==> no_newline(#[trigger] ls[i]),
    ensures
        split_lines(join_lines(ls)) == ls,
    decreases ls.len(),
{
    if ls.len() == 1 {
        assert(Seq::<char>::empty() + ls[0] =~= ls[0]);
        lemma_split_append(Seq::empty(), ls[0]);
        assert(split_lines(Seq::<char>::empty()).last() + ls[0] =~= ls[0]);
        assert(split_lines(join_lines(ls)) =~= ls);
    } else {
        let init = ls.drop_last();
        law_split_join(init);
        let j = join_lines(init) + seq!['\n'];
        assert(j.drop_last() =~= join_lines(init));
        assert(split_lines(j) == ls.drop_last().push(Seq::<char>::empty()));
        lemma_split_append(j, ls.last());
        assert(Seq::<char>::empty() + ls.last() =~= ls.last());
        assert(split_lines(join_lines(ls)) =~= ls);
    }
}

/// Joining the lines of a text gives the text back.
pub proof fn law_join_split(s: Seq<char>)
    ensures
        join_lines(split_lines(s)) == s,
    decreases s.len(),
{
    lemma_split_nonempty(s);
    if s.len() == 0 {
    } else {
        let init = s.drop_last();
        law_join_split(init);
        lemma_split_nonempty(init);
        let p = split_lines(init);
        if s.last() == '\n' {
            let q = p.push(Seq::<char>::empty());
            assert(q.drop_last() =~= p);
            assert(join_lines(q) =~= s);
        } else {
            let q = p.update(p.len() - 1, p.last().push(s.last()));
            if p.len() == 1 {
                assert(join_lines(q) =~= s);
            } else {
                assert(q.drop_last() =~= p.drop_last());
                assert(join_lines(p) == join_lines(p.drop_last()) + seq!['\n'] + p.last());
                assert(join_lines(q) == join_lines(p.drop_last()) + seq!['\n'] + q.last());
                assert(s =~= join_lines(p).push(s.last()));
                assert(join_lines(q) =~= s);
            }
        }
    }
}

/// `s` with Windows and old Mac line breaks turned into `'\n'`.
pub fn normalize_newlines(s: &str) -> (r: String)
    ensures
        r@ == normalize(s@),
{
    let n = s.unicode_len();
    let mut out = String::new();
    let mut it = s.chars();
    let mut i: usize = 0;
    let mut prev_cr = false;
    while i < n
        invariant
            n == s@.len(),
            i <= n,
            vstd::std_specs::iter::IteratorSpec::remaining(&it) == s@.skip(i as int),
            out@ == normalize(s@.take(i as int)),
            prev_cr == (i > 0 && s@[i - 1] == '\r'),
        decreases n - i,
    {
        proof {
            assert(s@.skip(i as int).len() > 0);
        }
        let c = match it.next() {
            Some(c) => c,
            None => {
                proof {
                    assert(false);
                }
                ' '
            },
        };
        proof {
            assert(c == s@[i as int]);
            assert(vstd::std_specs::iter::IteratorSpec::remaining(&it) =~= s@.skip(i + 1));
            let p = s@.take(i + 1);
            assert(p.drop_last() =~= s@.take(i as int));
            if i > 0 {
                assert(p.drop_last().drop_last() =~= s@.take(i - 1));
                assert(s@.take(i as int).drop_last() =~= s@.take(i - 1));
            }
        }
        if c == '\n' && prev_cr {
        } else if c == '\r' {
            crate::text::push_char(&mut out, '\n');
        } else {
            crate::text::push_char(&mut out, c);
        }
        prev_cr = c == '\r';
        i = i + 1;
    }
    proof {
        assert(s@.take(n as int) =~= s@);
    }
    out
}

/// The lines of `s`, split at each `'\n'`.
pub fn split_text(s: &str) -> (lines: Vec<String>)
    ensures
        lines_of(lines@) == split_lines(s@),
{
    let n = s.unicode_len();
    let mut done: Vec<String> = Vec::new();
    let mut cur = String::new();
    let mut it = s.chars();
    let mut i: usize = 0;
    proof {
        assert(s@.take(0) =~= Seq::<char>::empty());
        assert(lines_of(done@).push(cur@) =~= split_lines(Seq::<char>::empty()));
    }
    while i < n
        invariant
            n == s@.len(),
            i <= n,
            vstd::std_specs::iter::IteratorSpec::remaining(&it) == s@.skip(i as int),
            lines_of(done@).push(cur@) == split_lines(s@.take(i as int)),
        decreases n - i,
    {
        proof {
            assert(s@.skip(i as int).len() > 0);
        }
        let c = match it.next() {
            Some(c) => c,
            None => {
                proof {
                    assert(false);
                }
                ' '
            },
        };
        let ghost before = lines_of(done@).push(cur@);
        proof {
            assert(c == s@[i as int]);
            assert(vstd::std_specs::iter::IteratorSpec::remaining(&it) =~= s@.skip(i + 1));
            assert(s@.take(i + 1).drop_last() =~= s@.take(i as int));
        }
        if c == '\n' {
            let mut line = String::new();
            std::mem::swap(&mut line, &mut cur);
            done.push(line);
            proof {
                assert(lines_of(done@).push(cur@) =~= before.push(Seq::<char>::empty()));
            }
        } else {
            crate::text::push_char(&mut cur, c);
            proof {
                assert(lines_of(done@).push(cur@) =~= before.update(
                    before.len() - 1,
                    before.last().push(c),
                ));
            }
        }
        i = i + 1;
    }
    done.push(cur);
    proof {
        assert(s@.take(n as int) =~= s@);
    }
    done
}

/// The lines of `lines` joined with `'\n'`: what saving writes.
pub fn join_text(lines: &Vec<String>) -> (s: String)
    ensures
        s@ == join_lines(lines_of(lines@)),
{
    let mut out = String::new();
    let mut i: usize = 0;
    while i < lines.len()
        invariant
            i <= lines@.len(),
            out@ == join_lines(lines_of(lines@).take(i as int)),
        decreases lines@.len() - i,
    {
        let ghost ls = lines_of(lines@).take(i + 1);
        proof {
            assert(ls.drop_last() =~= lines_of(lines@).take(i as int));
        }
        if i > 0 {
            crate::text::push_char(&mut out, '\n');
        }
        crate::text::push_text(&mut out, lines[i].as_str());
        proof {
            if i == 0 {
                assert(out@ =~= join_lines(ls));
            } else {
                assert(out@ =~= join_lines(ls));
            }
        }
        i = i + 1;
    }
    proof {
        assert(lines_of(lines@).take(lines@.len() as int) =~= lines_of(lines@));
    }
    out
}

/// Putting `a` before the first line puts it before the joined text.
pub proof fn lemma_join_prefix(ls: Seq<Seq<char>>, a: Seq<char>)
    requires
        ls.len() >= 1,
    ensures
        join_lines(ls.update(0, a + ls[0])) == a + join_lines(ls),
    decreases ls.len(),
{
    let m = ls.update(0, a + ls[0]);
    if ls.len() == 1 {
    } else {
        lemma_join_prefix(ls.drop_last(), a);
        assert(m.drop_last() =~= ls.drop_last().update(0, a + ls[0]));
        assert(join_lines(m) =~= a + join_lines(ls));
    }
}

/// Putting `b` after the last line puts it after the joined text.
pub proof fn lemma_join_suffix(ls: Seq<Seq<char>>, b: Seq<char>)
    requires
        ls.len() >= 1,
    ensures
        join_lines(ls.update(ls.len() - 1, ls.last() + b)) == join_lines(ls) + b,
{
    let m = ls.update(ls.len() - 1, ls.last() + b);
    if ls.len() == 1 {
    } else {
        assert(m.drop_last() =~= ls.drop_last());
        assert(join_lines(m) =~= join_lines(ls) + b);
    }
}
} // verus!
