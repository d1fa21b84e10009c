//! Lines as the pipeline sees them: a line is a maximal run of characters
//! not containing a newline. Splitting follows the convention that a
//! trailing newline closes the last line rather than opening an empty one,
//! and joining re-appends one newline per line.

use vstd::prelude::*;

verus! {

/// True when the sequence contains no newline character.
pub open spec fn no_newline(l: Seq<char>) -> bool {
    forall|i: int| 0 <= i < l.len() ==> (#[trigger] l[i]) != '\n'
}

/// True when every line of the sequence of lines is newline-free.
pub open spec fn all_no_newline(ls: Seq<Seq<char>>) -> bool {
    forall|j: int| 0 <= j < ls.len() ==> no_newline(#[trigger] ls[j])
}

/// The lines of a text: split at each newline, with the final segment
/// dropped when the text ends in a newline (so `"a\n"` and `"a"` both
/// have the single line `"a"`, and `""` has no lines at all).
pub open spec fn lines_of(s: Seq<char>) -> Seq<Seq<char>>
    decreases s.len(),
{
    if s.len() == 0 {
        Seq::empty()
    } else if s[0] == '\n' {
        seq![Seq::<char>::empty()] + lines_of(s.drop_first())
    } else {
        let rest = lines_of(s.drop_first());
        if rest.len() == 0 {
            seq![seq![s[0]]]
        } else {
            seq![seq![s[0]] + rest[0]] + rest.drop_first()
        }
    }
}

/// Reassemble lines into a text, appending one newline after each line.
pub open spec fn join_nl(ls: Seq<Seq<char>>) -> Seq<char>
    decreases ls.len(),
{
    if ls.len() == 0 {
        Seq::empty()
    } else {
        ls[0] + seq!['\n'] + join_nl(ls.drop_first())
    }
}

/// Splitting a text that starts with a newline-free segment closed by a
/// newline yields that segment as its first line.
pub proof fn lemma_lines_of_prefix(x: Seq<char>, t: Seq<char>)
    requires
        no_newline(x),
    ensures
        lines_of(x + seq!['\n'] + t) == seq![x] + lines_of(t),
    decreases x.len(),
{
    let s = x + seq!['\n'] + t;
    if x.len() == 0 {
        assert(s =~= seq!['\n'] + t);
        assert(s.drop_first() =~= t);
        assert(x =~= Seq::<char>::empty());
        assert(lines_of(s) =~= seq![x] + lines_of(t));
    } else {
        assert(s[0] == x[0]);
        assert(s.drop_first() =~= x.drop_first() + seq!['\n'] + t);
        lemma_lines_of_prefix(x.drop_first(), t);
        let rest = lines_of(s.drop_first());
        assert(rest == seq![x.drop_first()] + lines_of(t));
        assert(rest.len() > 0);
        assert(seq![s[0]] + rest[0] =~= x);
        assert(rest.drop_first() =~= lines_of(t));
        assert(lines_of(s) =~= seq![x] + lines_of(t));
    }
}

/// A newline-free text is a single line when nonempty, and has no lines
/// when empty.
pub proof fn lemma_lines_of_no_newline(x: Seq<char>)
    requires
        no_newline(x),
    ensures
        lines_of(x) == if x.len() == 0 { Seq::<Seq<char>>::empty() } else { seq![x] },
    decreases x.len(),
{
    if x.len() > 0 {
        lemma_lines_of_no_newline(x.drop_first());
        let rest = lines_of(x.drop_first());
        if rest.len() == 0 {
            assert(x.drop_first().len() == 0);
            assert(seq![x[0]] =~= x);
            assert(lines_of(x) =~= seq![x]);
        } else {
            assert(seq![x[0]] + rest[0] =~= x);
            assert(lines_of(x) =~= seq![x]);
        }
    }
}

/// Every line produced by `lines_of` is newline-free.
pub proof fn lemma_lines_of_no_newline_each(s: Seq<char>)
    ensures
        all_no_newline(lines_of(s)),
    decreases s.len(),
{
    if s.len() == 0 {
    } else if s[0] == '\n' {
        lemma_lines_of_no_newline_each(s.drop_first());
        let ls = lines_of(s);
        let rest = lines_of(s.drop_first());
        assert forall|j: int| 0 <= j < ls.len() implies no_newline(#[trigger] ls[j]) by {
            if j > 0 {
                assert(ls[j] == rest[j - 1]);
            }
        }
    } else {
        lemma_lines_of_no_newline_each(s.drop_first());
        let ls = lines_of(s);
        let rest = lines_of(s.drop_first());
        if rest.len() == 0 {
            assert(ls[0] =~= seq![s[0]]);
        } else {
            assert forall|j: int| 0 <= j < ls.len() implies no_newline(#[trigger] ls[j]) by {
                if j == 0 {
                    assert(ls[0] == seq![s[0]] + rest[0]);
                    assert(no_newline(rest[0]));
                    assert(forall|i: int|
                        0 <= i < ls[0].len() ==> (#[trigger] ls[0][i]) != '\n');
                } else {
                    assert(ls[j] == rest.drop_first()[j - 1]);
                    assert(rest.drop_first()[j - 1] == rest[j]);
                }
            }
        }
    }
}

/// Joining distributes over concatenation of line sequences.
pub proof fn lemma_join_nl_concat(a: Seq<Seq<char>>, b: Seq<Seq<char>>)
    ensures
        join_nl(a + b) == join_nl(a) + join_nl(b),
    decreases a.len(),
{
    if a.len() == 0 {
        assert(a + b =~= b);
        assert(join_nl(a) + join_nl(b) =~= join_nl(b));
    } else {
        assert((a + b).drop_first() =~= a.drop_first() + b);
        lemma_join_nl_concat(a.drop_first(), b);
        assert(join_nl(a + b) =~= join_nl(a) + join_nl(b));
    }
}

/// Splitting undoes joining: for newline-free lines, the lines of the
/// joined text are exactly the lines joined.
pub proof fn lemma_lines_of_join_nl(ls: Seq<Seq<char>>)
    requires
        all_no_newline(ls),
    ensures
        lines_of(join_nl(ls)) == ls,
    decreases ls.len(),
{
    if ls.len() == 0 {
    } else {
        lemma_lines_of_prefix(ls[0], join_nl(ls.drop_first()));
        lemma_lines_of_join_nl(ls.drop_first());
        assert(lines_of(join_nl(ls)) =~= ls);
    }
}

/// The view of a vector of line vectors, as a sequence of lines.
pub open spec fn views_of(ls: Seq<Vec<char>>) -> Seq<Seq<char>> {
    ls.map_values(|l: Vec<char>| l@)
}

/// Split a text, given as its characters, into its lines.
pub fn split_lines(v: &Vec<char>) -> (r: Vec<Vec<char>>)
    ensures
        views_of(r@) == lines_of(v@),
{
    let mut out: Vec<Vec<char>> = Vec::new();
    let mut cur: Vec<char> = Vec::new();
    let mut i: usize = 0;
    proof {
        assert(cur@ + v@.skip(0) =~= v@);
        assert(views_of(out@) + lines_of(v@) =~= lines_of(v@));
    }
    while i < v.len()
        invariant
            0 <= i <= v.len(),
            no_newline(cur@),
            lines_of(v@) == views_of(out@) + lines_of(cur@ + v@.skip(i as int)),
        decreases v.len() - i,
    {
        let c = v[i];
        if c == '\n' {
            proof {
                assert(cur@ + v@.skip(i as int) =~= cur@ + seq!['\n'] + v@.skip(i as int + 1));
                lemma_lines_of_prefix(cur@, v@.skip(i as int + 1));
            }
            let finished = cur;
            cur = Vec::new();
            let ghost prev = out@;
            out.push(finished);
            proof {
                assert(views_of(out@) =~= views_of(prev) + seq![finished@]);
                assert(cur@ + v@.skip(i as int + 1) =~= v@.skip(i as int + 1));
                assert(views_of(out@) + lines_of(cur@ + v@.skip(i as int + 1)) =~= lines_of(
                    v@,
                ));
            }
        } else {
            let ghost prev = cur@;
            cur.push(c);
            proof {
                assert(cur@ =~= prev + seq![c]);
                assert(cur@ + v@.skip(i as int + 1) =~= prev + v@.skip(i as int));
                assert(no_newline(cur@));
            }
        }
        i = i + 1;
    }
    proof {
        assert(cur@ + v@.skip(v@.len() as int) =~= cur@);
        lemma_lines_of_no_newline(cur@);
    }
    if cur.len() > 0 {
        let last = cur;
        let ghost prev = out@;
        out.push(last);
        proof {
            assert(views_of(out@) =~= views_of(prev) + seq![last@]);
            assert(views_of(out@) =~= lines_of(v@));
        }
    } else {
        proof {
            assert(views_of(out@) =~= lines_of(v@));
        }
    }
    out
}

/// Copy one line character for character.
pub fn copy_line(l: &Vec<char>) -> (r: Vec<char>)
    ensures
        r@ == l@,
{
    let mut r: Vec<char> = Vec::new();
    let mut k: usize = 0;
    while k < l.len()
        invariant
            0 <= k <= l@.len(),
            r@ == l@.take(k as int),
        decreases l@.len() - k,
    {
        r.push(l[k]);
        proof {
            assert(r@ =~= l@.take(k as int + 1));
        }
        k = k + 1;
    }
    proof {
        assert(l@.take(l@.len() as int) =~= l@);
    }
    r
}

/// Join lines back into a text, appending one newline per line.
pub fn join_lines(ls: &Vec<Vec<char>>) -> (r: Vec<char>)
    ensures
        r@ == join_nl(views_of(ls@)),
{
    let mut r: Vec<char> = Vec::new();
    let mut j: usize = 0;
    while j < ls.len()
        invariant
            0 <= j <= ls.len(),
            r@ == join_nl(views_of(ls@).take(j as int)),
        decreases ls.len() - j,
    {
        let line = &ls[j];
        let mut k: usize = 0;
        while k < line.len()
            invariant
                0 <= k <= line.len(),
                j < ls.len(),
                line@ == ls@[j as int]@,
                r@ == join_nl(views_of(ls@).take(j as int)) + line@.take(k as int),
            decreases line.len() - k,
        {
            r.push(line[k]);
            proof {
                assert(line@.take(k as int) + seq![line@[k as int]] =~= line@.take(
                    k as int + 1,
                ));
                assert(r@ =~= join_nl(views_of(ls@).take(j as int)) + line@.take(k as int + 1));
            }
            k = k + 1;
        }
        r.push('\n');
        proof {
            let vs = views_of(ls@);
            assert(line@.take(line@.len() as int) =~= line@);
            assert(vs.take(j as int + 1) =~= vs.take(j as int) + seq![vs[j as int]]);
            lemma_join_nl_concat(vs.take(j as int), seq![vs[j as int]]);
            assert(seq![vs[j as int]].drop_first() =~= Seq::<Seq<char>>::empty());
            assert(join_nl(Seq::<Seq<char>>::empty()) =~= Seq::<char>::empty());
            assert(vs[j as int] + seq!['\n'] + Seq::<char>::empty() =~= vs[j as int]
                + seq!['\n']);
            assert(join_nl(seq![vs[j as int]]) =~= vs[j as int] + seq!['\n']);
            assert(r@ =~= join_nl(vs.take(j as int + 1)));
        }
        j = j + 1;
    }
    proof {
        assert(views_of(ls@).take(ls@.len() as int) =~= views_of(ls@));
    }
    r
}

} // verus!
