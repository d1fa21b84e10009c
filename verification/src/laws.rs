//! Laws of the transformation stages: collapse and idempotence of
//! blank-line squeezing, preservation of non-blank lines, the shape of
//! numbered output, and the single end-of-line marker.

use vstd::prelude::*;

use crate::lines::all_no_newline;
use crate::lines::lemma_lines_of_join_nl;
use crate::lines::lemma_lines_of_no_newline_each;
use crate::lines::lines_of;
use crate::lines::no_newline;
use crate::numfmt::dec_int_width6;
use crate::numfmt::lemma_dec_int_width6_no_newline;
use crate::pipeline::ends_line;
use crate::pipeline::ends_lines_spec;
use crate::pipeline::ends_text;
use crate::pipeline::number_text;
use crate::pipeline::numbered_count;
use crate::pipeline::numbered_lines;
use crate::pipeline::squeeze_text;
use crate::pipeline::squeezed;
use crate::pipeline::start_counter;

verus! {

// ---------------------------------------------------------------------
// Squeeze-blank laws
// ---------------------------------------------------------------------
/// A run of empty lines.
pub open spec fn blank_run(n: nat) -> Seq<Seq<char>> {
    Seq::new(n, |i: int| Seq::<char>::empty())
}

/// After an emitted blank, a further run of empty lines is absorbed
/// entirely.
pub proof fn lemma_squeezed_blanks_absorbed(m: nat, rest: Seq<Seq<char>>)
    ensures
        squeezed(blank_run(m) + rest, true) == squeezed(rest, true),
    decreases m,
{
    if m == 0 {
        assert(blank_run(0) + rest =~= rest);
    } else {
        let s = blank_run(m) + rest;
        assert(s.len() > 0);
        assert(s[0] == blank_run(m)[0]);
        assert(s[0].len() == 0);
        assert(s.drop_first() =~= blank_run((m - 1) as nat) + rest);
        lemma_squeezed_blanks_absorbed((m - 1) as nat, rest);
    }
}

/// A leading run of one or more empty lines collapses to exactly one
/// empty line, whatever follows.
pub proof fn lemma_squeeze_blank_run(k: nat, rest: Seq<Seq<char>>)
    requires
        k >= 1,
    ensures
        squeezed(blank_run(k) + rest, false) == seq![Seq::<char>::empty()] + squeezed(
            rest,
            true,
        ),
{
    let s = blank_run(k) + rest;
    assert(s[0] == blank_run(k)[0]);
    assert(s[0].len() == 0);
    assert(s[0] =~= Seq::<char>::empty());
    assert(s.drop_first() =~= blank_run((k - 1) as nat) + rest);
    lemma_squeezed_blanks_absorbed((k - 1) as nat, rest);
    assert(squeezed(s, false) =~= seq![Seq::<char>::empty()] + squeezed(rest, true));
}

/// No two consecutive lines of the sequence are both empty.
pub open spec fn no_consecutive_blanks(ls: Seq<Seq<char>>) -> bool {
    forall|i: int|
        0 <= i && i + 1 < ls.len() ==> !((#[trigger] ls[i]).len() == 0 && ls[i + 1].len() == 0)
}

/// What squeezing guarantees of its output: no two consecutive empty
/// lines remain, and after an emitted blank the output cannot open with
/// another one.
pub proof fn lemma_squeezed_wellformed(ls: Seq<Seq<char>>, prev_blank: bool)
    ensures
        no_consecutive_blanks(squeezed(ls, prev_blank)),
        prev_blank ==> (squeezed(ls, prev_blank).len() == 0 || squeezed(ls, prev_blank)[0].len()
            > 0),
    decreases ls.len(),
{
    if ls.len() == 0 {
    } else {
        let rest = ls.drop_first();
        lemma_squeezed_wellformed(rest, true);
        lemma_squeezed_wellformed(rest, false);
        let r = squeezed(ls, prev_blank);
        if ls[0].len() == 0 {
            if prev_blank {
            } else {
                let tail = squeezed(rest, true);
                assert(r == seq![ls[0]] + tail);
                assert forall|i: int|
                    0 <= i && i + 1 < r.len() implies !((#[trigger] r[i]).len() == 0 && r[i
                    + 1].len() == 0) by {
                    if i == 0 {
                        assert(r[1] == tail[0]);
                    } else {
                        assert(r[i] == tail[i - 1] && r[i + 1] == tail[i]);
                    }
                }
            }
        } else {
            let tail = squeezed(rest, false);
            assert(r == seq![ls[0]] + tail);
            assert forall|i: int|
                0 <= i && i + 1 < r.len() implies !((#[trigger] r[i]).len() == 0 && r[i + 1].len()
                == 0) by {
                if i == 0 {
                } else {
                    assert(r[i] == tail[i - 1] && r[i + 1] == tail[i]);
                }
            }
        }
    }
}

/// Squeezing a sequence that already has no consecutive empty lines
/// (and, after an emitted blank, does not open with one) changes
/// nothing.
pub proof fn lemma_squeezed_identity(ls: Seq<Seq<char>>, prev_blank: bool)
    requires
        no_consecutive_blanks(ls),
        prev_blank ==> (ls.len() == 0 || ls[0].len() > 0),
    ensures
        squeezed(ls, prev_blank) == ls,
    decreases ls.len(),
{
    if ls.len() == 0 {
        assert(squeezed(ls, prev_blank) =~= ls);
    } else {
        let rest = ls.drop_first();
        assert forall|i: int|
            0 <= i && i + 1 < rest.len() implies !((#[trigger] rest[i]).len() == 0 && rest[i
            + 1].len() == 0) by {
            assert(rest[i] == ls[i + 1] && rest[i + 1] == ls[i + 2]);
        }
        if ls[0].len() == 0 {
            assert(rest.len() == 0 || rest[0].len() > 0);
            lemma_squeezed_identity(rest, true);
            assert(squeezed(ls, prev_blank) =~= ls);
        } else {
            lemma_squeezed_identity(rest, false);
            assert(squeezed(ls, prev_blank) =~= ls);
        }
    }
}

/// Every line of a squeezed sequence was a line of the input, so
/// newline-freedom carries over.
pub proof fn lemma_squeezed_no_newline(ls: Seq<Seq<char>>, prev_blank: bool)
    requires
        all_no_newline(ls),
    ensures
        all_no_newline(squeezed(ls, prev_blank)),
    decreases ls.len(),
{
    if ls.len() == 0 {
    } else {
        let rest = ls.drop_first();
        assert(forall|j: int| 0 <= j < rest.len() ==> rest[j] == ls[j + 1]);
        lemma_squeezed_no_newline(rest, true);
        lemma_squeezed_no_newline(rest, false);
        let r = squeezed(ls, prev_blank);
        if ls[0].len() == 0 && prev_blank {
        } else {
            let tail = if ls[0].len() == 0 {
                squeezed(rest, true)
            } else {
                squeezed(rest, false)
            };
            assert(r == seq![ls[0]] + tail);
            assert forall|j: int| 0 <= j < r.len() implies no_newline(#[trigger] r[j]) by {
                if j == 0 {
                    assert(r[0] == ls[0]);
                } else {
                    assert(r[j] == tail[j - 1]);
                }
            }
        }
    }
}

/// Squeezing is idempotent: applying the squeeze stage to its own
/// output changes nothing.
pub proof fn lemma_squeeze_idempotent(s: Seq<char>)
    ensures
        squeeze_text(squeeze_text(s)) == squeeze_text(s),
{
    let ls = lines_of(s);
    let sq = squeezed(ls, false);
    lemma_lines_of_no_newline_each(s);
    lemma_squeezed_no_newline(ls, false);
    lemma_lines_of_join_nl(sq);
    lemma_squeezed_wellformed(ls, false);
    lemma_squeezed_identity(sq, false);
}

/// The non-blank lines of a sequence, in order.
pub open spec fn nonblank_lines(ls: Seq<Seq<char>>) -> Seq<Seq<char>>
    decreases ls.len(),
{
    if ls.len() == 0 {
        Seq::empty()
    } else if ls[0].len() > 0 {
        seq![ls[0]] + nonblank_lines(ls.drop_first())
    } else {
        nonblank_lines(ls.drop_first())
    }
}

/// Squeezing never merges, drops or reorders a non-blank line: the
/// non-blank lines of the output are exactly those of the input.
pub proof fn lemma_squeeze_keeps_nonblank(ls: Seq<Seq<char>>, prev_blank: bool)
    ensures
        nonblank_lines(squeezed(ls, prev_blank)) == nonblank_lines(ls),
    decreases ls.len(),
{
    if ls.len() == 0 {
    } else {
        let rest = ls.drop_first();
        lemma_squeeze_keeps_nonblank(rest, true);
        lemma_squeeze_keeps_nonblank(rest, false);
        if ls[0].len() == 0 {
            if prev_blank {
            } else {
                let r = seq![ls[0]] + squeezed(rest, true);
                assert(r[0].len() == 0);
                assert(r.drop_first() =~= squeezed(rest, true));
                assert(nonblank_lines(r) =~= nonblank_lines(ls));
            }
        } else {
            let r = seq![ls[0]] + squeezed(rest, false);
            assert(r[0] == ls[0]);
            assert(r.drop_first() =~= squeezed(rest, false));
            assert(nonblank_lines(r) =~= nonblank_lines(ls));
        }
    }
}

// ---------------------------------------------------------------------
// Numbering laws
// ---------------------------------------------------------------------
/// Numbering emits exactly one output line per input line.
pub proof fn lemma_numbered_lines_len(ls: Seq<Seq<char>>, n: int, nonblank: bool)
    ensures
        numbered_lines(ls, n, nonblank).len() == ls.len(),
    decreases ls.len(),
{
    if ls.len() > 0 {
        lemma_numbered_lines_len(ls.drop_first(), n, nonblank);
        lemma_numbered_lines_len(ls.drop_first(), n + 1, nonblank);
    }
}

/// The shape of every numbered output line: under nonblank-only
/// numbering an empty input line comes out bare and consumes no counter
/// value; any other line carries the field `n` plus the number of lines
/// numbered before it — so the emitted numbers increase by exactly one
/// per numbered line, starting at the carried-in counter.
pub proof fn lemma_numbered_lines_at(ls: Seq<Seq<char>>, n: int, nonblank: bool, i: int)
    requires
        0 <= i < ls.len(),
    ensures
        numbered_lines(ls, n, nonblank).len() == ls.len(),
        numbered_lines(ls, n, nonblank)[i] == if nonblank && ls[i].len() == 0 {
            Seq::<char>::empty()
        } else {
            dec_int_width6(n + numbered_count(ls.take(i), nonblank)) + seq!['\t'] + ls[i]
        },
    decreases i,
{
    lemma_numbered_lines_len(ls, n, nonblank);
    let first_numbered: int = if nonblank && ls[0].len() == 0 {
        0
    } else {
        1
    };
    if i == 0 {
        assert(ls.take(0) =~= Seq::<Seq<char>>::empty());
        assert(numbered_count(ls.take(0), nonblank) == 0);
    } else {
        let rest = ls.drop_first();
        lemma_numbered_lines_at(rest, n + first_numbered, nonblank, i - 1);
        assert(numbered_lines(ls, n, nonblank)[i] == numbered_lines(
            rest,
            n + first_numbered,
            nonblank,
        )[i - 1]);
        assert(rest[i - 1] == ls[i]);
        assert(ls.take(i)[0] == ls[0]);
        assert(ls.take(i).drop_first() =~= rest.take(i - 1));
        assert(numbered_count(ls.take(i), nonblank) == first_numbered + numbered_count(
            rest.take(i - 1),
            nonblank,
        ));
    }
}

/// Numbered output lines stay newline-free when the input lines are.
pub proof fn lemma_numbered_lines_no_newline(ls: Seq<Seq<char>>, n: int, nonblank: bool)
    requires
        all_no_newline(ls),
    ensures
        all_no_newline(numbered_lines(ls, n, nonblank)),
    decreases ls.len(),
{
    if ls.len() == 0 {
    } else {
        let rest = ls.drop_first();
        assert(forall|j: int| 0 <= j < rest.len() ==> rest[j] == ls[j + 1]);
        lemma_numbered_lines_no_newline(rest, n, nonblank);
        lemma_numbered_lines_no_newline(rest, n + 1, nonblank);
        let r = numbered_lines(ls, n, nonblank);
        if nonblank && ls[0].len() == 0 {
            let tail = numbered_lines(rest, n, nonblank);
            assert(r == seq![Seq::<char>::empty()] + tail);
            assert forall|j: int| 0 <= j < r.len() implies no_newline(#[trigger] r[j]) by {
                if j > 0 {
                    assert(r[j] == tail[j - 1]);
                }
            }
        } else {
            let head = dec_int_width6(n) + seq!['\t'] + ls[0];
            let tail = numbered_lines(rest, n + 1, nonblank);
            assert(r == seq![head] + tail);
            lemma_dec_int_width6_no_newline(n);
            assert('\t' != '\n');
            assert(no_newline(head)) by {
                assert(forall|t: int|
                    0 <= t < head.len() ==> (#[trigger] head[t]) == if t < dec_int_width6(
                        n,
                    ).len() {
                        dec_int_width6(n)[t]
                    } else if t == dec_int_width6(n).len() {
                        '\t'
                    } else {
                        ls[0][t - dec_int_width6(n).len() - 1]
                    });
            }
            assert forall|j: int| 0 <= j < r.len() implies no_newline(#[trigger] r[j]) by {
                if j == 0 {
                    assert(r[0] == head);
                } else {
                    assert(r[j] == tail[j - 1]);
                }
            }
        }
    }
}

/// At the text level, numbering preserves the line count: the rendered
/// text has exactly one line per input line, and those lines are the
/// numbered lines.
pub proof fn lemma_number_text_lines(s: Seq<char>, n: int, nonblank: bool)
    ensures
        lines_of(number_text(s, n, nonblank)) == numbered_lines(
            lines_of(s),
            start_counter(n),
            nonblank,
        ),
        lines_of(number_text(s, n, nonblank)).len() == lines_of(s).len(),
{
    let ls = lines_of(s);
    lemma_lines_of_no_newline_each(s);
    lemma_numbered_lines_no_newline(ls, start_counter(n), nonblank);
    lemma_lines_of_join_nl(numbered_lines(ls, start_counter(n), nonblank));
    lemma_numbered_lines_len(ls, start_counter(n), nonblank);
}

// ---------------------------------------------------------------------
// Show-ends law
// ---------------------------------------------------------------------
/// The end-marking stage appends exactly one `$` to each input line:
/// the rendered text has the same lines, each extended by a single `$`
/// — never doubled, whatever stages ran before.
pub proof fn lemma_ends_text_lines(s: Seq<char>)
    ensures
        lines_of(ends_text(s)) == ends_lines_spec(lines_of(s)),
        lines_of(ends_text(s)).len() == lines_of(s).len(),
        forall|i: int|
            0 <= i < lines_of(s).len() ==> lines_of(ends_text(s))[i] == (#[trigger] lines_of(
                s,
            )[i]) + seq!['$'],
{
    let ls = lines_of(s);
    lemma_lines_of_no_newline_each(s);
    assert(all_no_newline(ends_lines_spec(ls))) by {
        assert forall|j: int|
            0 <= j < ends_lines_spec(ls).len() implies no_newline(
            #[trigger] ends_lines_spec(ls)[j],
        ) by {
            assert(ends_lines_spec(ls)[j] == ends_line(ls[j]));
            assert(no_newline(ls[j]));
            assert('$' != '\n');
            assert(forall|t: int|
                0 <= t < ends_line(ls[j]).len() ==> (#[trigger] ends_line(ls[j])[t]) == if t
                    < ls[j].len() {
                    ls[j][t]
                } else {
                    '$'
                });
        }
    }
    lemma_lines_of_join_nl(ends_lines_spec(ls));
}

} // verus!
