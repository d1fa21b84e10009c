//! The line-transformation stages: non-printing notation, blank-line
//! squeezing, tab display, line numbering and end-of-line marking, each a
//! pure text-to-text transform with an exact contract, together with the
//! configuration type and the full pipeline in its mandated stage order.

use vstd::prelude::*;
use vstd::utf8::encode_scalar;
use vstd::utf8::encode_utf8;

use crate::encode::encoded_byte;
use crate::encode::process_byte;
use crate::lines::copy_line;
use crate::lines::join_lines;
use crate::lines::join_nl;
use crate::lines::lines_of;
use crate::lines::split_lines;
use crate::lines::views_of;
use crate::numfmt::dec_int;
use crate::numfmt::dec_int_width6;
use crate::numfmt::format_number;
use crate::numfmt::format_number_width6;
use crate::text::ascii_chars;
use crate::text::chars_of;
use crate::text::chars_of_bytes;
use crate::text::string_from_chars;
use crate::text::utf8_bytes_of_char;

verus! {

// ---------------------------------------------------------------------
// Stage: show_nonprinting
// ---------------------------------------------------------------------
/// Each byte of a byte sequence rewritten by the encoder, concatenated.
pub open spec fn encoded_bytes(bs: Seq<u8>) -> Seq<u8>
    decreases bs.len(),
{
    if bs.len() == 0 {
        Seq::empty()
    } else {
        encoded_byte(bs[0]) + encoded_bytes(bs.drop_first())
    }
}

/// One line under the non-printing stage: the line's UTF-8 bytes, each
/// rewritten by the encoder, read back as characters (the encoder only
/// ever emits 7-bit bytes).
pub open spec fn nonprinting_line(l: Seq<char>) -> Seq<char> {
    ascii_chars(encoded_bytes(encode_utf8(l)))
}

/// The non-printing stage applied to every line.
pub open spec fn nonprinting_lines_spec(ls: Seq<Seq<char>>) -> Seq<Seq<char>> {
    ls.map_values(|l: Seq<char>| nonprinting_line(l))
}

/// The non-printing stage applied to a whole text.
pub open spec fn nonprinting_text(s: Seq<char>) -> Seq<char> {
    join_nl(nonprinting_lines_spec(lines_of(s)))
}

/// The encoder distributes over concatenation of byte sequences.
pub proof fn lemma_encoded_bytes_concat(a: Seq<u8>, b: Seq<u8>)
    ensures
        encoded_bytes(a + b) == encoded_bytes(a) + encoded_bytes(b),
    decreases a.len(),
{
    if a.len() == 0 {
        assert(a + b =~= b);
        assert(encoded_bytes(a) + encoded_bytes(b) =~= encoded_bytes(b));
    } else {
        assert((a + b).drop_first() =~= a.drop_first() + b);
        lemma_encoded_bytes_concat(a.drop_first(), b);
        assert(encoded_bytes(a + b) =~= encoded_bytes(a) + encoded_bytes(b));
    }
}

/// Appending one character appends its encoded UTF-8 bytes.
pub proof fn lemma_encode_utf8_push(l: Seq<char>, c: char)
    ensures
        encode_utf8(l.push(c)) == encode_utf8(l) + encode_scalar(c as u32),
    decreases l.len(),
{
    if l.len() == 0 {
        assert(l.push(c)[0] == c);
        assert(l.push(c).drop_first() =~= Seq::<char>::empty());
        assert(encode_utf8(Seq::<char>::empty()) =~= Seq::<u8>::empty());
        assert(l =~= Seq::<char>::empty());
        assert(encode_utf8(l.push(c)) =~= encode_utf8(l) + encode_scalar(c as u32));
    } else {
        assert(l.push(c).drop_first() =~= l.drop_first().push(c));
        lemma_encode_utf8_push(l.drop_first(), c);
        assert(l.push(c)[0] == l[0]);
        assert(encode_utf8(l.push(c)) =~= encode_utf8(l) + encode_scalar(c as u32));
    }
}

/// The non-printing stage for one line.
fn nonprinting_line_chars(line: &Vec<char>) -> (r: Vec<char>)
    ensures
        r@ == nonprinting_line(line@),
{
    let mut bytes: Vec<u8> = Vec::new();
    let mut k: usize = 0;
    proof {
        assert(line@.take(0) =~= Seq::<char>::empty());
        assert(bytes@ =~= encoded_bytes(encode_utf8(line@.take(0))));
    }
    while k < line.len()
        invariant
            0 <= k <= line@.len(),
            bytes@ == encoded_bytes(encode_utf8(line@.take(k as int))),
        decreases line@.len() - k,
    {
        let c = line[k];
        let cb = utf8_bytes_of_char(c);
        let mut j: usize = 0;
        while j < cb.len()
            invariant
                0 <= j <= cb@.len(),
                k < line@.len(),
                c == line@[k as int],
                cb@ == encode_scalar(c as u32),
                bytes@ == encoded_bytes(encode_utf8(line@.take(k as int)) + cb@.take(
                    j as int,
                )),
            decreases cb@.len() - j,
        {
            let eb = process_byte(cb[j]);
            let ghost prev = bytes@;
            let ghost done = encode_utf8(line@.take(k as int)) + cb@.take(j as int);
            let mut t: usize = 0;
            while t < eb.len()
                invariant
                    0 <= t <= eb@.len(),
                    bytes@ == prev + eb@.take(t as int),
                decreases eb@.len() - t,
            {
                bytes.push(eb[t]);
                proof {
                    assert(bytes@ =~= prev + eb@.take(t as int + 1));
                }
                t = t + 1;
            }
            proof {
                assert(eb@.take(eb@.len() as int) =~= eb@);
                lemma_encoded_bytes_concat(done, seq![cb@[j as int]]);
                assert(done + seq![cb@[j as int]] =~= encode_utf8(line@.take(k as int))
                    + cb@.take(j as int + 1));
                assert(encoded_bytes(Seq::<u8>::empty()) =~= Seq::<u8>::empty());
                assert(seq![cb@[j as int]].drop_first() =~= Seq::<u8>::empty());
                assert(encoded_bytes(seq![cb@[j as int]]) =~= encoded_byte(cb@[j as int]));
                assert(bytes@ =~= encoded_bytes(
                    encode_utf8(line@.take(k as int)) + cb@.take(j as int + 1),
                ));
            }
            j = j + 1;
        }
        proof {
            assert(cb@.take(cb@.len() as int) =~= cb@);
            lemma_encode_utf8_push(line@.take(k as int), c);
            assert(line@.take(k as int).push(c) =~= line@.take(k as int + 1));
        }
        k = k + 1;
    }
    proof {
        assert(line@.take(line@.len() as int) =~= line@);
    }
    chars_of_bytes(&bytes)
}

/// Apply the non-printing stage to every line.
fn nonprinting_lines(ls: &Vec<Vec<char>>) -> (r: Vec<Vec<char>>)
    ensures
        views_of(r@) == nonprinting_lines_spec(views_of(ls@)),
{
    let mut out: Vec<Vec<char>> = Vec::new();
    let mut j: usize = 0;
    proof {
        assert(views_of(out@) =~= nonprinting_lines_spec(views_of(ls@)).take(0));
    }
    while j < ls.len()
        invariant
            0 <= j <= ls@.len(),
            views_of(out@) == nonprinting_lines_spec(views_of(ls@)).take(j as int),
        decreases ls@.len() - j,
    {
        let t = nonprinting_line_chars(&ls[j]);
        let ghost prev = out@;
        out.push(t);
        proof {
            assert(views_of(out@) =~= views_of(prev) + seq![t@]);
            assert(views_of(out@) =~= nonprinting_lines_spec(views_of(ls@)).take(
                j as int + 1,
            ));
        }
        j = j + 1;
    }
    proof {
        assert(nonprinting_lines_spec(views_of(ls@)).take(ls@.len() as int)
            =~= nonprinting_lines_spec(views_of(ls@)));
    }
    out
}

/// Rewrite every byte of every line of the text with the `^X` / `M-`
/// notation; tab and newline pass through untouched.
pub fn show_nonprinting_content_process(tmp_file_content: String) -> (r: String)
    ensures
        r@ == nonprinting_text(tmp_file_content@),
{
    let v = chars_of(tmp_file_content.as_str());
    let ls = split_lines(&v);
    let out = nonprinting_lines(&ls);
    let joined = join_lines(&out);
    string_from_chars(&joined)
}

// ---------------------------------------------------------------------
// Stage: show_tabs
// ---------------------------------------------------------------------
/// One character under the tab stage: a tab becomes `^I`, any other
/// character stands for itself.
pub open spec fn tab_expanded(c: char) -> Seq<char> {
    if c == '\t' {
        seq!['^', 'I']
    } else {
        seq![c]
    }
}

/// One line under the tab stage.
pub open spec fn tab_line(l: Seq<char>) -> Seq<char>
    decreases l.len(),
{
    if l.len() == 0 {
        Seq::empty()
    } else {
        tab_expanded(l[0]) + tab_line(l.drop_first())
    }
}

/// The tab stage applied to every line.
pub open spec fn tab_lines_spec(ls: Seq<Seq<char>>) -> Seq<Seq<char>> {
    ls.map_values(|l: Seq<char>| tab_line(l))
}

/// The tab stage applied to a whole text.
pub open spec fn tabs_text(s: Seq<char>) -> Seq<char> {
    join_nl(tab_lines_spec(lines_of(s)))
}

/// The tab stage distributes over concatenation within a line.
pub proof fn lemma_tab_line_concat(a: Seq<char>, b: Seq<char>)
    ensures
        tab_line(a + b) == tab_line(a) + tab_line(b),
    decreases a.len(),
{
    if a.len() == 0 {
        assert(a + b =~= b);
        assert(tab_line(a) + tab_line(b) =~= tab_line(b));
    } else {
        assert((a + b).drop_first() =~= a.drop_first() + b);
        lemma_tab_line_concat(a.drop_first(), b);
        assert(tab_line(a + b) =~= tab_line(a) + tab_line(b));
    }
}

/// The tab stage for one line.
fn tab_line_chars(line: &Vec<char>) -> (r: Vec<char>)
    ensures
        r@ == tab_line(line@),
{
    let mut r: Vec<char> = Vec::new();
    let mut k: usize = 0;
    proof {
        assert(line@.take(0) =~= Seq::<char>::empty());
        assert(r@ =~= tab_line(line@.take(0)));
    }
    while k < line.len()
        invariant
            0 <= k <= line@.len(),
            r@ == tab_line(line@.take(k as int)),
        decreases line@.len() - k,
    {
        let c = line[k];
        if c == '\t' {
            r.push('^');
            r.push('I');
        } else {
            r.push(c);
        }
        proof {
            lemma_tab_line_concat(line@.take(k as int), seq![c]);
            assert(seq![c].drop_first() =~= Seq::<char>::empty());
            assert(tab_line(Seq::<char>::empty()) =~= Seq::<char>::empty());
            assert(tab_line(seq![c]) =~= tab_expanded(c));
            assert(line@.take(k as int) + seq![c] =~= line@.take(k as int + 1));
            assert(r@ =~= tab_line(line@.take(k as int)) + tab_expanded(c));
        }
        k = k + 1;
    }
    proof {
        assert(line@.take(line@.len() as int) =~= line@);
    }
    r
}

/// Replace every tab of every line of the text with the two characters
/// `^I`.
pub fn show_tabs_content_process(tmp_file_content: String) -> (r: String)
    ensures
        r@ == tabs_text(tmp_file_content@),
{
    let v = chars_of(tmp_file_content.as_str());
    let ls = split_lines(&v);
    let mut out: Vec<Vec<char>> = Vec::new();
    let mut j: usize = 0;
    proof {
        assert(views_of(out@) =~= tab_lines_spec(views_of(ls@)).take(0));
    }
    while j < ls.len()
        invariant
            0 <= j <= ls@.len(),
            views_of(ls@) == lines_of(v@),
            views_of(out@) == tab_lines_spec(views_of(ls@)).take(j as int),
        decreases ls@.len() - j,
    {
        let t = tab_line_chars(&ls[j]);
        let ghost prev = out@;
        out.push(t);
        proof {
            assert(views_of(out@) =~= views_of(prev) + seq![t@]);
            assert(views_of(out@) =~= tab_lines_spec(views_of(ls@)).take(j as int + 1));
        }
        j = j + 1;
    }
    proof {
        assert(tab_lines_spec(views_of(ls@)).take(ls@.len() as int) =~= tab_lines_spec(
            views_of(ls@),
        ));
    }
    let joined = join_lines(&out);
    string_from_chars(&joined)
}

// ---------------------------------------------------------------------
// Stage: show_ends
// ---------------------------------------------------------------------
/// One line under the end-marking stage: a single `$` appended.
pub open spec fn ends_line(l: Seq<char>) -> Seq<char> {
    l + seq!['$']
}

/// The end-marking stage applied to every line.
pub open spec fn ends_lines_spec(ls: Seq<Seq<char>>) -> Seq<Seq<char>> {
    ls.map_values(|l: Seq<char>| ends_line(l))
}

/// The end-marking stage applied to a whole text.
pub open spec fn ends_text(s: Seq<char>) -> Seq<char> {
    join_nl(ends_lines_spec(lines_of(s)))
}

/// Append a `$` to every line of the text.
pub fn show_ends_content_process(tmp_file_content: String) -> (r: String)
    ensures
        r@ == ends_text(tmp_file_content@),
{
    let v = chars_of(tmp_file_content.as_str());
    let ls = split_lines(&v);
    let mut out: Vec<Vec<char>> = Vec::new();
    let mut j: usize = 0;
    proof {
        assert(views_of(out@) =~= ends_lines_spec(views_of(ls@)).take(0));
    }
    while j < ls.len()
        invariant
            0 <= j <= ls@.len(),
            views_of(ls@) == lines_of(v@),
            views_of(out@) == ends_lines_spec(views_of(ls@)).take(j as int),
        decreases ls@.len() - j,
    {
        let line = &ls[j];
        let mut t: Vec<char> = Vec::new();
        let mut k: usize = 0;
        while k < line.len()
            invariant
                0 <= k <= line@.len(),
                j < ls@.len(),
                line@ == ls@[j as int]@,
                t@ == line@.take(k as int),
            decreases line@.len() - k,
        {
            t.push(line[k]);
            proof {
                assert(t@ =~= line@.take(k as int + 1));
            }
            k = k + 1;
        }
        t.push('$');
        proof {
            assert(line@.take(line@.len() as int) =~= line@);
            assert(t@ =~= ends_line(line@));
        }
        let ghost prev = out@;
        out.push(t);
        proof {
            assert(views_of(out@) =~= views_of(prev) + seq![t@]);
            assert(views_of(out@) =~= ends_lines_spec(views_of(ls@)).take(j as int + 1));
        }
        j = j + 1;
    }
    proof {
        assert(ends_lines_spec(views_of(ls@)).take(ls@.len() as int) =~= ends_lines_spec(
            views_of(ls@),
        ));
    }
    let joined = join_lines(&out);
    string_from_chars(&joined)
}

// ---------------------------------------------------------------------
// Stage: squeeze_blank
// ---------------------------------------------------------------------
/// The squeeze stage over a sequence of lines: a run of consecutive empty
/// lines collapses to a single empty line; non-empty lines pass through
/// unchanged. `prev_blank` records whether the line just emitted was
/// empty.
pub open spec fn squeezed(ls: Seq<Seq<char>>, prev_blank: bool) -> Seq<Seq<char>>
    decreases ls.len(),
{
    if ls.len() == 0 {
        Seq::empty()
    } else if ls[0].len() == 0 {
        if prev_blank {
            squeezed(ls.drop_first(), true)
        } else {
            seq![ls[0]] + squeezed(ls.drop_first(), true)
        }
    } else {
        seq![ls[0]] + squeezed(ls.drop_first(), false)
    }
}

/// The squeeze stage applied to a whole text; the "previous line was
/// blank" state starts fresh on every call.
pub open spec fn squeeze_text(s: Seq<char>) -> Seq<char> {
    join_nl(squeezed(lines_of(s), false))
}

/// Collapse every run of consecutive empty lines of the text into a
/// single empty line.
pub fn squeeze_blank_content_process(tmp_file_content: String) -> (r: String)
    ensures
        r@ == squeeze_text(tmp_file_content@),
{
    let v = chars_of(tmp_file_content.as_str());
    let ls = split_lines(&v);
    let mut out: Vec<Vec<char>> = Vec::new();
    let mut was_blank: bool = false;
    let mut j: usize = 0;
    proof {
        assert(views_of(ls@).skip(0) =~= views_of(ls@));
        assert(views_of(out@) + squeezed(views_of(ls@), false) =~= squeezed(
            views_of(ls@),
            false,
        ));
    }
    while j < ls.len()
        invariant
            0 <= j <= ls@.len(),
            views_of(ls@) == lines_of(v@),
            squeezed(lines_of(v@), false) == views_of(out@) + squeezed(
                views_of(ls@).skip(j as int),
                was_blank,
            ),
        decreases ls@.len() - j,
    {
        let ghost suf = views_of(ls@).skip(j as int);
        proof {
            assert(suf[0] == ls@[j as int]@);
            assert(suf.drop_first() =~= views_of(ls@).skip(j as int + 1));
        }
        let line = &ls[j];
        if line.len() == 0 {
            if !was_blank {
                let t: Vec<char> = Vec::new();
                let ghost prev = out@;
                out.push(t);
                was_blank = true;
                proof {
                    assert(t@ =~= suf[0]);
                    assert(views_of(out@) =~= views_of(prev) + seq![suf[0]]);
                    assert(views_of(out@) + squeezed(suf.drop_first(), true) =~= squeezed(
                        lines_of(v@),
                        false,
                    ));
                }
            }
        } else {
            let t = copy_line(line);
            let ghost prev = out@;
            out.push(t);
            was_blank = false;
            proof {
                assert(t@ =~= suf[0]);
                assert(views_of(out@) =~= views_of(prev) + seq![suf[0]]);
                assert(views_of(out@) + squeezed(suf.drop_first(), false) =~= squeezed(
                    lines_of(v@),
                    false,
                ));
            }
        }
        j = j + 1;
    }
    proof {
        assert(views_of(ls@).skip(ls@.len() as int) =~= Seq::<Seq<char>>::empty());
        assert(views_of(out@) + squeezed(Seq::<Seq<char>>::empty(), was_blank) =~= views_of(
            out@,
        ));
    }
    let joined = join_lines(&out);
    string_from_chars(&joined)
}

// ---------------------------------------------------------------------
// Stage: numbering
// ---------------------------------------------------------------------
/// The counter actually used: a carried-in counter of 0 means "not yet
/// initialized" and starts the numbering at 1.
pub open spec fn start_counter(n: int) -> int {
    if n == 0 {
        1
    } else {
        n
    }
}

/// The numbering stage over a sequence of lines, starting at counter
/// `n`. Under nonblank-only numbering an empty line is emitted bare — no
/// number, no tab — and consumes no counter value; every other line is
/// prefixed with the width-6 counter field and a tab.
pub open spec fn numbered_lines(ls: Seq<Seq<char>>, n: int, nonblank: bool) -> Seq<Seq<char>>
    decreases ls.len(),
{
    if ls.len() == 0 {
        Seq::empty()
    } else if nonblank && ls[0].len() == 0 {
        seq![Seq::<char>::empty()] + numbered_lines(ls.drop_first(), n, nonblank)
    } else {
        seq![dec_int_width6(n) + seq!['\t'] + ls[0]] + numbered_lines(
            ls.drop_first(),
            n + 1,
            nonblank,
        )
    }
}

/// How many of the lines the numbering stage numbers.
pub open spec fn numbered_count(ls: Seq<Seq<char>>, nonblank: bool) -> int
    decreases ls.len(),
{
    if ls.len() == 0 {
        0int
    } else if nonblank && ls[0].len() == 0 {
        numbered_count(ls.drop_first(), nonblank)
    } else {
        1 + numbered_count(ls.drop_first(), nonblank)
    }
}

/// The numbering stage applied to a whole text.
pub open spec fn number_text(s: Seq<char>, n: int, nonblank: bool) -> Seq<char> {
    join_nl(numbered_lines(lines_of(s), start_counter(n), nonblank))
}

/// The counter value after numbering a whole text: the carried-in
/// counter, normalized, plus one for every line actually numbered.
pub open spec fn counter_after(s: Seq<char>, n: int, nonblank: bool) -> int {
    start_counter(n) + numbered_count(lines_of(s), nonblank)
}

/// The numbering stage numbers between none and all of the lines.
pub proof fn lemma_numbered_count_bounds(ls: Seq<Seq<char>>, nonblank: bool)
    ensures
        0 <= numbered_count(ls, nonblank) <= ls.len(),
    decreases ls.len(),
{
    if ls.len() > 0 {
        lemma_numbered_count_bounds(ls.drop_first(), nonblank);
    }
}

/// The numbering stage on a text given as its characters: the numbered
/// lines, and the counter value to carry into the next source.
fn number_core(line_number: i32, number_nonblank: bool, v: &Vec<char>) -> (r: (
    Vec<Vec<char>>,
    i32,
))
    requires
        start_counter(line_number as int) + numbered_count(lines_of(v@), number_nonblank)
            <= i32::MAX,
    ensures
        views_of(r.0@) == numbered_lines(
            lines_of(v@),
            start_counter(line_number as int),
            number_nonblank,
        ),
        r.1 as int == start_counter(line_number as int) + numbered_count(
            lines_of(v@),
            number_nonblank,
        ),
{
    let ghost start0 = start_counter(line_number as int);
    let mut n: i32 = line_number;
    if n == 0 {
        n = 1;
    }
    let ls = split_lines(v);
    let ghost all = views_of(ls@);
    let mut out: Vec<Vec<char>> = Vec::new();
    let mut j: usize = 0;
    proof {
        assert(all.skip(0) =~= all);
        assert(views_of(out@) + numbered_lines(all, start0, number_nonblank) =~= numbered_lines(
            all,
            start0,
            number_nonblank,
        ));
        lemma_numbered_count_bounds(all, number_nonblank);
    }
    while j < ls.len()
        invariant
            0 <= j <= ls@.len(),
            all == views_of(ls@),
            all == lines_of(v@),
            numbered_lines(all, start0, number_nonblank) == views_of(out@) + numbered_lines(
                all.skip(j as int),
                n as int,
                number_nonblank,
            ),
            start0 + numbered_count(all, number_nonblank) == n as int + numbered_count(
                all.skip(j as int),
                number_nonblank,
            ),
            start0 + numbered_count(all, number_nonblank) <= i32::MAX,
            start0 <= n as int,
            start0 == start_counter(line_number as int),
        decreases ls@.len() - j,
    {
        let ghost suf = all.skip(j as int);
        proof {
            assert(suf[0] == ls@[j as int]@);
            assert(suf.drop_first() =~= all.skip(j as int + 1));
            lemma_numbered_count_bounds(suf.drop_first(), number_nonblank);
            lemma_numbered_count_bounds(suf, number_nonblank);
        }
        let line = &ls[j];
        if number_nonblank && line.len() == 0 {
            let t: Vec<char> = Vec::new();
            let ghost prev = out@;
            out.push(t);
            proof {
                assert(t@ =~= Seq::<char>::empty());
                assert(views_of(out@) =~= views_of(prev) + seq![Seq::<char>::empty()]);
                assert(views_of(out@) + numbered_lines(
                    suf.drop_first(),
                    n as int,
                    number_nonblank,
                ) =~= numbered_lines(all, start0, number_nonblank));
            }
        } else {
            let mut t = format_number_width6(n);
            t.push('\t');
            let mut k: usize = 0;
            proof {
                assert(t@ =~= dec_int_width6(n as int) + seq!['\t']);
                assert(line@.take(0) =~= Seq::<char>::empty());
                assert(t@ + line@.take(0) =~= t@);
            }
            let ghost head = t@;
            while k < line.len()
                invariant
                    0 <= k <= line@.len(),
                    j < ls@.len(),
                    line@ == ls@[j as int]@,
                    t@ == head + line@.take(k as int),
                decreases line@.len() - k,
            {
                t.push(line[k]);
                proof {
                    assert(t@ =~= head + line@.take(k as int + 1));
                }
                k = k + 1;
            }
            let ghost prev = out@;
            out.push(t);
            proof {
                assert(line@.take(line@.len() as int) =~= line@);
                assert(t@ =~= dec_int_width6(n as int) + seq!['\t'] + suf[0]);
                assert(views_of(out@) =~= views_of(prev) + seq![t@]);
                assert(views_of(out@) + numbered_lines(
                    suf.drop_first(),
                    n as int + 1,
                    number_nonblank,
                ) =~= numbered_lines(all, start0, number_nonblank));
                assert(numbered_count(suf, number_nonblank) >= 1);
                assert(n as int + 1 <= i32::MAX);
            }
            n = n + 1;
        }
        j = j + 1;
    }
    proof {
        assert(all.skip(ls@.len() as int) =~= Seq::<Seq<char>>::empty());
        assert(views_of(out@) + numbered_lines(
            Seq::<Seq<char>>::empty(),
            n as int,
            number_nonblank,
        ) =~= views_of(out@));
        assert(n as int == start0 + numbered_count(all, number_nonblank));
    }
    (out, n)
}

/// Number the lines of the text, starting from the carried-in counter
/// (0 meaning "start at 1"). Returns a pair of strings: the rendered
/// text, and the decimal rendering of the counter value to carry into
/// the next source.
pub fn number_content_process(
    line_number: i32,
    number_nonblank: bool,
    tmp_file_content: String,
) -> (r: Vec<String>)
    requires
        start_counter(line_number as int) + numbered_count(
            lines_of(tmp_file_content@),
            number_nonblank,
        ) <= i32::MAX,
    ensures
        r@.len() == 2,
        r@[0]@ == number_text(tmp_file_content@, line_number as int, number_nonblank),
        r@[1]@ == dec_int(counter_after(tmp_file_content@, line_number as int, number_nonblank)),
{
    let v = chars_of(tmp_file_content.as_str());
    let numbered = number_core(line_number, number_nonblank, &v);
    let joined = join_lines(&numbered.0);
    let rendered = string_from_chars(&joined);
    let tail = format_number(numbered.1);
    let counter_string = string_from_chars(&tail);
    let mut r: Vec<String> = Vec::new();
    r.push(rendered);
    r.push(counter_string);
    r
}

// ---------------------------------------------------------------------
// The full pipeline
// ---------------------------------------------------------------------
/// The enabled-filter set, after composite-flag expansion. Built once
/// per run and immutable while a source is processed.
#[derive(Clone, Copy, PartialEq, Eq, Structural, Debug)]
pub struct PipelineConfig {
    pub show_nonprinting: bool,
    pub squeeze_blank: bool,
    pub show_tabs: bool,
    pub number_all: bool,
    pub number_nonblank: bool,
    pub show_ends: bool,
}

impl PipelineConfig {
    /// True when some numbering stage runs; nonblank-only numbering
    /// overrides plain numbering when both are requested.
    pub open spec fn numbering_active(self) -> bool {
        self.number_all || self.number_nonblank
    }

    /// Build the enabled-filter set from the flag surface, expanding the
    /// composite flags once: show-all activates nonprinting, ends and
    /// tabs; the `-e` equivalent activates nonprinting and ends; the
    /// `-t` equivalent activates nonprinting and tabs. The unbuffered
    /// flag is accepted and has no effect on rendering.
    pub fn from_flags(
        show_all: bool,
        number_nonblank: bool,
        e: bool,
        show_ends: bool,
        number: bool,
        squeeze_blank: bool,
        t: bool,
        show_tabs: bool,
        unbuffered: bool,
        show_nonprinting: bool,
    ) -> (cfg: PipelineConfig)
        ensures
            cfg.show_nonprinting == (show_nonprinting || show_all || e || t),
            cfg.show_ends == (show_ends || show_all || e),
            cfg.show_tabs == (show_tabs || show_all || t),
            cfg.squeeze_blank == squeeze_blank,
            cfg.number_all == number,
            cfg.number_nonblank == number_nonblank,
    {
        let _ = unbuffered;
        PipelineConfig {
            show_nonprinting: show_nonprinting || show_all || e || t,
            squeeze_blank,
            show_tabs: show_tabs || show_all || t,
            number_all: number,
            number_nonblank,
            show_ends: show_ends || show_all || e,
        }
    }
}

/// The text after the stages that precede numbering, in the mandated
/// order: non-printing notation, then blank-line squeezing, then tab
/// display.
pub open spec fn pre_number_text(cfg: PipelineConfig, s: Seq<char>) -> Seq<char> {
    let s1 = if cfg.show_nonprinting {
        nonprinting_text(s)
    } else {
        s
    };
    let s2 = if cfg.squeeze_blank {
        squeeze_text(s1)
    } else {
        s1
    };
    if cfg.show_tabs {
        tabs_text(s2)
    } else {
        s2
    }
}

/// The fully rendered text: the pre-numbering stages, then numbering,
/// then end-of-line marking, each applied only when enabled.
pub open spec fn rendered_text(cfg: PipelineConfig, n: int, s: Seq<char>) -> Seq<char> {
    let s3 = pre_number_text(cfg, s);
    let s4 = if cfg.numbering_active() {
        number_text(s3, n, cfg.number_nonblank)
    } else {
        s3
    };
    if cfg.show_ends {
        ends_text(s4)
    } else {
        s4
    }
}

/// The numbering counter after rendering: advanced by one per numbered
/// line when numbering is active, untouched otherwise.
pub open spec fn render_counter(cfg: PipelineConfig, n: int, s: Seq<char>) -> int {
    if cfg.numbering_active() {
        counter_after(pre_number_text(cfg, s), n, cfg.number_nonblank)
    } else {
        n
    }
}

/// How many lines the numbering stage would number.
fn count_numbered(ls: &Vec<Vec<char>>, nonblank: bool) -> (c: usize)
    ensures
        c as int == numbered_count(views_of(ls@), nonblank),
{
    let ghost all = views_of(ls@);
    let mut c: usize = 0;
    let mut j: usize = 0;
    proof {
        assert(all.skip(0) =~= all);
        lemma_numbered_count_bounds(all, nonblank);
    }
    while j < ls.len()
        invariant
            0 <= j <= ls@.len(),
            all == views_of(ls@),
            c <= j,
            numbered_count(all, nonblank) == c as int + numbered_count(
                all.skip(j as int),
                nonblank,
            ),
        decreases ls@.len() - j,
    {
        let ghost suf = all.skip(j as int);
        proof {
            assert(suf[0] == ls@[j as int]@);
            assert(suf.drop_first() =~= all.skip(j as int + 1));
        }
        if !(nonblank && ls[j].len() == 0) {
            c = c + 1;
        }
        j = j + 1;
    }
    proof {
        assert(all.skip(ls@.len() as int) =~= Seq::<Seq<char>>::empty());
    }
    c
}

/// Render one block of text under the configuration, threading the
/// numbering counter: applies the enabled stages in the mandated order
/// and returns the rendered text with the updated counter.
pub fn render(cfg: &PipelineConfig, line_number: i32, text: String) -> (res: (String, i32))
    requires
        cfg.numbering_active() ==> start_counter(line_number as int) + numbered_count(
            lines_of(pre_number_text(*cfg, text@)),
            cfg.number_nonblank,
        ) <= i32::MAX,
    ensures
        res.0@ == rendered_text(*cfg, line_number as int, text@),
        res.1 as int == render_counter(*cfg, line_number as int, text@),
{
    let mut cur = text;
    if cfg.show_nonprinting {
        cur = show_nonprinting_content_process(cur);
    }
    if cfg.squeeze_blank {
        cur = squeeze_blank_content_process(cur);
    }
    if cfg.show_tabs {
        cur = show_tabs_content_process(cur);
    }
    let mut counter = line_number;
    if cfg.number_all || cfg.number_nonblank {
        let v = chars_of(cur.as_str());
        let numbered = number_core(counter, cfg.number_nonblank, &v);
        let joined = join_lines(&numbered.0);
        cur = string_from_chars(&joined);
        counter = numbered.1;
    }
    if cfg.show_ends {
        cur = show_ends_content_process(cur);
    }
    (cur, counter)
}

/// Like `render`, but tests the counter-overflow bound at run time
/// instead of requiring it: `None` exactly when numbering is active and
/// the counter would run past the largest representable value.
pub fn render_checked(cfg: &PipelineConfig, line_number: i32, text: String) -> (res: Option<
    (String, i32),
>)
    ensures
        match res {
            Some(p) => {
                &&& cfg.numbering_active() ==> start_counter(line_number as int)
                    + numbered_count(
                    lines_of(pre_number_text(*cfg, text@)),
                    cfg.number_nonblank,
                ) <= i32::MAX
                &&& p.0@ == rendered_text(*cfg, line_number as int, text@)
                &&& p.1 as int == render_counter(*cfg, line_number as int, text@)
            },
            None => cfg.numbering_active() && start_counter(line_number as int)
                + numbered_count(
                lines_of(pre_number_text(*cfg, text@)),
                cfg.number_nonblank,
            ) > i32::MAX,
        },
{
    let mut cur = text;
    if cfg.show_nonprinting {
        cur = show_nonprinting_content_process(cur);
    }
    if cfg.squeeze_blank {
        cur = squeeze_blank_content_process(cur);
    }
    if cfg.show_tabs {
        cur = show_tabs_content_process(cur);
    }
    let mut counter = line_number;
    if cfg.number_all || cfg.number_nonblank {
        let v = chars_of(cur.as_str());
        let ls = split_lines(&v);
        let cnt = count_numbered(&ls, cfg.number_nonblank);
        let start: i32 = if counter == 0 {
            1
        } else {
            counter
        };
        if cnt as u64 >= 8589934592u64 {
            return None;
        }
        if (start as i64) + (cnt as i64) > (i32::MAX as i64) {
            return None;
        }
        let numbered = number_core(counter, cfg.number_nonblank, &v);
        let joined = join_lines(&numbered.0);
        cur = string_from_chars(&joined);
        counter = numbered.1;
    }
    if cfg.show_ends {
        cur = show_ends_content_process(cur);
    }
    Some((cur, counter))
}

} // verus!
