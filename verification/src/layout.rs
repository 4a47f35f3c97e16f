//! Side-by-side composition of the logo block and the info block: splitting
//! fetched strings into single display lines, measuring the logo column, and
//! padding each row so the info text always starts at the same column.

use vstd::prelude::*;
use crate::markup::{visible_width, lemma_visible_width_le_len};
use crate::text::{chars_of, string_from_chars};

verus! {

/// Position of the first newline in `s`, or `s.len()` if there is none.
pub open spec fn first_nl(s: Seq<char>) -> int
    decreases s.len(),
{
    if s.len() == 0 {
        0
    } else if s[0] == '\n' {
        0
    } else {
        1 + first_nl(s.drop_first())
    }
}

proof fn lemma_first_nl(s: Seq<char>)
    ensures
        0 <= first_nl(s) <= s.len(),
        first_nl(s) < s.len() ==> s[first_nl(s)] == '\n',
        forall|j: int| 0 <= j < first_nl(s) ==> s[j] != '\n',
    decreases s.len(),
{
    if s.len() == 0 {
    } else if s[0] == '\n' {
    } else {
        lemma_first_nl(s.drop_first());
        assert forall|j: int| 0 <= j < first_nl(s) implies s[j] != '\n' by {
            if j > 0 {
                assert(s[j] == s.drop_first()[j - 1]);
            }
        }
    }
}

/// The pieces of `s` between its newlines, in order: every newline ends a
/// piece, and the text after the last newline is a final piece (possibly
/// empty, when `s` is empty or ends with a newline).
pub open spec fn raw_split(s: Seq<char>) -> Seq<Seq<char>>
    decreases s.len(),
{
    let k = first_nl(s);
    if !(0 <= k < s.len()) {
        seq![s]
    } else {
        seq![s.take(k)] + raw_split(s.skip(k + 1))
    }
}

proof fn lemma_raw_split_len(s: Seq<char>)
    ensures
        raw_split(s).len() >= 1,
    decreases s.len(),
{
    let k = first_nl(s);
    lemma_first_nl(s);
    if !(0 <= k < s.len()) {
    } else {
        lemma_raw_split_len(s.skip(k + 1));
    }
}

/// A piece with one trailing carriage return removed, as a piece ended by a
/// newline reads once the line ending `\r\n` is recognized.
pub open spec fn strip_cr(t: Seq<char>) -> Seq<char> {
    if t.len() > 0 && t.last() == '\r' {
        t.drop_last()
    } else {
        t
    }
}

/// The display lines of one raw string, as the terminal will show them: the
/// string is cut at every newline, `\r\n` endings lose their carriage
/// return, and an empty final piece (an empty string, or one ending in a
/// newline) yields no line of its own.
pub open spec fn lines_spec(s: Seq<char>) -> Seq<Seq<char>> {
    let p = raw_split(s);
    let body = p.take(p.len() - 1).map_values(|t: Seq<char>| strip_cr(t));
    if p.last().len() == 0 {
        body
    } else {
        body + seq![p.last()]
    }
}

proof fn lemma_raw_split_step_char(s: Seq<char>)
    requires
        s.len() > 0,
        s[0] != '\n',
    ensures
        raw_split(s) == seq![seq![s[0]] + raw_split(s.drop_first())[0]] + raw_split(
            s.drop_first(),
        ).skip(1),
{
    let d = s.drop_first();
    let k = first_nl(s);
    lemma_first_nl(s);
    lemma_first_nl(d);
    lemma_raw_split_len(d);
    assert(k == 1 + first_nl(d));
    if !(0 <= k < s.len()) {
        assert(first_nl(d) >= d.len());
        assert(raw_split(d) == seq![d]);
        assert(raw_split(s) == seq![s]);
        assert(seq![s[0]] + d =~= s);
        assert(raw_split(s) =~= seq![seq![s[0]] + raw_split(d)[0]] + raw_split(d).skip(1));
    } else {
        let kd = first_nl(d);
        assert(raw_split(d) == seq![d.take(kd)] + raw_split(d.skip(kd + 1)));
        assert(raw_split(s) == seq![s.take(k)] + raw_split(s.skip(k + 1)));
        assert(s.skip(k + 1) =~= d.skip(kd + 1));
        assert(s.take(k) =~= seq![s[0]] + d.take(kd));
        assert(raw_split(d).skip(1) =~= raw_split(d.skip(kd + 1)));
        assert(raw_split(s) =~= seq![seq![s[0]] + raw_split(d)[0]] + raw_split(d).skip(1));
    }
}

/// A buffer of pending characters joined onto the front of the first piece.
spec fn prepend_piece(b: Seq<char>, r: Seq<Seq<char>>) -> Seq<Seq<char>> {
    if r.len() == 0 {
        r
    } else {
        seq![b + r[0]] + r.skip(1)
    }
}

/// Cuts `s` into its display lines: one `String` per line shown on the
/// terminal, newlines and `\r\n` endings removed.
pub fn split_lines(s: &str) -> (r: Vec<String>)
    ensures
        r@.map_values(|t: String| t@) == lines_spec(s@),
{
    let ghost sv = s@;
    let n = s.unicode_len();
    let mut out: Vec<String> = Vec::new();
    let mut buf: Vec<char> = Vec::new();
    let ghost mut gdone: Seq<Seq<char>> = Seq::empty();
    let mut i: usize = 0;
    proof {
        assert(sv.skip(0) =~= sv);
        lemma_raw_split_len(sv);
        assert(prepend_piece(buf@, raw_split(sv)) =~~= raw_split(sv));
    }
    while i < n
        invariant
            sv == s@,
            n == sv.len(),
            i <= n,
            raw_split(sv) =~~= gdone + prepend_piece(buf@, raw_split(sv.skip(i as int))),
            out@.map_values(|t: String| t@) == gdone.map_values(|t: Seq<char>| strip_cr(t)),
        decreases n - i,
    {
        let ghost rest = sv.skip(i as int);
        proof {
            lemma_raw_split_len(rest);
            assert(rest.drop_first() =~= sv.skip(i + 1));
        }
        let c = s.get_char(i);
        if c == '\n' {
            proof {
                assert(rest[0] == '\n');
                assert(first_nl(rest) == 0);
                assert(raw_split(rest) == seq![rest.take(0)] + raw_split(rest.skip(1)));
                assert(rest.skip(1) =~= sv.skip(i + 1));
            }
            let ghost old_buf = buf@;
            let ghost old_done = gdone;
            let mut line = buf;
            if line.len() > 0 {
                let lastc = line[line.len() - 1];
                if lastc == '\r' {
                    line.pop();
                }
            }
            proof {
                assert(line@ == strip_cr(old_buf));
            }
            let t = string_from_chars(&line);
            let ghost old_out = out@;
            out.push(t);
            buf = Vec::new();
            proof {
                gdone = old_done.push(old_buf);
                lemma_raw_split_len(sv.skip(i + 1));
                assert(prepend_piece(old_buf, raw_split(rest)) =~~= seq![old_buf] + raw_split(
                    sv.skip(i + 1),
                ));
                assert(prepend_piece(buf@, raw_split(sv.skip(i + 1))) =~~= raw_split(
                    sv.skip(i + 1),
                ));
                assert(gdone + prepend_piece(buf@, raw_split(sv.skip(i + 1))) =~~= old_done + (
                seq![old_buf] + raw_split(sv.skip(i + 1))));
                assert(out@.map_values(|t: String| t@) =~~= old_out.map_values(|t: String| t@)
                    + seq![strip_cr(old_buf)]);
                assert(gdone.map_values(|t: Seq<char>| strip_cr(t)) =~~= old_done.map_values(
                    |t: Seq<char>| strip_cr(t),
                ) + seq![strip_cr(old_buf)]);
            }
        } else {
            proof {
                lemma_raw_split_step_char(rest);
                lemma_raw_split_len(sv.skip(i + 1));
                assert(prepend_piece(buf@, raw_split(rest)) =~~= prepend_piece(
                    buf@.push(c),
                    raw_split(sv.skip(i + 1)),
                )) by {
                    let r1 = raw_split(sv.skip(i + 1));
                    assert(raw_split(rest) == seq![seq![c] + r1[0]] + r1.skip(1));
                    assert(buf@ + (seq![c] + r1[0]) =~= buf@.push(c) + r1[0]);
                }
            }
            buf.push(c);
        }
        i = i + 1;
    }
    proof {
        assert(sv.skip(n as int) =~= Seq::<char>::empty());
        assert(raw_split(Seq::<char>::empty()) == seq![Seq::<char>::empty()]);
        assert(prepend_piece(buf@, raw_split(sv.skip(n as int))) =~~= seq![buf@]);
        assert(raw_split(sv) =~~= gdone.push(buf@));
        assert(raw_split(sv).take(raw_split(sv).len() - 1) =~~= gdone);
        assert(raw_split(sv).last() == buf@);
    }
    if buf.len() > 0 {
        let t = string_from_chars(&buf);
        out.push(t);
        proof {
            assert(out@.map_values(|t: String| t@) =~~= gdone.map_values(
                |t: Seq<char>| strip_cr(t),
            ) + seq![buf@]);
            assert(out@.map_values(|t: String| t@) =~~= lines_spec(sv));
        }
    } else {
        proof {
            assert(out@.map_values(|t: String| t@) =~~= lines_spec(sv));
        }
    }
    out
}

/// The display lines of a whole list of raw strings, in order: each string's
/// lines follow the previous string's, so one fetched fact may contribute
/// several consecutive rows.
pub open spec fn split_all_spec(ls: Seq<Seq<char>>) -> Seq<Seq<char>>
    decreases ls.len(),
{
    if ls.len() == 0 {
        Seq::empty()
    } else {
        lines_spec(ls[0]) + split_all_spec(ls.drop_first())
    }
}

proof fn lemma_split_all_push(ls: Seq<Seq<char>>, x: Seq<char>)
    ensures
        split_all_spec(ls.push(x)) == split_all_spec(ls) + lines_spec(x),
    decreases ls.len(),
{
    if ls.len() == 0 {
        assert(ls.push(x).drop_first() =~= Seq::<Seq<char>>::empty());
        assert(ls.push(x)[0] == x);
        assert(split_all_spec(Seq::<Seq<char>>::empty()) == Seq::<Seq<char>>::empty());
        assert(split_all_spec(ls.push(x)) == lines_spec(x) + Seq::<Seq<char>>::empty());
        assert(split_all_spec(ls.push(x)) =~~= split_all_spec(ls) + lines_spec(x));
    } else {
        lemma_split_all_push(ls.drop_first(), x);
        assert(ls.push(x).drop_first() =~= ls.drop_first().push(x));
        assert(ls.push(x)[0] == ls[0]);
        assert(split_all_spec(ls.push(x)) == lines_spec(ls[0]) + (split_all_spec(ls.drop_first())
            + lines_spec(x)));
        assert(split_all_spec(ls.push(x)) =~~= split_all_spec(ls) + lines_spec(x));
    }
}

/// Splits every string of `lines` into display lines and concatenates the
/// results in the order given. A string with embedded newlines becomes
/// several entries; an empty string becomes none.
pub fn split_multiline_strings(lines: Vec<String>) -> (r: Vec<String>)
    ensures
        r@.map_values(|t: String| t@) == split_all_spec(lines@.map_values(|t: String| t@)),
{
    let ghost lv = lines@.map_values(|t: String| t@);
    let mut out: Vec<String> = Vec::new();
    let mut i: usize = 0;
    proof {
        assert(lv.take(0) =~= Seq::<Seq<char>>::empty());
    }
    while i < lines.len()
        invariant
            lv == lines@.map_values(|t: String| t@),
            i <= lines@.len(),
            out@.map_values(|t: String| t@) == split_all_spec(lv.take(i as int)),
        decreases lines@.len() - i,
    {
        let ghost old_out = out@;
        let mut part = split_lines(lines[i].as_str());
        out.append(&mut part);
        proof {
            assert(lv.take(i + 1) =~= lv.take(i as int).push(lv[i as int]));
            lemma_split_all_push(lv.take(i as int), lv[i as int]);
            assert(out@.map_values(|t: String| t@) =~= split_all_spec(lv.take(i + 1)));
        }
        i = i + 1;
    }
    proof {
        assert(lv.take(lines@.len() as int) =~= lv);
    }
    out
}

/// A run of `n` literal spaces.
pub open spec fn spaces(n: int) -> Seq<char> {
    Seq::new(if n >= 0 {
        n as nat
    } else {
        0
    }, |i: int| ' ')
}

/// The element of `ls` at `i`, or the empty line past the end.
pub open spec fn line_at(ls: Seq<Seq<char>>, i: int) -> Seq<char> {
    if 0 <= i < ls.len() {
        ls[i]
    } else {
        Seq::empty()
    }
}

/// One composed output row: the logo line, then enough spaces that the info
/// text starts at visible column `w` (markup directives in the logo do not
/// count toward its width), then the info line. A logo line whose visible
/// width reaches `w` gets no padding at all.
pub open spec fn row_spec(logo: Seq<char>, info: Seq<char>, w: int) -> Seq<char> {
    let vw = visible_width(logo) as int;
    let used = if vw < w {
        vw
    } else {
        w
    };
    logo + spaces(w - used) + info
}

proof fn lemma_spaces_width(n: int)
    requires
        n >= 0,
    ensures
        visible_width(spaces(n)) == n,
        n > 0 ==> spaces(n)[0] == ' ' && spaces(n).last() == ' ',
    decreases n,
{
    if n > 0 {
        lemma_spaces_width(n - 1);
        assert(spaces(n).skip(1) =~= spaces(n - 1));
        assert(!crate::markup::is_directive_at(spaces(n), 0));
    }
}

/// Alignment of one composed row: when the logo's visible width fits the
/// column, the info text begins exactly at visible column `w` — the logo and
/// its padding together are `w` columns wide, whatever markup the logo
/// carries. The one proviso rules out a logo line whose final `$` would pair
/// with a leading digit of the info text into a directive across the seam,
/// which can happen only when the logo already fills the column and no
/// padding separates the two.
pub proof fn lemma_row_alignment(logo: Seq<char>, info: Seq<char>, w: int)
    requires
        visible_width(logo) <= w,
        !(logo.len() > 0 && logo.last() == '$' && visible_width(logo) == w && info.len() > 0
            && crate::markup::is_digit(info[0])),
    ensures
        visible_width(row_spec(logo, info, w)) == w + visible_width(info),
{
    let pad = w - visible_width(logo);
    lemma_spaces_width(pad);
    if pad > 0 {
        crate::markup::lemma_visible_width_concat(spaces(pad), info);
        assert(logo + spaces(pad) + info =~= logo + (spaces(pad) + info));
        assert((spaces(pad) + info)[0] == ' ');
        crate::markup::lemma_visible_width_concat(logo, spaces(pad) + info);
    } else {
        assert(spaces(0) =~= Seq::<char>::empty());
        assert(logo + spaces(0) + info =~= logo + info);
        crate::markup::lemma_visible_width_concat(logo, info);
    }
}

/// Merges the logo block and the info block into the final output rows. Row
/// `i` pairs `logo_lines[i]` with `results[i]`, either standing in as empty
/// when its block is the shorter one, and pads the logo to the column
/// `img_width` by its visible width, so the info column stays aligned even
/// though logo lines carry non-printing markup.
pub fn format_terminal_output(logo_lines: &Vec<String>, results: &Vec<String>, img_width: usize)
    -> (r: Vec<String>)
    ensures
        r@.len() == if logo_lines@.len() > results@.len() {
            logo_lines@.len()
        } else {
            results@.len()
        },
        forall|i: int|
            0 <= i < r@.len() ==> (#[trigger] r@[i])@ == row_spec(
                line_at(logo_lines@.map_values(|t: String| t@), i),
                line_at(results@.map_values(|t: String| t@), i),
                img_width as int,
            ),
{
    let ghost gl = logo_lines@.map_values(|t: String| t@);
    let ghost gr = results@.map_values(|t: String| t@);
    let longer = if logo_lines.len() > results.len() {
        logo_lines.len()
    } else {
        results.len()
    };
    let mut out: Vec<String> = Vec::new();
    let mut i: usize = 0;
    while i < longer
        invariant
            gl == logo_lines@.map_values(|t: String| t@),
            gr == results@.map_values(|t: String| t@),
            longer == if gl.len() > gr.len() {
                gl.len()
            } else {
                gr.len()
            },
            i <= longer,
            out@.len() == i,
            forall|j: int|
                0 <= j < i ==> (#[trigger] out@[j])@ == row_spec(
                    line_at(gl, j),
                    line_at(gr, j),
                    img_width as int,
                ),
        decreases longer - i,
    {
        let mut row: Vec<char> = Vec::new();
        let mut vw: usize = 0;
        if i < logo_lines.len() {
            let logo = logo_lines[i].as_str();
            let mut lc = chars_of(logo);
            row.append(&mut lc);
            vw = crate::markup::count_chars_without_markers(logo);
        }
        proof {
            assert(row@ == line_at(gl, i as int));
            assert(vw == visible_width(line_at(gl, i as int)));
        }
        let used = if vw < img_width {
            vw
        } else {
            img_width
        };
        let pad = img_width - used;
        let mut p: usize = 0;
        let ghost row_before_pad = row@;
        while p < pad
            invariant
                p <= pad,
                row@ == row_before_pad + spaces(p as int),
            decreases pad - p,
        {
            row.push(' ');
            proof {
                assert(row@ =~= row_before_pad + spaces(p + 1));
            }
            p = p + 1;
        }
        if i < results.len() {
            let info = results[i].as_str();
            let mut ic = chars_of(info);
            row.append(&mut ic);
        }
        proof {
            assert(row@ =~= row_spec(line_at(gl, i as int), line_at(gr, i as int), img_width as int))
                by {
                if i < gr.len() {
                } else {
                    assert(row_before_pad + spaces(pad as int) + Seq::<char>::empty()
                        =~= row_before_pad + spaces(pad as int));
                }
            }
        }
        let t = string_from_chars(&row);
        out.push(t);
        i = i + 1;
    }
    out
}

/// The widest visible width over a block of lines.
pub open spec fn max_visible(ls: Seq<Seq<char>>) -> nat
    decreases ls.len(),
{
    if ls.len() == 0 {
        0
    } else {
        let m = max_visible(ls.drop_last());
        if visible_width(ls.last()) > m {
            visible_width(ls.last())
        } else {
            m
        }
    }
}

/// The column where the info block starts: the widest visible logo width
/// plus a fixed margin of separation. Without a logo the caller passes no
/// lines and the column is the bare margin.
pub fn column_width(logo_lines: &Vec<String>, margin: usize) -> (w: usize)
    requires
        forall|i: int|
            0 <= i < logo_lines@.len() ==> (#[trigger] logo_lines@[i])@.len() + margin
                <= usize::MAX,
    ensures
        w == max_visible(logo_lines@.map_values(|t: String| t@)) + margin,
{
    let ghost gl = logo_lines@.map_values(|t: String| t@);
    let mut m: usize = 0;
    let mut i: usize = 0;
    proof {
        assert(gl.take(0) =~= Seq::<Seq<char>>::empty());
    }
    while i < logo_lines.len()
        invariant
            gl == logo_lines@.map_values(|t: String| t@),
            forall|k: int| 0 <= k < gl.len() ==> (#[trigger] gl[k]).len() + margin <= usize::MAX,
            i <= gl.len(),
            m == max_visible(gl.take(i as int)),
            m + margin <= usize::MAX,
        decreases gl.len() - i,
    {
        let vw = crate::markup::count_chars_without_markers(logo_lines[i].as_str());
        proof {
            lemma_visible_width_le_len(gl[i as int]);
            assert(gl.take(i + 1).drop_last() =~= gl.take(i as int));
            assert(gl.take(i + 1).last() == gl[i as int]);
        }
        if vw > m {
            m = vw;
        }
        i = i + 1;
    }
    proof {
        assert(gl.take(gl.len() as int) =~= gl);
    }
    m + margin
}

/// What `strip_ansi_escapes::strip_str` returns for a string: its characters
/// with every ANSI terminal escape sequence removed. The result depends on
/// the characters alone.
pub uninterp spec fn stripped_of(s: Seq<char>) -> Seq<char>;

/// Relies on `strip_ansi_escapes::strip_str`: it hands every printable
/// character and newline through in order and consumes escape sequences, so
/// the result is a subsequence of the input and never longer.
#[verifier::external_body]
fn strip_ansi(s: &str) -> (r: String)
    ensures
        r@ == stripped_of(s@),
        r@.len() <= s@.len(),
{
    strip_ansi_escapes::strip_str(s)
}

/// The info column for a logo block that may still carry raw ANSI escapes:
/// each line is normalized by stripping them before it is measured, so
/// escapes, like markup directives, take no column space.
pub fn logo_column_width(logo_lines: &Vec<String>, margin: usize) -> (w: usize)
    requires
        forall|i: int|
            0 <= i < logo_lines@.len() ==> (#[trigger] logo_lines@[i])@.len() + margin
                <= usize::MAX,
    ensures
        w == max_visible(logo_lines@.map_values(|t: String| stripped_of(t@))) + margin,
{
    let ghost gs = logo_lines@.map_values(|t: String| stripped_of(t@));
    let mut stripped: Vec<String> = Vec::new();
    let mut i: usize = 0;
    proof {
        assert(gs.take(0) =~= Seq::<Seq<char>>::empty());
    }
    while i < logo_lines.len()
        invariant
            gs == logo_lines@.map_values(|t: String| stripped_of(t@)),
            forall|k: int|
                0 <= k < logo_lines@.len() ==> (#[trigger] logo_lines@[k])@.len() + margin
                    <= usize::MAX,
            i <= logo_lines@.len(),
            stripped@.map_values(|t: String| t@) == gs.take(i as int),
            forall|k: int|
                0 <= k < i ==> (#[trigger] stripped@[k])@.len() + margin <= usize::MAX,
        decreases logo_lines@.len() - i,
    {
        let t = strip_ansi(logo_lines[i].as_str());
        let ghost prev = stripped@;
        stripped.push(t);
        proof {
            assert(gs[i as int] == stripped_of(logo_lines@[i as int]@));
            assert(stripped@ == prev.push(t));
            assert(prev.map_values(|t: String| t@).len() == prev.len());
            assert(gs.len() == logo_lines@.len());
            assert(prev.len() == i);
            assert(stripped@.map_values(|t: String| t@).len() == stripped@.len());
            assert forall|k: int| 0 <= k < i + 1 implies stripped@.map_values(|t: String| t@)[k]
                == #[trigger] gs.take(i + 1)[k] by {
                if k < i {
                    assert(stripped@[k] == prev[k]);
                    assert(prev.map_values(|t: String| t@)[k] == prev[k]@);
                } else {
                    assert(stripped@[k] == t);
                }
            }
            assert(stripped@.map_values(|t: String| t@) =~= gs.take(i + 1));
        }
        i = i + 1;
    }
    proof {
        assert(gs.take(logo_lines@.len() as int) =~= gs);
        assert(stripped@.map_values(|t: String| t@) == gs);
    }
    column_width(&stripped, margin)
}

} // verus!
