//! The inline color-markup language: a directive is `$` followed by an ASCII
//! digit; it is non-printing and selects a palette slot. This module computes
//! the visible width of a marked-up line and splits a line into runs of
//! literal text, each carrying the palette slot it is printed in.

use vstd::prelude::*;
use crate::theme::Color;

verus! {

/// An ASCII decimal digit.
pub open spec fn is_digit(c: char) -> bool {
    48 <= c as u32 <= 57
}

/// A directive starts at position `i`: a `$` immediately followed by a digit.
pub open spec fn is_directive_at(s: Seq<char>, i: int) -> bool {
    &&& 0 <= i
    &&& i + 1 < s.len()
    &&& s[i] == '$'
    &&& is_digit(s[i + 1])
}

/// The number of characters a line occupies on screen: every character counts
/// one, except the two characters of each directive, which count zero.
pub open spec fn visible_width(s: Seq<char>) -> nat
    decreases s.len(),
{
    if s.len() == 0 {
        0
    } else if is_directive_at(s, 0) {
        visible_width(s.skip(2))
    } else {
        1 + visible_width(s.skip(1))
    }
}

/// The visible width never exceeds the raw character count.
pub proof fn lemma_visible_width_le_len(s: Seq<char>)
    ensures
        visible_width(s) <= s.len(),
    decreases s.len(),
{
    if s.len() == 0 {
    } else if is_directive_at(s, 0) {
        lemma_visible_width_le_len(s.skip(2));
    } else {
        lemma_visible_width_le_len(s.skip(1));
    }
}

/// Visible width distributes over concatenation, except across a seam where
/// a final `$` of the left part would pair with a leading digit of the right
/// part into a directive. A trailing `$` is never itself the middle of a
/// directive — a directive's second character is a digit — so that seam is
/// the only way the two sides can interfere.
pub proof fn lemma_visible_width_concat(a: Seq<char>, b: Seq<char>)
    requires
        !(a.len() > 0 && a.last() == '$' && b.len() > 0 && is_digit(b[0])),
    ensures
        visible_width(a + b) == visible_width(a) + visible_width(b),
    decreases a.len(),
{
    if a.len() == 0 {
        assert(a + b =~= b);
        assert(visible_width(a + b) == visible_width(a) + visible_width(b));
    } else if is_directive_at(a, 0) {
        assert((a + b)[0] == a[0] && (a + b)[1] == a[1]);
        assert(is_directive_at(a + b, 0));
        assert((a + b).skip(2) =~= a.skip(2) + b);
        if a.len() > 2 {
            assert(a.skip(2).last() == a.last());
        }
        lemma_visible_width_concat(a.skip(2), b);
        assert(visible_width(a + b) == visible_width(a) + visible_width(b));
    } else if a.len() == 1 {
        assert(!is_directive_at(a + b, 0)) by {
            if is_directive_at(a + b, 0) {
                assert((a + b)[0] == a[0] && (a + b)[1] == b[0]);
            }
        }
        assert((a + b).skip(1) =~= b);
        assert(visible_width(a) == 1 + visible_width(a.skip(1)));
        assert(a.skip(1) =~= Seq::<char>::empty());
        assert(visible_width(a + b) == visible_width(a) + visible_width(b));
    } else {
        assert(!is_directive_at(a + b, 0)) by {
            if is_directive_at(a + b, 0) {
                assert((a + b)[0] == a[0] && (a + b)[1] == a[1]);
            }
        }
        assert((a + b).skip(1) =~= a.skip(1) + b);
        assert(a.skip(1).last() == a.last());
        lemma_visible_width_concat(a.skip(1), b);
        assert(visible_width(a + b) == visible_width(a) + visible_width(b));
    }
}

/// Counts the characters of `text` that will actually be printed, skipping
/// every `$<digit>` directive.
pub fn count_chars_without_markers(text: &str) -> (count: usize)
    ensures
        count == visible_width(text@),
{
    let ghost s = text@;
    let n = text.unicode_len();
    let mut i: usize = 0;
    let mut count: usize = 0;
    proof {
        lemma_visible_width_le_len(s);
        assert(s.skip(0) =~= s);
    }
    while i < n
        invariant
            s == text@,
            n == s.len(),
            i <= n,
            count + visible_width(s.skip(i as int)) == visible_width(s),
            count <= i,
        decreases n - i,
    {
        let c = text.get_char(i);
        if c as u32 == 36 && i + 1 < n {
            let d = text.get_char(i + 1);
            let du = d as u32;
            if 48 <= du && du <= 57 {
                proof {
                    assert(s.skip(i as int).skip(2) =~= s.skip(i + 2));
                }
                i = i + 2;
                continue;
            }
        }
        proof {
            assert(!is_directive_at(s.skip(i as int), 0));
            assert(s.skip(i as int).skip(1) =~= s.skip(i + 1));
            lemma_visible_width_le_len(s.skip(i + 1));
        }
        count = count + 1;
        i = i + 1;
    }
    proof {
        assert(s.skip(n as int) =~= Seq::<char>::empty());
    }
    count
}

/// The numeric value of an ASCII digit character.
pub open spec fn digit_val(c: char) -> int {
    c as u32 - 48
}

/// One maximal run of literal text printed in a single color: `slot` is the
/// palette index active while `text` is printed.
#[derive(Debug, Clone, PartialEq, Eq)]
pub struct Segment {
    pub slot: usize,
    pub text: String,
}

/// The mathematical shape of a segment: palette slot and printed characters.
pub open spec fn seg_view(g: Segment) -> (int, Seq<char>) {
    (g.slot as int, g.text@)
}

/// Splits a marked-up line into colored runs, scanning left to right with the
/// active slot `cur` against a palette of `plen` entries. A directive `$d`
/// with `1 <= d <= plen` ends the current run and starts a new one in slot
/// `d - 1`; any other directive is consumed without effect; every other
/// character extends the current run. The result always holds at least one
/// run, and runs split exactly at the in-range directives, so a directive at
/// the very start or two adjacent directives yield runs of empty text.
pub open spec fn segments_spec(s: Seq<char>, plen: int, cur: int) -> Seq<(int, Seq<char>)>
    decreases s.len(),
{
    if s.len() == 0 {
        seq![(cur, Seq::<char>::empty())]
    } else if is_directive_at(s, 0) {
        let d = digit_val(s[1]);
        if 1 <= d && d <= plen {
            seq![(cur, Seq::<char>::empty())] + segments_spec(s.skip(2), plen, d - 1)
        } else {
            segments_spec(s.skip(2), plen, cur)
        }
    } else {
        let r = segments_spec(s.skip(1), plen, cur);
        seq![(r[0].0, seq![s[0]] + r[0].1)] + r.skip(1)
    }
}

/// The segment list is never empty, opens with the incoming slot, and every
/// slot in it is either the incoming one or selected by an in-range directive.
pub proof fn lemma_segments_shape(s: Seq<char>, plen: int, cur: int)
    ensures
        segments_spec(s, plen, cur).len() >= 1,
        segments_spec(s, plen, cur)[0].0 == cur,
        forall|i: int|
            0 <= i < segments_spec(s, plen, cur).len() ==> segments_spec(s, plen, cur)[i].0 == cur
                || 0 <= segments_spec(s, plen, cur)[i].0 < plen,
    decreases s.len(),
{
    if s.len() == 0 {
    } else if is_directive_at(s, 0) {
        let d = digit_val(s[1]);
        if 1 <= d && d <= plen {
            lemma_segments_shape(s.skip(2), plen, d - 1);
        } else {
            lemma_segments_shape(s.skip(2), plen, cur);
        }
    } else {
        lemma_segments_shape(s.skip(1), plen, cur);
    }
}

/// A pending text buffer joined onto the front of the first segment.
spec fn prepend_text(b: Seq<char>, r: Seq<(int, Seq<char>)>) -> Seq<(int, Seq<char>)> {
    if r.len() == 0 {
        r
    } else {
        seq![(r[0].0, b + r[0].1)] + r.skip(1)
    }
}

/// Splits `line` into colored runs against a palette of `palette_len`
/// entries; the active slot starts at 0, the palette's first entry.
pub fn render_segments(line: &str, palette_len: usize) -> (segs: Vec<Segment>)
    ensures
        segs@.map_values(|g: Segment| seg_view(g)) == segments_spec(
            line@,
            palette_len as int,
            0,
        ),
        segs@.len() >= 1,
        forall|i: int|
            0 <= i < segs@.len() ==> (#[trigger] segs@[i]).slot == 0 || segs@[i].slot
                < palette_len,
{
    let ghost s = line@;
    let ghost plen = palette_len as int;
    let n = line.unicode_len();
    let mut done: Vec<Segment> = Vec::new();
    let mut buf: Vec<char> = Vec::new();
    let mut cur: usize = 0;
    let mut i: usize = 0;
    proof {
        assert(s.skip(0) =~= s);
        assert(prepend_text(buf@, segments_spec(s, plen, 0)) =~~= segments_spec(s, plen, 0)) by {
            lemma_segments_shape(s, plen, 0);
        }
    }
    while i < n
        invariant
            s == line@,
            plen == palette_len as int,
            n == s.len(),
            i <= n,
            cur == 0 || cur < palette_len,
            forall|k: int|
                0 <= k < done@.len() ==> (#[trigger] done@[k]).slot == 0 || done@[k].slot
                    < palette_len,
            segments_spec(s, plen, 0) == done@.map_values(|g: Segment| seg_view(g))
                + prepend_text(buf@, segments_spec(s.skip(i as int), plen, cur as int)),
        decreases n - i,
    {
        let ghost rest = s.skip(i as int);
        proof {
            lemma_segments_shape(rest, plen, cur as int);
        }
        let c = line.get_char(i);
        if c as u32 == 36 && i + 1 < n {
            let d = line.get_char(i + 1);
            let du = d as u32;
            if 48 <= du && du <= 57 {
                proof {
                    assert(rest.skip(2) =~= s.skip(i + 2));
                }
                let dv = (du - 48) as usize;
                if 1 <= dv && dv <= palette_len {
                    let ghost old_done = done@;
                    let ghost old_buf = buf@;
                    let seg = Segment { slot: cur, text: crate::text::string_from_chars(&buf) };
                    done.push(seg);
                    buf = Vec::new();
                    proof {
                        let r2 = segments_spec(s.skip(i + 2), plen, dv - 1);
                        lemma_segments_shape(s.skip(i + 2), plen, dv - 1);
                        assert(segments_spec(rest, plen, cur as int) =~= seq![
                            (cur as int, Seq::<char>::empty()),
                        ] + r2);
                        assert(prepend_text(old_buf, segments_spec(rest, plen, cur as int)) =~~=
                        seq![(cur as int, old_buf)] + r2);
                        assert(prepend_text(buf@, r2) =~~= r2);
                        assert(done@.map_values(|g: Segment| seg_view(g)) =~~= old_done.map_values(
                            |g: Segment| seg_view(g),
                        ).push((cur as int, old_buf)));
                        assert(done@.map_values(|g: Segment| seg_view(g)) + prepend_text(buf@, r2)
                            =~~= old_done.map_values(|g: Segment| seg_view(g)) + prepend_text(
                            old_buf,
                            segments_spec(rest, plen, cur as int),
                        ));
                    }
                    cur = dv - 1;
                } else {
                    proof {
                        assert(segments_spec(rest, plen, cur as int) == segments_spec(
                            s.skip(i + 2),
                            plen,
                            cur as int,
                        ));
                    }
                }
                i = i + 2;
                continue;
            }
        }
        proof {
            assert(!is_directive_at(rest, 0));
            assert(rest.skip(1) =~= s.skip(i + 1));
            let r1 = segments_spec(s.skip(i + 1), plen, cur as int);
            lemma_segments_shape(s.skip(i + 1), plen, cur as int);
            assert(rest[0] == c);
            assert(segments_spec(rest, plen, cur as int) =~= seq![(r1[0].0, seq![c] + r1[0].1)]
                + r1.skip(1));
            assert(prepend_text(buf@, segments_spec(rest, plen, cur as int)) =~~= prepend_text(
                buf@.push(c),
                r1,
            )) by {
                assert(buf@ + (seq![c] + r1[0].1) =~= buf@.push(c) + r1[0].1);
            }
        }
        buf.push(c);
        i = i + 1;
    }
    proof {
        assert(s.skip(n as int) =~= Seq::<char>::empty());
    }
    let ghost old_done = done@;
    let seg = Segment { slot: cur, text: crate::text::string_from_chars(&buf) };
    done.push(seg);
    proof {
        assert(segments_spec(s.skip(n as int), plen, cur as int) =~= seq![
            (cur as int, Seq::<char>::empty()),
        ]);
        assert(prepend_text(buf@, segments_spec(s.skip(n as int), plen, cur as int)) =~~= seq![
            (cur as int, buf@),
        ]);
        assert(done@.map_values(|g: Segment| seg_view(g)) =~~= old_done.map_values(
            |g: Segment| seg_view(g),
        ) + seq![(cur as int, buf@)]);
        lemma_segments_shape(s, plen, 0);
    }
    done
}

/// One step of terminal output while a line is rendered.
#[derive(Debug, Clone, PartialEq, Eq)]
pub enum RenderEvent {
    /// Switch the active foreground color.
    SetColor(Color),
    /// Write literal text in the active color.
    Print(String),
    /// Return the terminal to its default color.
    Reset,
    /// End the line.
    Newline,
}

/// The mathematical shape of a render event.
pub enum EventModel {
    SetColor(Color),
    Print(Seq<char>),
    Reset,
    Newline,
}

/// The model of an executable render event.
pub open spec fn event_view(e: RenderEvent) -> EventModel {
    match e {
        RenderEvent::SetColor(c) => EventModel::SetColor(c),
        RenderEvent::Print(t) => EventModel::Print(t@),
        RenderEvent::Reset => EventModel::Reset,
        RenderEvent::Newline => EventModel::Newline,
    }
}

/// The events one colored run contributes: a color switch and its text, or
/// the bare text when there is no palette to select from.
pub open spec fn run_events(g: (int, Seq<char>), palette: Seq<Color>) -> Seq<EventModel> {
    if palette.len() > 0 {
        seq![EventModel::SetColor(palette[g.0]), EventModel::Print(g.1)]
    } else {
        seq![EventModel::Print(g.1)]
    }
}

/// The events of a whole segment list, in order.
pub open spec fn events_of_segs(segs: Seq<(int, Seq<char>)>, palette: Seq<Color>) -> Seq<
    EventModel,
>
    decreases segs.len(),
{
    if segs.len() == 0 {
        seq![]
    } else {
        run_events(segs[0], palette) + events_of_segs(segs.drop_first(), palette)
    }
}

/// Everything the terminal is told while one line is rendered: the colored
/// runs of the line, then exactly one reset, then the newline.
pub open spec fn line_events_spec(s: Seq<char>, palette: Seq<Color>) -> Seq<EventModel> {
    events_of_segs(segments_spec(s, palette.len() as int, 0), palette) + seq![
        EventModel::Reset,
        EventModel::Newline,
    ]
}

proof fn lemma_events_push(segs: Seq<(int, Seq<char>)>, x: (int, Seq<char>), palette: Seq<Color>)
    ensures
        events_of_segs(segs.push(x), palette) == events_of_segs(segs, palette) + run_events(
            x,
            palette,
        ),
    decreases segs.len(),
{
    if segs.len() == 0 {
        assert(segs.push(x).drop_first() =~= Seq::<(int, Seq<char>)>::empty());
        assert(segs.push(x)[0] == x);
        assert(events_of_segs(segs.push(x), palette) == run_events(x, palette) + events_of_segs(
            Seq::<(int, Seq<char>)>::empty(),
            palette,
        ));
        assert(events_of_segs(segs.push(x), palette) =~= events_of_segs(segs, palette)
            + run_events(x, palette));
    } else {
        lemma_events_push(segs.drop_first(), x, palette);
        assert(segs.push(x).drop_first() =~= segs.drop_first().push(x));
        assert(segs.push(x)[0] == segs[0]);
        assert(events_of_segs(segs.push(x), palette) == run_events(segs[0], palette) + (
        events_of_segs(segs.drop_first(), palette) + run_events(x, palette)));
        assert(events_of_segs(segs.push(x), palette) =~= events_of_segs(segs, palette)
            + run_events(x, palette));
    }
}

proof fn lemma_events_no_reset(segs: Seq<(int, Seq<char>)>, palette: Seq<Color>)
    ensures
        forall|i: int|
            0 <= i < events_of_segs(segs, palette).len() ==> !(#[trigger] events_of_segs(
                segs,
                palette,
            )[i] is Reset) && !(events_of_segs(segs, palette)[i] is Newline),
    decreases segs.len(),
{
    if segs.len() == 0 {
    } else {
        lemma_events_no_reset(segs.drop_first(), palette);
    }
}

/// Renders one line into the ordered list of terminal events it produces:
/// each colored run of the line in turn, one final reset, one newline. The
/// reset and the newline stand exactly once, at the end, so color never
/// bleeds past the line.
pub fn render_line(line: &str, palette: &Vec<Color>) -> (ev: Vec<RenderEvent>)
    ensures
        ev@.map_values(|e: RenderEvent| event_view(e)) == line_events_spec(line@, palette@),
        ev@.len() >= 2,
        ev@[ev@.len() - 2] is Reset,
        ev@[ev@.len() - 1] is Newline,
        forall|i: int|
            0 <= i < ev@.len() - 2 ==> !((#[trigger] ev@[i]) is Reset) && !(ev@[i] is Newline),
{
    let segs = render_segments(line, palette.len());
    let ghost svs = segs@.map_values(|g: Segment| seg_view(g));
    let mut ev: Vec<RenderEvent> = Vec::new();
    let mut k: usize = 0;
    proof {
        assert(svs.take(0) =~= Seq::<(int, Seq<char>)>::empty());
    }
    while k < segs.len()
        invariant
            svs == segs@.map_values(|g: Segment| seg_view(g)),
            svs == segments_spec(line@, palette@.len() as int, 0),
            forall|i: int|
                0 <= i < segs@.len() ==> (#[trigger] segs@[i]).slot == 0 || segs@[i].slot
                    < palette@.len(),
            k <= segs@.len(),
            ev@.map_values(|e: RenderEvent| event_view(e)) == events_of_segs(
                svs.take(k as int),
                palette@,
            ),
            forall|i: int|
                0 <= i < ev@.len() ==> !((#[trigger] ev@[i]) is Reset) && !(ev@[i] is Newline),
        decreases segs@.len() - k,
    {
        let ghost old_ev = ev@;
        let g = &segs[k];
        if palette.len() > 0 {
            let c = palette[g.slot];
            ev.push(RenderEvent::SetColor(c));
            ev.push(RenderEvent::Print(g.text.clone()));
        } else {
            ev.push(RenderEvent::Print(g.text.clone()));
        }
        proof {
            assert(svs.take(k + 1) =~= svs.take(k as int).push(svs[k as int]));
            lemma_events_push(svs.take(k as int), svs[k as int], palette@);
            assert(ev@.map_values(|e: RenderEvent| event_view(e)) =~= old_ev.map_values(
                |e: RenderEvent| event_view(e),
            ) + run_events(svs[k as int], palette@));
        }
        k = k + 1;
    }
    proof {
        assert(svs.take(segs@.len() as int) =~= svs);
        lemma_events_no_reset(svs, palette@);
    }
    let ghost body = ev@;
    ev.push(RenderEvent::Reset);
    ev.push(RenderEvent::Newline);
    proof {
        assert(ev@.map_values(|e: RenderEvent| event_view(e)) =~= body.map_values(
            |e: RenderEvent| event_view(e),
        ) + seq![EventModel::Reset, EventModel::Newline]);
    }
    ev
}

/// Rendering is a pure function of the line and the palette: two renderings
/// of the same line against the same palette tell the terminal exactly the
/// same things, in the same order. No state is carried from one rendering to
/// the next.
pub proof fn lemma_render_idempotent(
    e1: Seq<EventModel>,
    e2: Seq<EventModel>,
    s: Seq<char>,
    palette: Seq<Color>,
)
    requires
        e1 == line_events_spec(s, palette),
        e2 == line_events_spec(s, palette),
    ensures
        e1 == e2,
{
}

} // verus!


