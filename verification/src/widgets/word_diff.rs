//! Word-level highlighting of a changed line against its counterpart, and
//! where the characters of a highlighted line land on screen.
use similar::{ChangeTag, TextDiff};
use unicode_width::UnicodeWidthChar;
use vstd::prelude::*;

use crate::diff::DiffLineKind;
use crate::text::chars_of;

verus! {

#[derive(Debug, Clone, Copy, PartialEq, Eq, Structural)]
pub enum WordTag {
    Equal,
    Delete,
    Insert,
}

/// The word-level changes that turn `old` into `new`, as `similar` computes
/// them: each word or run of whitespace, tagged.
pub uninterp spec fn word_diff(old: Seq<char>, new: Seq<char>) -> Seq<(WordTag, Seq<char>)>;

pub open spec fn changes_view(v: Seq<(WordTag, String)>) -> Seq<(WordTag, Seq<char>)> {
    v.map_values(|c: (WordTag, String)| (c.0, c.1@))
}

/// The text on one side of a list of changes: the equal pieces and those
/// tagged `skip`'s opposite, in order.
pub open spec fn side_text(cs: Seq<(WordTag, Seq<char>)>, skip: WordTag) -> Seq<char>
    decreases cs.len(),
{
    if cs.len() == 0 {
        seq![]
    } else {
        side_text(cs.drop_last(), skip) + if cs.last().0 == skip { seq![] } else { cs.last().1 }
    }
}

/// `TextDiff::from_words(old, new).iter_all_changes()`, each change as its
/// tag and text. The changes cover both texts in order: the equal and deleted
/// pieces spell `old`, the equal and inserted pieces spell `new`.
#[verifier::external_body]
fn word_changes(old: &str, new: &str) -> (r: Vec<(WordTag, String)>)
    ensures
        changes_view(r@) == word_diff(old@, new@),
        side_text(changes_view(r@), WordTag::Insert) == old@,
        side_text(changes_view(r@), WordTag::Delete) == new@,
{
    TextDiff::from_words(old, new).iter_all_changes().map(|c| {
        let tag = match c.tag() {
            ChangeTag::Equal => WordTag::Equal,
            ChangeTag::Delete => WordTag::Delete,
            ChangeTag::Insert => WordTag::Insert,
        };
        (tag, c.value().to_string())
    }).collect()
}

/// The look of a piece of text in the diff view.
#[derive(Debug, Clone, Copy, PartialEq, Eq, Structural)]
pub enum SegmentStyle {
    DiffAdded,
    DiffRemoved,
    DiffContext,
    WordAdded,
    WordRemoved,
}

pub open spec fn base_style(kind: DiffLineKind) -> SegmentStyle {
    match kind {
        DiffLineKind::Added => SegmentStyle::DiffAdded,
        DiffLineKind::Removed => SegmentStyle::DiffRemoved,
        DiffLineKind::Context => SegmentStyle::DiffContext,
    }
}

pub fn base_style_of(kind: DiffLineKind) -> (s: SegmentStyle)
    ensures
        s == base_style(kind),
{
    match kind {
        DiffLineKind::Added => SegmentStyle::DiffAdded,
        DiffLineKind::Removed => SegmentStyle::DiffRemoved,
        DiffLineKind::Context => SegmentStyle::DiffContext,
    }
}

#[derive(Debug, Clone, PartialEq)]
pub struct StyledSegment {
    pub text: String,
    pub style: SegmentStyle,
}

pub open spec fn segments_view(v: Seq<StyledSegment>) -> Seq<(Seq<char>, SegmentStyle)> {
    v.map_values(|s: StyledSegment| (s.text@, s.style))
}

/// The segments of one side: equal words in the line's own style; on the
/// left the deleted words highlighted as removed, on the right the inserted
/// words highlighted as added; the other side's words left out.
pub open spec fn word_segments(cs: Seq<(WordTag, Seq<char>)>, is_left: bool, base: SegmentStyle) -> Seq<(Seq<char>, SegmentStyle)>
    decreases cs.len(),
{
    if cs.len() == 0 {
        seq![]
    } else {
        let prev = word_segments(cs.drop_last(), is_left, base);
        let (tag, text) = cs.last();
        match tag {
            WordTag::Equal => prev.push((text, base)),
            WordTag::Delete => if is_left { prev.push((text, SegmentStyle::WordRemoved)) } else { prev },
            WordTag::Insert => if !is_left { prev.push((text, SegmentStyle::WordAdded)) } else { prev },
        }
    }
}

/// The segments that a line's content is drawn with: word-level highlights
/// for a changed line that has a counterpart, else the whole content in the
/// line's style.
pub open spec fn content_segments(content: Seq<char>, paired: Option<Seq<char>>, kind: DiffLineKind, is_left: bool) -> Seq<(Seq<char>, SegmentStyle)> {
    match paired {
        Some(p) => if kind == DiffLineKind::Context {
            seq![(content, base_style(kind))]
        } else if is_left {
            word_segments(word_diff(content, p), is_left, base_style(kind))
        } else {
            word_segments(word_diff(p, content), is_left, base_style(kind))
        },
        None => seq![(content, base_style(kind))],
    }
}

pub open spec fn opt_str_view(o: Option<&str>) -> Option<Seq<char>> {
    match o {
        Some(s) => Some(s@),
        None => None,
    }
}

/// The segments to draw `content` with, `paired_content` being the other
/// side of the row when both sides are changed lines.
pub fn render_content_with_word_diff(content: &str, paired_content: Option<&str>, kind: DiffLineKind, is_left: bool) -> (r: Vec<StyledSegment>)
    ensures
        segments_view(r@) == content_segments(content@, opt_str_view(paired_content), kind, is_left),
        segments_text(segments_view(r@)) == content@,
{
    let base = base_style_of(kind);
    let whole = |c: &str| -> (v: Vec<StyledSegment>)
        ensures
            segments_view(v@) == seq![(c@, base)],
            segments_text(segments_view(v@)) == c@,
        {
            let mut v = Vec::new();
            v.push(StyledSegment { text: String::from_str(c), style: base });
            assert(segments_view(v@) =~= seq![(c@, base)]);
            proof {
                lemma_single_segment(c@, base);
            }
            v
        };
    let paired = match paired_content {
        Some(p) => p,
        None => return whole(content),
    };
    if kind == DiffLineKind::Context {
        return whole(content);
    }
    let changes = if is_left { word_changes(content, paired) } else { word_changes(paired, content) };
    let segments = segments_of_changes(&changes, is_left, base);
    proof {
        lemma_word_segments_text(changes_view(changes@), is_left, base);
    }
    segments
}

/// The segments of one side of a row from the word-level changes between
/// the two sides: equal words in `base`, on the left the deleted words as
/// removed, on the right the inserted words as added.
pub fn segments_of_changes(changes: &Vec<(WordTag, String)>, is_left: bool, base: SegmentStyle) -> (segments: Vec<StyledSegment>)
    ensures
        segments_view(segments@) == word_segments(changes_view(changes@), is_left, base),
{
    let ghost cv = changes_view(changes@);
    let mut segments: Vec<StyledSegment> = Vec::new();
    let mut k: usize = 0;
    assert(cv.take(0) =~= Seq::<(WordTag, Seq<char>)>::empty());
    assert(segments_view(segments@) =~= Seq::<(Seq<char>, SegmentStyle)>::empty());
    while k < changes.len()
        invariant
            cv == changes_view(changes@),
            k <= changes@.len(),
            segments_view(segments@) == word_segments(cv.take(k as int), is_left, base),
        decreases changes.len() - k,
    {
        assert(cv.take(k + 1).drop_last() =~= cv.take(k as int));
        assert(cv.take(k + 1).last() == (changes@[k as int].0, changes@[k as int].1@));
        let (tag, text) = (&changes[k].0, &changes[k].1);
        let ghost prev = segments@;
        match tag {
            WordTag::Equal => {
                let seg = StyledSegment { text: text.clone(), style: base };
                segments.push(seg);
                assert(segments_view(segments@) =~= segments_view(prev).push((text@, base)));
            },
            WordTag::Delete => {
                if is_left {
                    let seg = StyledSegment { text: text.clone(), style: SegmentStyle::WordRemoved };
                    segments.push(seg);
                    assert(segments_view(segments@) =~= segments_view(prev).push((text@, SegmentStyle::WordRemoved)));
                }
            },
            WordTag::Insert => {
                if !is_left {
                    let seg = StyledSegment { text: text.clone(), style: SegmentStyle::WordAdded };
                    segments.push(seg);
                    assert(segments_view(segments@) =~= segments_view(prev).push((text@, SegmentStyle::WordAdded)));
                }
            },
        }
        k += 1;
    }
    assert(cv.take(changes@.len() as int) =~= cv);
    segments
}

/// The text that segments spell, one after the other.
pub open spec fn segments_text(segs: Seq<(Seq<char>, SegmentStyle)>) -> Seq<char>
    decreases segs.len(),
{
    if segs.len() == 0 {
        seq![]
    } else {
        segments_text(segs.drop_last()) + segs.last().0
    }
}

proof fn lemma_word_segments_text(cs: Seq<(WordTag, Seq<char>)>, is_left: bool, base: SegmentStyle)
    ensures
        segments_text(word_segments(cs, is_left, base)) == side_text(
            cs,
            if is_left { WordTag::Insert } else { WordTag::Delete },
        ),
    decreases cs.len(),
{
    if cs.len() > 0 {
        lemma_word_segments_text(cs.drop_last(), is_left, base);
        let prev = word_segments(cs.drop_last(), is_left, base);
        let (tag, text) = cs.last();
        match tag {
            WordTag::Equal => {
                assert(prev.push((text, base)).drop_last() =~= prev);
            },
            WordTag::Delete => {
                if is_left {
                    assert(prev.push((text, SegmentStyle::WordRemoved)).drop_last() =~= prev);
                } else {
                    assert(side_text(cs, WordTag::Delete) =~= side_text(cs.drop_last(), WordTag::Delete));
                }
            },
            WordTag::Insert => {
                if !is_left {
                    assert(prev.push((text, SegmentStyle::WordAdded)).drop_last() =~= prev);
                } else {
                    assert(side_text(cs, WordTag::Insert) =~= side_text(cs.drop_last(), WordTag::Insert));
                }
            },
        }
    }
}

proof fn lemma_single_segment(content: Seq<char>, style: SegmentStyle)
    ensures
        segments_text(seq![(content, style)]) == content,
{
    let one = seq![(content, style)];
    assert(one.drop_last() =~= Seq::<(Seq<char>, SegmentStyle)>::empty());
    assert(segments_text(one.drop_last()) == Seq::<char>::empty());
    assert(segments_text(one) =~= Seq::<char>::empty() + content);
}

/// The number of columns `c` takes on screen, as `unicode_width` reports
/// it (none for a control character).
pub uninterp spec fn char_width(c: char) -> Option<usize>;

/// `UnicodeWidthChar::width`. Its source gives one column to each printable
/// ASCII character, none to the C0 and C1 control characters, and at most
/// three columns to any other character.
#[verifier::external_body]
fn display_width(c: char) -> (w: Option<usize>)
    ensures
        w == char_width(c),
        (c < ' ' || ('\x7f' <= c && c < '\u{a0}')) <==> w is None,
        (' ' <= c && c < '\x7f') ==> w == Some(1usize),
        w matches Some(n) ==> n <= 3,
{
    c.width()
}

/// The columns `c` takes, a control character taking none.
pub open spec fn cols(c: char) -> nat {
    match char_width(c) {
        Some(w) => w as nat,
        None => 0,
    }
}

/// The characters of the segments, each with its segment's style.
pub open spec fn styled_chars(segs: Seq<(Seq<char>, SegmentStyle)>) -> Seq<(char, SegmentStyle)>
    decreases segs.len(),
{
    if segs.len() == 0 {
        seq![]
    } else {
        styled_chars(segs.drop_last()) + segs.last().0.map_values(|c: char| (c, segs.last().1))
    }
}

/// How many leading characters a horizontal scroll of `scroll` columns
/// hides: characters are hidden while the columns they take, with `acc`
/// columns already hidden, do not pass `scroll`.
pub open spec fn hidden_count(cs: Seq<(char, SegmentStyle)>, scroll: nat, acc: nat) -> nat
    decreases cs.len(),
{
    if cs.len() == 0 || acc + cols(cs[0].0) > scroll {
        0
    } else {
        1 + hidden_count(cs.drop_first(), scroll, acc + cols(cs[0].0))
    }
}

/// Counting the hidden columns in a `u16` would go past `u16::MAX`.
pub open spec fn hidden_overflows(cs: Seq<(char, SegmentStyle)>, scroll: nat, acc: nat) -> bool
    decreases cs.len(),
{
    cs.len() > 0 && (acc + cols(cs[0].0) > u16::MAX || (acc + cols(cs[0].0) <= scroll && hidden_overflows(
        cs.drop_first(),
        scroll,
        acc + cols(cs[0].0),
    )))
}

/// A placement: the column a character lands on, counted from the left of
/// its area, the character and its style.
pub open spec fn placement_view(p: (u16, char, SegmentStyle)) -> (nat, char, SegmentStyle) {
    (p.0 as nat, p.1, p.2)
}

/// Each placement as a column, a character and a style.
pub open spec fn placements_view(v: Seq<(u16, char, SegmentStyle)>) -> Seq<(nat, char, SegmentStyle)> {
    v.map_values(|p: (u16, char, SegmentStyle)| placement_view(p))
}

/// The characters that fit in `max` columns from column `col` on, each at
/// its column; the first that does not fit ends the line.
pub open spec fn placements(cs: Seq<(char, SegmentStyle)>, col: nat, max: nat) -> Seq<(nat, char, SegmentStyle)>
    decreases cs.len(),
{
    if cs.len() == 0 || col + cols(cs[0].0) > max {
        seq![]
    } else {
        seq![(col, cs[0].0, cs[0].1)] + placements(
            cs.drop_first(),
            col + cols(cs[0].0),
            max,
        )
    }
}

/// Counting the columns in a `u16` would go past `u16::MAX`.
pub open spec fn placement_overflows(cs: Seq<(char, SegmentStyle)>, col: nat, max: nat) -> bool
    decreases cs.len(),
{
    cs.len() > 0 && (col + cols(cs[0].0) > u16::MAX || (col + cols(cs[0].0) <= max && placement_overflows(
        cs.drop_first(),
        col + cols(cs[0].0),
        max,
    )))
}

/// Where the characters of the segments land in an area `max_width` columns
/// wide, scrolled `scroll_x` columns to the right.
pub open spec fn visible_placements(segs: Seq<(Seq<char>, SegmentStyle)>, scroll_x: nat, max_width: nat) -> Seq<(nat, char, SegmentStyle)> {
    let cs = styled_chars(segs);
    placements(cs.skip(hidden_count(cs, scroll_x, 0) as int), 0, max_width)
}

/// Drawing the segments counts columns past `u16::MAX`.
pub open spec fn placing_overflows(segs: Seq<(Seq<char>, SegmentStyle)>, scroll_x: nat, max_width: nat) -> bool {
    let cs = styled_chars(segs);
    hidden_overflows(cs, scroll_x, 0) || placement_overflows(cs.skip(hidden_count(cs, scroll_x, 0) as int), 0, max_width)
}

proof fn lemma_placements_fit(cs: Seq<(char, SegmentStyle)>, col: nat, max: nat)
    ensures
        forall|k: int|
            0 <= k < placements(cs, col, max).len() ==> {
                let p = #[trigger] placements(cs, col, max)[k];
                col <= p.0 && p.0 + cols(p.1) <= max
            },
    decreases cs.len(),
{
    if cs.len() > 0 && col + cols(cs[0].0) <= max {
        let rest = placements(cs.drop_first(), col + cols(cs[0].0), max);
        lemma_placements_fit(cs.drop_first(), col + cols(cs[0].0), max);
        assert forall|k: int| 0 <= k < placements(cs, col, max).len() implies {
            let p = #[trigger] placements(cs, col, max)[k];
            col <= p.0 && p.0 + cols(p.1) <= max
        } by {
            if k > 0 {
                assert(placements(cs, col, max)[k] == rest[k - 1]);
            }
        }
    }
}

/// Drawing stays inside the area: every character placed ends at or before
/// the area's width.
pub proof fn lemma_visible_placements_fit(segs: Seq<(Seq<char>, SegmentStyle)>, scroll_x: nat, max_width: nat)
    ensures
        forall|k: int|
            0 <= k < visible_placements(segs, scroll_x, max_width).len() ==> {
                let p = #[trigger] visible_placements(segs, scroll_x, max_width)[k];
                p.0 + cols(p.1) <= max_width
            },
{
    let cs = styled_chars(segs);
    lemma_placements_fit(cs.skip(hidden_count(cs, scroll_x, 0) as int), 0, max_width);
}

fn cols_exec(c: char) -> (n: u32)
    ensures
        n == cols(c),
        n <= 3,
{
    match display_width(c) {
        Some(w) => w as u32,
        None => 0,
    }
}

fn styled_chars_exec(segments: &Vec<StyledSegment>) -> (r: Vec<(char, SegmentStyle)>)
    ensures
        r@ == styled_chars(segments_view(segments@)),
{
    let ghost sv = segments_view(segments@);
    let mut r: Vec<(char, SegmentStyle)> = Vec::new();
    let mut k: usize = 0;
    assert(sv.take(0) =~= Seq::<(Seq<char>, SegmentStyle)>::empty());
    while k < segments.len()
        invariant
            sv == segments_view(segments@),
            k <= segments@.len(),
            r@ == styled_chars(sv.take(k as int)),
        decreases segments.len() - k,
    {
        let seg = &segments[k];
        assert(sv.take(k + 1).drop_last() =~= sv.take(k as int));
        assert(sv.take(k + 1).last() == (seg.text@, seg.style));
        let chars = chars_of(seg.text.as_str());
        let ghost start = r@;
        let mut j: usize = 0;
        while j < chars.len()
            invariant
                j <= chars@.len(),
                r@ == start + chars@.take(j as int).map_values(|c: char| (c, seg.style)),
            decreases chars.len() - j,
        {
            r.push((chars[j], seg.style));
            assert(chars@.take(j + 1).map_values(|c: char| (c, seg.style)) =~= chars@.take(j as int).map_values(
                |c: char| (c, seg.style),
            ).push((chars@[j as int], seg.style)));
            j += 1;
        }
        assert(chars@.take(chars@.len() as int) =~= chars@);
        k += 1;
    }
    assert(sv.take(segments@.len() as int) =~= sv);
    r
}

/// Where the characters of the segments land, or none when counting columns
/// in a `u16` would go past `u16::MAX`.
pub fn checked_placements(segments: &Vec<StyledSegment>, scroll_x: u16, max_width: u16) -> (r: Option<Vec<(u16, char, SegmentStyle)>>)
    ensures
        match r {
            Some(v) => !placing_overflows(segments_view(segments@), scroll_x as nat, max_width as nat) && placements_view(v@) == visible_placements(segments_view(segments@), scroll_x as nat, max_width as nat),
            None => placing_overflows(segments_view(segments@), scroll_x as nat, max_width as nat),
        },
{
    let cs = styled_chars_exec(segments);
    let ghost segv = segments_view(segments@);
    let n = cs.len();
    let ghost sx = scroll_x as nat;
    let ghost mw = max_width as nat;
    // Hidden characters.
    let mut skipped: u32 = 0;
    let mut skip: usize = 0;
    let mut done = false;
    assert(cs@.skip(0) =~= cs@);
    while skip < n && !done
        invariant
            n == cs@.len(),
            cs@ == styled_chars(segv),
            segv == segments_view(segments@),
            sx == scroll_x,
            mw == max_width,
            skip <= n,
            skipped <= scroll_x,
            done ==> skip < n && skipped + cols(cs@[skip as int].0) > sx && skipped + cols(cs@[skip as int].0) <= u16::MAX,
            hidden_count(cs@, sx, 0) == skip + hidden_count(cs@.skip(skip as int), sx, skipped as nat),
            hidden_overflows(cs@, sx, 0) == hidden_overflows(cs@.skip(skip as int), sx, skipped as nat),
        decreases (n - skip) + (if done { 0int } else { 1int }),
    {
        let w = cols_exec(cs[skip].0);
        let ghost t = cs@.skip(skip as int);
        assert(t[0] == cs@[skip as int]);
        assert(t.drop_first() =~= cs@.skip(skip + 1));
        if skipped + w > 0xFFFF {
            assert(hidden_overflows(t, sx, skipped as nat));
            assert(placing_overflows(segv, sx, mw));
            return None;
        }
        if skipped + w > scroll_x as u32 {
            done = true;
        } else {
            skipped = skipped + w;
            skip += 1;
        }
    }
    let ghost rest = cs@.skip(skip as int);
    assert(hidden_count(rest, sx, skipped as nat) == 0);
    assert(!hidden_overflows(rest, sx, skipped as nat));
    assert(hidden_count(cs@, sx, 0) == skip);
    // Visible characters.
    let mut out: Vec<(u16, char, SegmentStyle)> = Vec::new();
    let mut col: u32 = 0;
    let mut k: usize = skip;
    let mut full = false;
    assert(placements_view(out@) + placements(rest, 0, mw) =~= placements(rest, 0, mw));
    assert(rest.skip(0) =~= rest);
    while k < n && !full
        invariant
            n == cs@.len(),
            cs@ == styled_chars(segv),
            segv == segments_view(segments@),
            sx == scroll_x,
            mw == max_width,
            !hidden_overflows(cs@, sx, 0),
            hidden_count(cs@, sx, 0) == skip,
            skip <= k <= n,
            rest == cs@.skip(skip as int),
            col <= max_width,
            full ==> k < n && col + cols(cs@[k as int].0) > mw && col + cols(cs@[k as int].0) <= u16::MAX,
            placements_view(out@) + placements(cs@.skip(k as int), col as nat, mw) == placements(rest, 0, mw),
            placement_overflows(rest, 0, mw) == placement_overflows(cs@.skip(k as int), col as nat, mw),
        decreases (n - k) + (if full { 0int } else { 1int }),
    {
        let (ch, style) = cs[k];
        let w = cols_exec(ch);
        let ghost t = cs@.skip(k as int);
        assert(t[0] == cs@[k as int]);
        assert(t.drop_first() =~= cs@.skip(k + 1));
        if col + w > 0xFFFF {
            assert(placement_overflows(t, col as nat, mw));
            assert(placing_overflows(segv, sx, mw));
            return None;
        }
        if col + w > max_width as u32 {
            full = true;
        } else {
            let cell = (col as u16, ch, style);
            let ghost old_out = out@;
            let ghost prev = placements_view(old_out);
            out.push(cell);
            assert(placement_view(cell) == (col as nat, t[0].0, t[0].1));
            assert(out@ == old_out.push(cell));
            assert(placements_view(out@) =~= prev.push(placement_view(cell)));
            assert(placements(t, col as nat, mw) == seq![placement_view(cell)] + placements(t.drop_first(), (col + w) as nat, mw));
            assert(prev + placements(t, col as nat, mw) =~= placements_view(out@) + placements(cs@.skip(k + 1), (col + w) as nat, mw));
            col = col + w;
            k += 1;
        }
    }
    proof {
        let t = cs@.skip(k as int);
        assert(placements(t, col as nat, mw) == Seq::<(nat, char, SegmentStyle)>::empty());
        assert(placements_view(out@) =~= placements(rest, 0, mw));
        assert(!placement_overflows(t, col as nat, mw));
    }
    Some(out)
}

} // verus!
