//! Painted text, and how it is laid out on a line.

use vstd::prelude::*;

use crate::text::{left_aligned, pad_end, repeat_char, repeated};

verus! {

// ---- painted text -------------------------------------------------------------

/// The colours of the interface. `Plain` is the colour of the terminal.
#[derive(Clone, Copy, Debug, PartialEq, Eq, Structural)]
pub enum Paint {
    Plain,
    Purple,
    Cyan,
    Green,
    Yellow,
    Red,
    Text,
    Dim,
    Faint,
    Border,
    BorderAlert,
    HeatLow,
    HeatMild,
    HeatHigh,
    HeatPeak,
}

/// The red, green and blue parts of a colour.
pub open spec fn rgb_of(paint: Paint) -> Option<(u8, u8, u8)> {
    match paint {
        Paint::Plain => None,
        Paint::Purple => Some((0xb5, 0x8f, 0xf2)),
        Paint::Cyan => Some((0x56, 0xc9, 0xdf)),
        Paint::Green => Some((0x7b, 0xd8, 0x8f)),
        Paint::Yellow => Some((0xe5, 0xc0, 0x7b)),
        Paint::Red => Some((0xe0, 0x6c, 0x75)),
        Paint::Text => Some((0xc8, 0xd0, 0xdc)),
        Paint::Dim => Some((0x56, 0x60, 0x73)),
        Paint::Faint => Some((0x39, 0x41, 0x4f)),
        Paint::Border => Some((0x27, 0x30, 0x44)),
        Paint::BorderAlert => Some((0x5c, 0x3a, 0x41)),
        Paint::HeatLow => Some((0x48, 0x37, 0x72)),
        Paint::HeatMild => Some((0x6f, 0x4b, 0xa8)),
        Paint::HeatHigh => Some((0x96, 0x6e, 0xd8)),
        Paint::HeatPeak => Some((0xc9, 0xac, 0xff)),
    }
}

/// The red, green and blue parts of a colour; none for the colour of the
/// terminal.
pub fn rgb(paint: Paint) -> (parts: Option<(u8, u8, u8)>)
    ensures
        parts == rgb_of(paint),
{
    match paint {
        Paint::Plain => None,
        Paint::Purple => Some((0xb5, 0x8f, 0xf2)),
        Paint::Cyan => Some((0x56, 0xc9, 0xdf)),
        Paint::Green => Some((0x7b, 0xd8, 0x8f)),
        Paint::Yellow => Some((0xe5, 0xc0, 0x7b)),
        Paint::Red => Some((0xe0, 0x6c, 0x75)),
        Paint::Text => Some((0xc8, 0xd0, 0xdc)),
        Paint::Dim => Some((0x56, 0x60, 0x73)),
        Paint::Faint => Some((0x39, 0x41, 0x4f)),
        Paint::Border => Some((0x27, 0x30, 0x44)),
        Paint::BorderAlert => Some((0x5c, 0x3a, 0x41)),
        Paint::HeatLow => Some((0x48, 0x37, 0x72)),
        Paint::HeatMild => Some((0x6f, 0x4b, 0xa8)),
        Paint::HeatHigh => Some((0x96, 0x6e, 0xd8)),
        Paint::HeatPeak => Some((0xc9, 0xac, 0xff)),
    }
}

/// A piece of text in one colour.
pub struct Span {
    pub text: String,
    pub paint: Paint,
    pub bold: bool,
}

/// What a piece of text holds.
pub struct SpanView {
    pub text: Seq<char>,
    pub paint: Paint,
    pub bold: bool,
}

impl View for Span {
    type V = SpanView;

    open spec fn view(&self) -> SpanView {
        SpanView { text: self.text@, paint: self.paint, bold: self.bold }
    }
}

/// What the pieces of a line hold.
pub open spec fn span_views(spans: Seq<Span>) -> Seq<SpanView> {
    spans.map_values(|span: Span| span@)
}

/// What the lines of a panel hold.
pub open spec fn line_views(lines: Seq<Vec<Span>>) -> Seq<Seq<SpanView>> {
    lines.map_values(|line: Vec<Span>| span_views(line@))
}

/// Text in a colour.
pub open spec fn painted(text: Seq<char>, paint: Paint) -> SpanView {
    SpanView { text, paint, bold: false }
}

/// Bold text in a colour.
pub open spec fn bold(text: Seq<char>, paint: Paint) -> SpanView {
    SpanView { text, paint, bold: true }
}

/// Text in a colour.
pub(crate) fn paint_text(text: String, paint: Paint) -> (span: Span)
    ensures
        span@ == painted(text@, paint),
{
    Span { text, paint, bold: false }
}

/// Text in a colour.
pub(crate) fn paint_str(text: &str, paint: Paint) -> (span: Span)
    ensures
        span@ == painted(text@, paint),
{
    Span { text: text.to_owned(), paint, bold: false }
}

/// Bold text in a colour.
pub(crate) fn paint_bold(text: String, paint: Paint) -> (span: Span)
    ensures
        span@ == bold(text@, paint),
{
    Span { text, paint, bold: true }
}

// ---- layout of a line ---------------------------------------------------------

/// How many terminal columns a text takes.
pub uninterp spec fn display_width(text: Seq<char>) -> usize;

/// Measures a text with `ratatui::text::Span::width`. Nothing is claimed of
/// the width but that the same text always has the same one.
#[verifier::external_body]
fn measure(text: &str) -> (width: usize)
    ensures
        width == display_width(text@),
{
    ratatui::text::Span::raw(text).width()
}

/// How many terminal columns the pieces of a line take.
pub open spec fn total_width(spans: Seq<SpanView>) -> int
    decreases spans.len(),
{
    if spans.len() == 0 {
        0
    } else {
        total_width(spans.drop_last()) + display_width(spans.last().text)
    }
}

/// The blanks between two groups of pieces on a line of this width: as many as
/// are left, but at least one.
pub open spec fn blanks_between(width: int, left: Seq<SpanView>, right: Seq<SpanView>) -> nat {
    let used = total_width(left + right);
    if used + 1 < width {
        (width - used) as nat
    } else {
        1
    }
}

/// Two groups of pieces on one line, the second one aligned to the right.
pub open spec fn columns(width: int, left: Seq<SpanView>, right: Seq<SpanView>) -> Seq<SpanView> {
    left + seq![painted(repeated(' ', blanks_between(width, left, right)), Paint::Plain)] + right
}

/// A label and its value, aligned to the right.
pub open spec fn labelled(width: int, label: Seq<char>, value: Seq<SpanView>) -> Seq<SpanView> {
    columns(width, seq![painted(label, Paint::Dim)], value)
}

/// A label, filled up to its column, and its value.
pub open spec fn listed(label: Seq<char>, value: Seq<char>, paint: Paint) -> Seq<SpanView> {
    seq![painted(left_aligned(label, 19), Paint::Dim), painted(value, paint)]
}

/// The width inside the borders of a panel.
pub open spec fn inner_width(width: u16) -> int {
    if width >= 2 {
        width - 2
    } else {
        0
    }
}

/// How many of `room` columns are left beside the pieces of a line.
fn room_beside(room: usize, spans: &Vec<Span>) -> (left: usize)
    ensures
        left == if total_width(span_views(spans@)) <= room {
            room - total_width(span_views(spans@))
        } else {
            0
        },
{
    let ghost all = span_views(spans@);
    let mut left: usize = room;
    for i in 0..spans.len()
        invariant
            all == span_views(spans@),
            total_width(all.take(i as int)) >= 0,
            left == if total_width(all.take(i as int)) <= room {
                room - total_width(all.take(i as int))
            } else {
                0
            },
    {
        assert(all.take(i + 1).drop_last() == all.take(i as int));
        assert(all.take(i + 1).last() == spans@[i as int]@);
        left = left.saturating_sub(measure(spans[i].text.as_str()));
    }
    assert(all.take(all.len() as int) == all);
    left
}

proof fn lemma_total_width_adds(left: Seq<SpanView>, right: Seq<SpanView>)
    ensures
        total_width(left + right) == total_width(left) + total_width(right),
        total_width(left) >= 0,
    decreases left.len() + right.len(),
{
    if right.len() == 0 {
        assert(left + right == left);
        if left.len() > 0 {
            lemma_total_width_adds(left.drop_last(), right);
        }
    } else {
        lemma_total_width_adds(left, right.drop_last());
        assert((left + right).drop_last() == left + right.drop_last());
    }
}

/// Two groups of pieces on one line, the second one aligned to the right.
pub fn two_columns(width: u16, left: Vec<Span>, right: Vec<Span>) -> (line: Vec<Span>)
    ensures
        span_views(line@) == columns(width as int, span_views(left@), span_views(right@)),
{
    let room: usize = room_beside(width as usize, &left);
    let blanks: usize = room_beside(room, &right);
    proof {
        lemma_total_width_adds(span_views(left@), span_views(right@));
        lemma_total_width_adds(span_views(right@), Seq::empty());
    }
    let pad: usize = if blanks > 1 {
        blanks
    } else {
        1
    };
    let ghost start = span_views(left@);
    let ghost end = span_views(right@);
    let mut line = left;
    let mut rest = right;
    let gap = paint_text(repeat_char(' ', pad), Paint::Plain);
    line.push(gap);
    assert(span_views(line@) == start.push(gap@));
    line.append(&mut rest);
    assert(span_views(line@) == start.push(gap@) + end);
    line
}

/// The width inside the borders of a panel.
pub(crate) fn inside(width: u16) -> (inner: u16)
    ensures
        inner == inner_width(width),
{
    width.saturating_sub(2)
}

/// A label and its value, aligned to the right.
pub fn kv_row(width: u16, label: &str, value: Vec<Span>) -> (line: Vec<Span>)
    ensures
        span_views(line@) == labelled(width as int, label@, span_views(value@)),
{
    let left = vec![paint_str(label, Paint::Dim)];
    assert(span_views(left@) == seq![painted(label@, Paint::Dim)]);
    two_columns(width, left, value)
}

/// A label, filled up to its column, and its value.
pub fn kv_line(label: &str, value: String, paint: Paint) -> (line: Vec<Span>)
    ensures
        span_views(line@) == listed(label@, value@, paint),
{
    let line = vec![paint_text(pad_end(label, 19), Paint::Dim), paint_text(value, paint)];
    assert(span_views(line@) == listed(label@, value@, paint));
    line
}

// ---- laws ---------------------------------------------------------------------

/// No two colours look the same.
pub proof fn colours_differ(a: Paint, b: Paint)
    requires
        a != b,
    ensures
        rgb_of(a) != rgb_of(b),
{
}

/// The pieces of a line take the columns of each of them.
pub proof fn widths_add_up(spans: Seq<SpanView>, text: Seq<char>, paint: Paint, other: Seq<SpanView>)
    ensures
        total_width(Seq::empty()) == 0,
        total_width(spans.push(painted(text, paint))) == total_width(spans) + display_width(text),
        total_width(spans.push(bold(text, paint))) == total_width(spans) + display_width(text),
        total_width(spans + other) == total_width(spans) + total_width(other),
{
    assert(spans.push(painted(text, paint)).drop_last() == spans);
    assert(spans.push(bold(text, paint)).drop_last() == spans);
    lemma_total_width_adds(spans, other);
}

/// A line in two columns holds the one group, as many blanks as are left of its
/// width, and the other group; one blank where there is no room.
pub proof fn columns_are_filled_with_blanks(
    width: int,
    left: Seq<SpanView>,
    right: Seq<SpanView>,
    blanks: Seq<char>,
)
    requires
        forall|i: int| 0 <= i < blanks.len() ==> (#[trigger] blanks[i]) == ' ',
        blanks.len() >= 1,
        total_width(left) + total_width(right) + blanks.len() == width || (blanks.len() == 1
            && total_width(left) + total_width(right) >= width),
    ensures
        columns(width, left, right) == left.push(
            SpanView { text: blanks, paint: Paint::Plain, bold: false },
        ) + right,
{
    lemma_total_width_adds(left, right);
    assert(repeated(' ', blanks.len()) == blanks);
    let gap = painted(blanks, Paint::Plain);
    assert(left + seq![gap] == left.push(gap));
}

/// The text, the colour and the weight of a piece are those that were asked for.
pub proof fn pieces_keep_their_text(text: Seq<char>, paint: Paint)
    ensures
        painted(text, paint).text == text && bold(text, paint).text == text,
        painted(text, paint).paint == paint && bold(text, paint).paint == paint,
        !painted(text, paint).bold && bold(text, paint).bold,
{
}

/// The colours by their codes.
pub proof fn colours_have_their_codes(paint: Paint)
    ensures
        ({
            let code: int = match paint {
                Paint::Plain => 0,
                Paint::Purple => 0xb58ff2,
                Paint::Cyan => 0x56c9df,
                Paint::Green => 0x7bd88f,
                Paint::Yellow => 0xe5c07b,
                Paint::Red => 0xe06c75,
                Paint::Text => 0xc8d0dc,
                Paint::Dim => 0x566073,
                Paint::Faint => 0x39414f,
                Paint::Border => 0x273044,
                Paint::BorderAlert => 0x5c3a41,
                Paint::HeatLow => 0x483772,
                Paint::HeatMild => 0x6f4ba8,
                Paint::HeatHigh => 0x966ed8,
                Paint::HeatPeak => 0xc9acff,
            };
            match rgb_of(paint) {
                Some((red, green, blue)) => 0x10000 * red + 0x100 * green + blue == code,
                None => paint == Paint::Plain,
            }
        }),
{
}

} // verus!
