//! Trusted declarations of the terminal-drawing types and calls the overlay
//! paints through. Everything the overlay decides (which lines, in which
//! order, which of them emphasized) is computed by verified code before
//! these are reached; what a built line and a painted buffer hold is given
//! names here, so that the render path can carry an exact contract.

use crate::content::no_newline;
use ratatui::buffer::Buffer;
use ratatui::layout::Rect;
use ratatui::style::{Color, Modifier, Style};
use ratatui::text::{Line, Span};
use ratatui::widgets::{Block, BorderType, Borders, Paragraph, Widget};
use vstd::prelude::*;

verus! {

#[verifier::external_type_specification]
pub struct ExRect(Rect);

#[verifier::external_type_specification]
#[verifier::external_body]
pub struct ExBuffer(Buffer);

#[verifier::external_type_specification]
#[verifier::external_body]
pub struct ExLine<'a>(Line<'a>);

/// The characters a display line shows.
pub uninterp spec fn line_text(l: Line<'static>) -> Seq<char>;

/// Whether a display line is emphasized (bold).
pub uninterp spec fn line_emph(l: Line<'static>) -> bool;

/// A display line's alignment override; 0 stands for none.
pub uninterp spec fn line_align(l: Line<'static>) -> u8;

/// The grid of characters a buffer shows, one entry per cell row.
pub uninterp spec fn buffer_rows(b: Buffer) -> Seq<Seq<char>>;

/// The region a buffer covers.
pub uninterp spec fn buffer_area(b: Buffer) -> Rect;

/// What the paragraph painter leaves in a buffer: a function of the prior
/// grid, the buffer's own region, the target region, and the (text,
/// emphasis) content of the unaligned lines painted into it.
pub uninterp spec fn painted(
    before: Seq<Seq<char>>,
    base: Rect,
    area: Rect,
    lines: Seq<(Seq<char>, bool)>,
) -> Seq<Seq<char>>;

/// The (text, emphasis) content of one display line, as a relation value.
pub open spec fn line_view_fn() -> spec_fn(Line<'static>) -> (Seq<char>, bool) {
    |l: Line<'static>| (line_text(l), line_emph(l))
}

/// Relies on ratatui's `Line::from(String)`: one unemphasized, unaligned
/// display line; the text survives verbatim when it holds no line break
/// (the constructor splits its input on line breaks).
#[verifier::external_body]
pub(crate) fn plain_line(text: String) -> (r: Line<'static>)
    ensures
        !line_emph(r),
        line_align(r) == 0,
        no_newline(text@) ==> line_text(r) == text@,
{
    Line::from(text)
}

/// Relies on ratatui's `Span::styled` and `Line::from(Vec<Span>)`: one
/// emphasized (bold), unaligned display line holding exactly the given
/// text, in the overlay's colors.
#[verifier::external_body]
pub(crate) fn bold_line(text: String) -> (r: Line<'static>)
    ensures
        line_emph(r),
        line_align(r) == 0,
        line_text(r) == text@,
{
    let style = Style::default().bg(Color::Blue).fg(Color::White).add_modifier(Modifier::BOLD);
    Line::from(Span::styled(text, style))
}

/// Relies on ratatui's `Paragraph::render`: paints the given lines, top to
/// bottom, into `buf` within `area`, behind a rounded border titled
/// "Press esc or q to close", in the overlay's colors. The widget clips
/// every write to `area`, so rows outside it keep their characters, a
/// zero-sized area changes nothing, and the buffer keeps its region and
/// row count; for unaligned lines the characters written are a function of
/// the prior grid, the two regions and the lines' content alone (`painted`).
#[verifier::external_body]
pub(crate) fn paint_body(lines: Vec<Line<'static>>, area: Rect, buf: &mut Buffer)
    requires
        forall|k: int| 0 <= k < lines@.len() ==> line_align(#[trigger] lines@[k]) == 0,
    ensures
        buffer_area(*final(buf)) == buffer_area(*old(buf)),
        buffer_rows(*final(buf)).len() == buffer_rows(*old(buf)).len(),
        area.width == 0 || area.height == 0 ==> buffer_rows(*final(buf)) == buffer_rows(
            *old(buf),
        ),
        forall|r: int|
            0 <= r < buffer_rows(*old(buf)).len() && (buffer_area(*old(buf)).y + r < area.y
                || buffer_area(*old(buf)).y + r >= area.y + area.height) ==> #[trigger] buffer_rows(
                *final(buf),
            )[r] == buffer_rows(*old(buf))[r],
        buffer_rows(*final(buf)) == painted(
            buffer_rows(*old(buf)),
            buffer_area(*old(buf)),
            area,
            lines@.map_values(line_view_fn()),
        ),
{
    let style = Style::default().bg(Color::Blue).fg(Color::White);
    let block = Block::default()
        .title("Press esc or q to close")
        .borders(Borders::ALL)
        .border_type(BorderType::Rounded)
        .style(style);
    Paragraph::new(lines).block(block).style(style).render(area, buf);
}

} // verus!
