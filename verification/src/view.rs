//! The modal-view contract and the help overlay that implements it.

use crate::content::{
    body_matches, body_view, build_body_lines, entries_newline_free, entries_view,
    lemma_body_newline_free, lemma_body_unique, no_newline, CommandEntry,
};
use crate::keys::{next_complete, KeyPress};
use crate::tui::{
    bold_line, buffer_area, buffer_rows, line_align, line_emph, line_text, line_view_fn,
    paint_body, painted, plain_line,
};
use ratatui::buffer::Buffer;
use ratatui::layout::Rect;
use ratatui::text::Line;
use vstd::prelude::*;

verus! {

/// The contract any overlay must satisfy: render itself into a region,
/// report whether it is finished, report how many rows it needs, and consume
/// a keyboard event. Completion is monotone: once an overlay reports itself
/// complete, it stays complete.
pub trait ModalView: Sized {
    /// Whether the overlay should be discarded by its container.
    spec fn complete_view(&self) -> bool;

    /// The states on which the overlay's operations are defined.
    spec fn wf(&self) -> bool;

    /// Consumes one keyboard event; may only move the overlay towards
    /// completion, never away from it.
    fn handle_key_event(&mut self, key: KeyPress)
        ensures
            old(self).wf() ==> final(self).wf(),
            old(self).complete_view() ==> final(self).complete_view(),
    ;

    /// Pure query of the completion flag.
    fn is_complete(&self) -> (r: bool)
        ensures
            r == self.complete_view(),
    ;

    /// How many rows the overlay needs before it is allocated a region.
    fn calculate_required_height(&self, area: &Rect) -> (rows: u16)
        requires
            self.wf(),
    ;

    /// Paints the overlay into `buf` within `area`.
    fn render(&self, area: Rect, buf: &mut Buffer);
}

/// Rendering is deterministic: the body a command set admits is unique, so
/// the painter's image of it over equal starting grids is the same — two
/// renders in succession with an unchanged command set paint identically.
pub proof fn lemma_render_deterministic(
    cmds: Seq<(Seq<char>, Seq<char>)>,
    before: Seq<Seq<char>>,
    base: Rect,
    area: Rect,
    b1: Seq<(Seq<char>, bool)>,
    b2: Seq<(Seq<char>, bool)>,
)
    requires
        body_matches(cmds, b1),
        body_matches(cmds, b2),
    ensures
        painted(before, base, area, b1) == painted(before, base, area, b2),
{
    lemma_body_unique(cmds, b1, b2);
}

/// The help overlay: a fixed shortcuts block plus one line per
/// slash-command, dismissed by Escape, `q` or `Q`.
pub struct HelpModalView {
    is_complete: bool,
    commands: Vec<CommandEntry>,
}

impl HelpModalView {
    /// The (name, description) pairs the overlay was created with.
    pub closed spec fn commands_view(&self) -> Seq<(Seq<char>, Seq<char>)> {
        entries_view(self.commands@)
    }

    /// A fresh overlay: still active, showing the given command set.
    pub fn new(commands: Vec<CommandEntry>) -> (r: HelpModalView)
        requires
            commands@.len() + 4 <= u16::MAX,
        ensures
            !r.complete_view(),
            r.wf(),
            r.commands_view() == entries_view(commands@),
    {
        HelpModalView { is_complete: false, commands }
    }
}

impl ModalView for HelpModalView {
    closed spec fn complete_view(&self) -> bool {
        self.is_complete
    }

    closed spec fn wf(&self) -> bool {
        self.commands@.len() + 4 <= u16::MAX
    }

    /// Escape, `q` and `Q` complete the overlay; every other key leaves it
    /// exactly as it was.
    fn handle_key_event(&mut self, key: KeyPress)
        ensures
            final(self).complete_view() == next_complete(old(self).complete_view(), key),
            final(self).commands_view() == old(self).commands_view(),
    {
        match key {
            KeyPress::Esc => {
                self.is_complete = true;
            },
            KeyPress::Char(c) => {
                if c == 'q' || c == 'Q' {
                    self.is_complete = true;
                }
            },
            KeyPress::Other => {},
        }
    }

    fn is_complete(&self) -> (r: bool) {
        self.is_complete
    }

    /// One row per command plus four: the title, one blank separator, the
    /// slash-commands header and a constant of one. The supplied area plays
    /// no part in the result.
    fn calculate_required_height(&self, _area: &Rect) -> (rows: u16)
        ensures
            rows == self.commands_view().len() + 4,
    {
        let n = self.commands.len() as u16;
        n + 4
    }

    /// Recomputes the body fresh, then paints it. The buffer keeps its
    /// region and row count, rows outside `area` keep their characters, a
    /// zero-sized area changes nothing, and — for command sets free of line
    /// breaks — the characters written are the painter's image of a body
    /// that `body_matches` fixes uniquely, so repeated calls paint the same.
    fn render(&self, area: Rect, buf: &mut Buffer)
        ensures
            buffer_area(*final(buf)) == buffer_area(*old(buf)),
            buffer_rows(*final(buf)).len() == buffer_rows(*old(buf)).len(),
            area.width == 0 || area.height == 0 ==> buffer_rows(*final(buf)) == buffer_rows(
                *old(buf),
            ),
            forall|r: int|
                0 <= r < buffer_rows(*old(buf)).len() && (buffer_area(*old(buf)).y + r < area.y
                    || buffer_area(*old(buf)).y + r >= area.y + area.height)
                    ==> #[trigger] buffer_rows(*final(buf))[r] == buffer_rows(*old(buf))[r],
            entries_newline_free(self.commands_view()) ==> (exists|b: Seq<(Seq<char>, bool)>|
                #[trigger] body_matches(self.commands_view(), b) && buffer_rows(*final(buf))
                    == painted(buffer_rows(*old(buf)), buffer_area(*old(buf)), area, b)),
    {
        let body = build_body_lines(&self.commands);
        let mut lines: Vec<Line<'static>> = Vec::new();
        let mut i: usize = 0;
        while i < body.len()
            invariant
                i <= body@.len(),
                lines@.len() == i,
                body_matches(self.commands_view(), body_view(body@)),
                forall|k: int|
                    0 <= k < i ==> line_align(#[trigger] lines@[k]) == 0 && line_emph(lines@[k])
                        == body@[k].emph,
                forall|k: int|
                    0 <= k < i ==> no_newline((#[trigger] body@[k]).text@) ==> line_text(
                        lines@[k],
                    ) == body@[k].text@,
            decreases body@.len() - i,
        {
            let text = body[i].text.clone();
            if body[i].emph {
                lines.push(bold_line(text));
            } else {
                lines.push(plain_line(text));
            }
            i = i + 1;
        }
        proof {
            if entries_newline_free(self.commands_view()) {
                lemma_body_newline_free(self.commands_view(), body_view(body@));
                assert forall|k: int| 0 <= k < lines@.len() implies #[trigger] lines@.map_values(
                    line_view_fn(),
                )[k] == body_view(body@)[k] by {
                    assert(no_newline(body_view(body@)[k].0));
                    assert(body_view(body@)[k] == (body@[k].text@, body@[k].emph));
                }
                assert(lines@.map_values(line_view_fn()) =~= body_view(body@));
            }
        }
        paint_body(lines, area, buf);
    }
}

} // verus!
