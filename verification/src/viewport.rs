//! Keeping the focused node in view.
//!
//! Positions and sizes are whole pixels. The document is moved by a scroll
//! offset that is never positive and never passes the point where the end
//! of the content meets the end of the viewport.

use vstd::prelude::*;

verus! {

/// How far one step of following the focus scrolls.
pub const SCROLL_STEP: i64 = 12;

/// A request to scroll by a signed distance.
#[derive(Clone, Copy, PartialEq, Eq, Debug)]
pub struct Scroll(pub i64);

/// The scroll offset of the document.
#[derive(Clone, Copy, PartialEq, Eq, Debug)]
pub struct ScrollPosition(i64);

impl View for ScrollPosition {
    type V = int;

    closed spec fn view(&self) -> int {
        self.0 as int
    }
}

/// The scroll that brings the focus back: one step forward where the focus
/// lies before the top bound moved by the margin, one step back where it
/// lies past the bottom bound moved by the margin, none in between.
pub open spec fn follow(position: int, top: int, bottom: int, margin: int) -> Option<int> {
    if position < top + margin {
        Some(SCROLL_STEP as int)
    } else if position > bottom + margin {
        Some(-SCROLL_STEP)
    } else {
        None
    }
}

/// The farthest that content of height `content` scrolls in a viewport of
/// height `viewport`.
pub open spec fn max_scroll(content: int, viewport: int) -> int {
    if content > viewport {
        content - viewport
    } else {
        0
    }
}

/// The offset after scrolling by `delta`, held within what the content
/// allows: between `-max_scroll` and 0.
pub open spec fn scrolled(offset: int, delta: int, content: int, viewport: int) -> int {
    let moved = offset + delta;
    let low = -max_scroll(content, viewport);
    if moved < low {
        low
    } else if moved > 0 {
        0
    } else {
        moved
    }
}

/// Decides whether the view has to follow the focus, from the vertical
/// position of the focused node and the bounds of the viewport.
pub fn keep_cursor_in_view(position: i64, top: i64, bottom: i64, margin: i64) -> (delta: Option<
    Scroll,
>)
    ensures
        match delta {
            Some(scroll) => follow(position as int, top as int, bottom as int, margin as int)
                == Some(scroll.0 as int),
            None => follow(position as int, top as int, bottom as int, margin as int) is None,
        },
{
    let at: i128 = position as i128;
    if at < top as i128 + margin as i128 {
        Some(Scroll(SCROLL_STEP))
    } else if at > bottom as i128 + margin as i128 {
        Some(Scroll(-SCROLL_STEP))
    } else {
        None
    }
}

impl ScrollPosition {
    /// The offset that shows the start of the content.
    pub fn new() -> (position: ScrollPosition)
        ensures
            position@ == 0,
    {
        ScrollPosition(0)
    }

    pub fn get(&self) -> (offset: i64)
        ensures
            offset == self@,
    {
        self.0
    }

    /// Adds a scroll to the offset and holds the result within what the
    /// content allows.
    pub fn scroll(&mut self, delta: Scroll, content_height: u32, viewport_height: u32)
        ensures
            final(self)@ == scrolled(
                old(self)@,
                delta.0 as int,
                content_height as int,
                viewport_height as int,
            ),
    {
        let low: i128 = if content_height > viewport_height {
            -((content_height - viewport_height) as i128)
        } else {
            0
        };
        let moved: i128 = self.0 as i128 + delta.0 as i128;
        if moved < low {
            self.0 = low as i64;
        } else if moved > 0 {
            self.0 = 0;
        } else {
            self.0 = moved as i64;
        }
    }
}

} // verus!
