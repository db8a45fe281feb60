//! Turning mouse movements on a shared canvas into line segments.

use vstd::prelude::*;

verus! {

/// The width of every line drawn.
pub const WIDTH: u16 = 3;

/// A point of the canvas, in whole pixels.
#[derive(Clone, Copy, PartialEq, Eq, Structural, Debug)]
pub struct Point {
    pub x: u16,
    pub y: u16,
}

impl Point {
    pub fn new(x: u16, y: u16) -> (p: Self)
        ensures
            p == (Point { x, y }),
    {
        Point { x, y }
    }
}

/// A segment to draw.
#[derive(Clone, Copy, PartialEq, Eq, Structural, Debug)]
pub struct Line {
    pub from: Point,
    pub to: Point,
    pub width: u16,
}

impl Line {
    pub fn new(from: Point, to: Point, width: u16) -> (l: Self)
        ensures
            l == (Line { from, to, width }),
    {
        Line { from, to, width }
    }
}

/// Whether the mouse button is down, and where the pointer was last seen
/// while it was.
#[derive(Clone, Copy, PartialEq, Eq, Structural, Debug)]
pub struct DrawingState {
    pub held: bool,
    pub previous: Option<Point>,
}

impl DrawingState {
    pub fn new() -> (s: Self)
        ensures
            s == (DrawingState { held: false, previous: None }),
    {
        DrawingState { held: false, previous: None }
    }

    /// The button goes down.
    pub fn hold(&mut self)
        ensures
            *final(self) == (DrawingState { held: true, previous: old(self).previous }),
    {
        self.held = true;
    }

    /// The button comes up: the stroke ends.
    pub fn release(&mut self)
        ensures
            *final(self) == (DrawingState { held: false, previous: None }),
    {
        self.held = false;
        self.previous = None;
    }

    pub fn held(&self) -> (h: bool)
        ensures
            h == self.held,
    {
        self.held
    }

    /// The pointer moves to `next`: while the button is down it is noted,
    /// and the segment from the point noted before, if any, is drawn.
    pub fn line(&mut self, next: Point) -> (l: Option<Line>)
        ensures
            !old(self).held ==> l is None && *final(self) == *old(self),
            old(self).held ==> *final(self) == (DrawingState { held: true, previous: Some(next) })
                && l == (match old(self).previous {
                Some(p) => Some(Line { from: p, to: next, width: WIDTH }),
                None => None,
            }),
    {
        if !self.held() {
            return None;
        }
        let previous = self.previous;
        self.previous = Some(next);
        match previous {
            Some(p) => Some(Line::new(p, next, WIDTH)),
            None => None,
        }
    }
}

} // verus!
