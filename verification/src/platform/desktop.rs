//! What a screen shows, as plain values: drawing steps and windows.
use vstd::prelude::*;

verus! {

/// A rectangle: its top left corner, width and height.
#[derive(Clone, Copy, PartialEq, Eq, Structural, Debug)]
pub struct Rect {
    pub x: i32,
    pub y: i32,
    pub w: i32,
    pub h: i32,
}

impl Rect {
    /// The rectangle lies on a screen.
    pub open spec fn fits(self, width: int, height: int) -> bool {
        &&& 0 <= self.x
        &&& 0 <= self.y
        &&& 0 < self.w
        &&& 0 < self.h
        &&& self.x + self.w <= width
        &&& self.y + self.h <= height
    }

    /// The rectangles have no point in common.
    pub open spec fn apart(self, other: Rect) -> bool {
        ||| self.x + self.w <= other.x
        ||| other.x + other.w <= self.x
        ||| self.y + self.h <= other.y
        ||| other.y + other.h <= self.y
    }
}

/// A colour: one of the palette, or the value of a pixel.
#[derive(Clone, Copy, PartialEq, Eq, Structural, Debug)]
pub enum Paint {
    Black,
    White,
    LightGray,
    DarkGray,
    Green,
    BrightGreen,
    BeetPink,
    BeetPurple,
    DesktopBg,
    WindowFrame,
    Pixel(u32),
}

/// A drawing step.
#[derive(Clone, Copy, Debug)]
pub enum Draw<'a> {
    /// The whole screen.
    Clear { paint: Paint },
    FillRect { rect: Rect, paint: Paint },
    StrokeRect { rect: Rect, paint: Paint },
    FillCircle { cx: i32, cy: i32, r: i32, paint: Paint },
    Line { x0: i32, y0: i32, x1: i32, y1: i32, paint: Paint },
    Text { x: i32, y: i32, text: &'a str, fg: Paint, bg: Paint },
}

/// What a window shows.
#[derive(Debug)]
pub enum Content {
    Text(Vec<&'static str>),
    Life,
    Snake,
    Mandelbrot,
    /// A calculator that displays a number.
    Calc(&'static str),
    /// A notepad with a text.
    Notes(&'static str),
}

/// A window.
#[derive(Debug)]
pub struct WindowSpec {
    pub rect: Rect,
    pub title: &'static str,
    pub content: Content,
}

/// A desktop: its windows, back to front, and the one that keys go to.
#[derive(Debug)]
pub struct Desktop {
    pub background: Paint,
    pub windows: Vec<WindowSpec>,
    pub focus: usize,
}

/// The lines of a text window.
pub open spec fn lines_of(c: Content) -> Seq<&'static str> {
    match c {
        Content::Text(v) => v@,
        _ => Seq::empty(),
    }
}

/// A window with lines of text.
pub open spec fn text_window(w: WindowSpec, rect: Rect, title: &'static str, lines: Seq<&'static str>) -> bool {
    w.rect == rect && w.title == title && w.content is Text && lines_of(w.content) == lines
}

} // verus!
