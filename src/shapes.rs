//! Shapes with stroke and fill, their conversion to drawable primitives,
//! and the path builder.
//!
//! Shapes are generic over the point type, so that each generator's lattice
//! points can be carried as they are.
use vstd::prelude::*;

verus! {

/// A color: hue as the fraction `hue_num / hue_den` of the full circle of
/// hues; saturation, lightness and alpha in percent.
#[derive(Clone, Copy, Debug, PartialEq, Eq, Structural)]
pub struct Color {
    pub hue_num: u32,
    pub hue_den: u32,
    pub saturation: u8,
    pub lightness: u8,
    pub alpha: u8,
}

pub open spec fn white_spec() -> Color {
    Color { hue_num: 0, hue_den: 1, saturation: 0, lightness: 100, alpha: 100 }
}

pub open spec fn transparent_black_spec() -> Color {
    Color { hue_num: 0, hue_den: 1, saturation: 0, lightness: 0, alpha: 0 }
}

/// Opaque white.
pub fn white() -> (r: Color)
    ensures
        r == white_spec(),
{
    Color { hue_num: 0, hue_den: 1, saturation: 0, lightness: 100, alpha: 100 }
}

/// Fully transparent black.
pub fn transparent_black() -> (r: Color)
    ensures
        r == transparent_black_spec(),
{
    Color { hue_num: 0, hue_den: 1, saturation: 0, lightness: 0, alpha: 0 }
}

/// The outline of a shape: width in lattice units and color. Width zero
/// draws no outline.
#[derive(Clone, Copy, Debug, PartialEq, Eq, Structural)]
pub struct Stroke {
    pub width: u32,
    pub color: Color,
}

/// A stroke of width one in the given color.
impl From<Color> for Stroke {
    fn from(color: Color) -> Stroke {
        Stroke { width: 1, color }
    }
}

impl vstd::std_specs::convert::FromSpecImpl<Color> for Stroke {
    open spec fn obeys_from_spec() -> bool {
        true
    }

    open spec fn from_spec(v: Color) -> Stroke {
        Stroke { width: 1, color: v }
    }
}

/// The default stroke: width one, white.
pub open spec fn default_stroke() -> Stroke {
    Stroke { width: 1, color: white_spec() }
}

/// An axis-aligned square region, placed by its center or by its top-left
/// corner.
#[derive(Clone, Copy, Debug, PartialEq, Eq)]
pub enum Bounds<P> {
    Centered { center: P, size: u64 },
    FromTopLeft { origin: P, size: u64 },
}

/// A filled, outlined square with rounded corners.
#[derive(Clone, Copy, Debug, PartialEq, Eq)]
pub struct Quad<P> {
    pub bounds: Bounds<P>,
    pub corner_radius: u64,
    pub background: Color,
    pub border_width: u32,
    pub border_color: Color,
}

/// A circle, drawn as a quad whose corners are rounded all the way.
#[derive(Clone, Copy, Debug, PartialEq, Eq)]
pub struct Circle<P> {
    pub fill: Color,
    pub position: P,
    pub size: u64,
    pub stroke: Stroke,
}

/// A single pixel at integer coordinates.
#[derive(Clone, Copy, Debug, PartialEq, Eq)]
pub struct Pixel<P> {
    pub position: P,
    pub color: Color,
}

/// A straight line.
#[derive(Clone, Copy, Debug, PartialEq, Eq)]
pub struct Line<P> {
    pub start: P,
    pub end: P,
    pub stroke: Stroke,
}

/// A triangle outline.
#[derive(Clone, Copy, Debug, PartialEq, Eq)]
pub struct Triangle<P> {
    pub p1: P,
    pub p2: P,
    pub p3: P,
    pub stroke: Stroke,
}

/// Largest radius that `Circle::new` accepts.
pub const MAX_RADIUS: u64 = 0x7fff_ffff_ffff_ffff;

/// A circle of the given radius around `position`: white outline of width
/// one, transparent fill.
pub fn circle<P>(radius: u64, position: P) -> (r: Circle<P>)
    requires
        radius <= MAX_RADIUS,
    ensures
        r == Circle::new_spec(radius, position),
{
    Circle::new(radius, position)
}

/// A white pixel at `position`.
pub fn pixel<P>(position: P) -> (r: Pixel<P>)
    ensures
        r == (Pixel { position, color: white_spec() }),
{
    Pixel::new(position)
}

/// A white line of width one from `start` to `end`.
pub fn line<P>(start: P, end: P) -> (r: Line<P>)
    ensures
        r == (Line { start, end, stroke: default_stroke() }),
{
    Line::new(start, end)
}

/// A white triangle outline of width one through the three points.
pub fn triangle<P>(p1: P, p2: P, p3: P) -> (r: Triangle<P>)
    ensures
        r == (Triangle { p1, p2, p3, stroke: default_stroke() }),
{
    Triangle::new(p1, p2, p3)
}

impl<P> Circle<P> {
    pub open spec fn new_spec(radius: u64, position: P) -> Circle<P> {
        Circle {
            fill: transparent_black_spec(),
            position,
            size: (2 * radius) as u64,
            stroke: default_stroke(),
        }
    }

    pub fn new(radius: u64, position: P) -> (r: Circle<P>)
        requires
            radius <= MAX_RADIUS,
        ensures
            r == Self::new_spec(radius, position),
    {
        let stroke: Stroke = Stroke::from(white());
        Circle { stroke, fill: transparent_black(), size: radius * 2, position }
    }

    pub fn stroke_width(self, width: u32) -> (r: Circle<P>)
        ensures
            r == (Circle { stroke: Stroke { width, ..self.stroke }, ..self }),
    {
        let mut c = self;
        c.stroke.width = width;
        c
    }

    pub fn stroke_color(self, color: Color) -> (r: Circle<P>)
        ensures
            r == (Circle { stroke: Stroke { color, ..self.stroke }, ..self }),
    {
        let mut c = self;
        c.stroke.color = color;
        c
    }

    pub fn fill(self, fill: Color) -> (r: Circle<P>)
        ensures
            r == (Circle { fill, ..self }),
    {
        let mut c = self;
        c.fill = fill;
        c
    }

    /// Removes the outline: width zero, transparent.
    pub fn no_stroke(self) -> (r: Circle<P>)
        ensures
            r == (Circle { stroke: Stroke { width: 0, color: transparent_black_spec() }, ..self }),
    {
        let mut c = self;
        c.stroke = Stroke { width: 0, color: transparent_black() };
        c
    }
}

impl<P: Copy> Circle<P> {
    /// The quad centered at the circle's position, as wide as the circle,
    /// with corners rounded by half its size.
    pub fn quad(&self) -> (r: Quad<P>)
        ensures
            r == (Quad {
                bounds: Bounds::Centered { center: self.position, size: self.size },
                corner_radius: (self.size / 2) as u64,
                background: self.fill,
                border_width: self.stroke.width,
                border_color: self.stroke.color,
            }),
    {
        Quad {
            bounds: Bounds::Centered { center: self.position, size: self.size },
            corner_radius: self.size / 2,
            background: self.fill,
            border_width: self.stroke.width,
            border_color: self.stroke.color,
        }
    }
}

impl<P> Pixel<P> {
    pub fn new(position: P) -> (r: Pixel<P>)
        ensures
            r == (Pixel { position, color: white_spec() }),
    {
        Pixel { position, color: white() }
    }

    pub fn color(self, color: Color) -> (r: Pixel<P>)
        ensures
            r == (Pixel { color, ..self }),
    {
        let mut p = self;
        p.color = color;
        p
    }
}

impl<P: Copy> Pixel<P> {
    /// The unit square whose top-left corner is the pixel's position, filled
    /// with its color, without outline.
    pub fn quad(&self) -> (r: Quad<P>)
        ensures
            r == (Quad {
                bounds: Bounds::FromTopLeft { origin: self.position, size: 1 },
                corner_radius: 0,
                background: self.color,
                border_width: 0,
                border_color: transparent_black_spec(),
            }),
    {
        Quad {
            bounds: Bounds::FromTopLeft { origin: self.position, size: 1 },
            corner_radius: 0,
            background: self.color,
            border_width: 0,
            border_color: transparent_black(),
        }
    }
}

impl<P> Line<P> {
    pub fn new(start: P, end: P) -> (r: Line<P>)
        ensures
            r == (Line { start, end, stroke: default_stroke() }),
    {
        Line { start, end, stroke: Stroke::from(white()) }
    }

    pub fn stroke_width(self, width: u32) -> (r: Line<P>)
        ensures
            r == (Line { stroke: Stroke { width, ..self.stroke }, ..self }),
    {
        let mut l = self;
        l.stroke.width = width;
        l
    }

    pub fn stroke_color(self, color: Color) -> (r: Line<P>)
        ensures
            r == (Line { stroke: Stroke { color, ..self.stroke }, ..self }),
    {
        let mut l = self;
        l.stroke.color = color;
        l
    }
}

impl<P: Copy> Line<P> {
    /// The line as a path from its start to its end, with its stroke
    /// color.
    pub fn paint(&self) -> (r: (Path<P>, Color))
        ensures
            r.0@ == (seq![PathCommand::MoveTo(self.start), PathCommand::LineTo(self.end)], self.stroke.width),
            r.1 == self.stroke.color,
    {
        let mut b = PathBuilder::new(self.stroke.width);
        b.move_to(self.start);
        b.line_to(self.end);
        let path = b.build().unwrap();
        (path, self.stroke.color)
    }
}

impl<P> Triangle<P> {
    pub fn new(p1: P, p2: P, p3: P) -> (r: Triangle<P>)
        ensures
            r == (Triangle { p1, p2, p3, stroke: default_stroke() }),
    {
        Triangle { p1, p2, p3, stroke: Stroke::from(white()) }
    }

    pub fn stroke_width(self, width: u32) -> (r: Triangle<P>)
        ensures
            r == (Triangle { stroke: Stroke { width, ..self.stroke }, ..self }),
    {
        let mut t = self;
        t.stroke.width = width;
        t
    }

    pub fn stroke_color(self, color: Color) -> (r: Triangle<P>)
        ensures
            r == (Triangle { stroke: Stroke { color, ..self.stroke }, ..self }),
    {
        let mut t = self;
        t.stroke.color = color;
        t
    }
}

impl<P: Copy> Triangle<P> {
    /// The outline as a closed path through the three corners and back to
    /// the first, with its stroke color.
    pub fn paint(&self) -> (r: (Path<P>, Color))
        ensures
            r.0@ == (
                seq![
                    PathCommand::MoveTo(self.p1),
                    PathCommand::LineTo(self.p2),
                    PathCommand::LineTo(self.p3),
                    PathCommand::LineTo(self.p1),
                ],
                self.stroke.width,
            ),
            r.1 == self.stroke.color,
    {
        let mut b = PathBuilder::new(self.stroke.width);
        b.move_to(self.p1);
        b.line_to(self.p2);
        b.line_to(self.p3);
        b.line_to(self.p1);
        let path = b.build().unwrap();
        (path, self.stroke.color)
    }
}

/// One drawing command of a path.
#[derive(Clone, Copy, Debug, PartialEq, Eq)]
pub enum PathCommand<P> {
    /// Lifts the pen and puts it down at the point.
    MoveTo(P),
    /// Draws a straight line from the pen's position to the point.
    LineTo(P),
    /// Draws a straight line back to the point of the last `MoveTo`.
    Close,
}

/// A finished path: its commands in order and its stroke width. It cannot
/// be changed once built.
pub struct Path<P> {
    commands: Vec<PathCommand<P>>,
    width: u32,
}

impl<P> View for Path<P> {
    type V = (Seq<PathCommand<P>>, u32);

    closed spec fn view(&self) -> (Seq<PathCommand<P>>, u32) {
        (self.commands@, self.width)
    }
}

impl<P> Path<P> {
    pub fn commands(&self) -> (r: &Vec<PathCommand<P>>)
        ensures
            r@ == self@.0,
    {
        &self.commands
    }

    pub fn width(&self) -> (r: u32)
        ensures
            r == self@.1,
    {
        self.width
    }
}

/// Collects the commands of a path; `build` consumes it.
pub struct PathBuilder<P> {
    commands: Vec<PathCommand<P>>,
    width: u32,
}

impl<P> View for PathBuilder<P> {
    type V = (Seq<PathCommand<P>>, u32);

    closed spec fn view(&self) -> (Seq<PathCommand<P>>, u32) {
        (self.commands@, self.width)
    }
}

impl<P> PathBuilder<P> {
    /// An empty builder for a path of the given stroke width.
    pub fn new(width: u32) -> (r: PathBuilder<P>)
        ensures
            r@ == (Seq::<PathCommand<P>>::empty(), width),
    {
        PathBuilder { commands: Vec::new(), width }
    }

    pub fn move_to(&mut self, p: P)
        ensures
            final(self)@ == (old(self)@.0.push(PathCommand::MoveTo(p)), old(self)@.1),
    {
        self.commands.push(PathCommand::MoveTo(p));
    }

    pub fn line_to(&mut self, p: P)
        ensures
            final(self)@ == (old(self)@.0.push(PathCommand::LineTo(p)), old(self)@.1),
    {
        self.commands.push(PathCommand::LineTo(p));
    }

    pub fn close(&mut self)
        ensures
            final(self)@ == (old(self)@.0.push(PathCommand::Close), old(self)@.1),
    {
        self.commands.push(PathCommand::Close);
    }

    /// The finished path; `None` when no command was given.
    pub fn build(self) -> (r: Option<Path<P>>)
        ensures
            r is None <==> self@.0.len() == 0,
            r matches Some(p) ==> p@ == self@,
    {
        if self.commands.len() == 0 {
            None
        } else {
            Some(Path { commands: self.commands, width: self.width })
        }
    }
}

} // verus!
