//! The interface the executor's usual collaborator exposes: a turtle that a
//! set of handlers drives across a drawing surface.  The engine itself never
//! names these traits — the executor's state is fully opaque to it — but an
//! embedding registers handlers that close over a value of a type
//! implementing them.  `I` is the distance type, `F` the angle and line-width
//! type, `P` the position type, and `C` the color type of the backend.

use vstd::prelude::*;

verus! {

/// A minimal turtle: a heading, a position, a state stack, and a way to flush
/// pending drawing to the backend.
pub trait BasicTurtle<I, F, P> {
    type Error;

    fn heading(&self) -> &F;

    fn rotate(&mut self, radians: F);

    fn position(&self) -> &P;

    fn travel(&mut self, distance: I);

    fn push(&mut self);

    fn pop(&mut self);

    fn flush(&mut self) -> Result<(), Self::Error>;
}

/// A turtle that also carries a pen color and a line width.
pub trait FancyTurtle<I, F, P, C>: BasicTurtle<I, F, P> {
    fn color(&self) -> &C;

    fn set_color(&mut self, color: C);

    fn scale_color(&mut self, scalar: C);

    fn increment_color(&mut self, increment: C);

    fn line_width(&self) -> &F;

    fn set_line_width(&mut self, width: F);

    fn scale_line_width(&mut self, scalar: F);

    fn increment_line_width(&mut self, increment: F);
}

} // verus!
