//! What a platform brings along.

use vstd::prelude::*;

verus! {

/// The types of a platform that the webview hands on without looking inside.
pub trait Platform {
    /// A created webview, to which calls are made.
    type Handle;

    /// A length, a coordinate or a zoom factor.
    type Scalar: Copy;

    /// The bounds of a webview as its user gave them.
    type Rect: Copy;

    /// Told the result of a script.
    type EvalCallback;

    /// Told whether a PDF was written.
    type PdfCallback;
}

/// A place on the screen in logical units.
pub struct LogicalRect<S> {
    pub x: S,
    pub y: S,
    pub width: S,
    pub height: S,
}

/// The layout of a PDF; what is `None` is left to the platform.
pub struct PdfConfig<S> {
    pub width: Option<S>,
    pub height: Option<S>,
    pub margin_top: Option<S>,
    pub margin_bottom: Option<S>,
    pub margin_left: Option<S>,
    pub margin_right: Option<S>,
    pub scale: Option<S>,
    pub should_print_background: Option<bool>,
}

} // verus!
