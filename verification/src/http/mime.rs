//! Wrappers that pin the content type of a body.

use vstd::prelude::*;
use crate::http::payload::AsBody;

verus! {

/// A body served as HTML.
pub struct Html<T>(pub T);

impl<T: AsBody> AsBody for Html<T> {
    /// The inner body's bytes.
    fn contents(&self) -> &[u8] {
        self.0.contents()
    }

    /// HTML text.
    fn content_type(&self) -> Option<&str> {
        Some("text/html; charset=utf-8")
    }
}

/// A body served as JavaScript.
pub struct JavaScript<T>(pub T);

impl<T: AsBody> AsBody for JavaScript<T> {
    /// The inner body's bytes.
    fn contents(&self) -> &[u8] {
        self.0.contents()
    }

    /// JavaScript text.
    fn content_type(&self) -> Option<&str> {
        Some("text/javascript")
    }
}

/// A body served as a style sheet.
pub struct Css<T>(pub T);

impl<T: AsBody> AsBody for Css<T> {
    /// The inner body's bytes.
    fn contents(&self) -> &[u8] {
        self.0.contents()
    }

    /// Style-sheet text.
    fn content_type(&self) -> Option<&str> {
        Some("text/css")
    }
}

/// A body served as a PNG image.
pub struct Png<T>(pub T);

impl<T: AsBody> AsBody for Png<T> {
    /// The inner body's bytes.
    fn contents(&self) -> &[u8] {
        self.0.contents()
    }

    /// PNG image data.
    fn content_type(&self) -> Option<&str> {
        Some("image/png")
    }
}

/// A body served as a web font.
pub struct Woff2<T>(pub T);

impl<T: AsBody> AsBody for Woff2<T> {
    /// The inner body's bytes.
    fn contents(&self) -> &[u8] {
        self.0.contents()
    }

    /// Web-font data.
    fn content_type(&self) -> Option<&str> {
        Some("font/woff2")
    }
}

} // verus!
