use vstd::prelude::*;

verus! {

/// How a blob treats line terminators when it is decoded to text.
#[derive(Debug, Clone, Copy, PartialEq, Eq, Structural)]
pub enum LineEndings {
    /// Terminators are rewritten to the host's native convention.
    Native,
    /// The text is decoded exactly as stored.
    Transparent,
}

/// The configuration of a blob: its line-ending policy and an optional
/// content type.
#[derive(Debug, Clone)]
pub struct BlobOptions {
    endings: LineEndings,
    ty: Option<Box<str>>,
}

/// The characters of an optional string, as contracts speak of it.
pub open spec fn opt_str_view(s: Option<&str>) -> Option<Seq<char>> {
    match s {
        Some(t) => Some(t@),
        None => None,
    }
}

/// The characters of an optional boxed string.
pub open spec fn opt_box_view(s: Option<Box<str>>) -> Option<Seq<char>> {
    match s {
        Some(t) => Some(t@),
        None => None,
    }
}

impl BlobOptions {
    /// The line-ending policy.
    pub closed spec fn endings(&self) -> LineEndings {
        self.endings
    }

    /// The content type, if one was given.
    pub closed spec fn content_type(&self) -> Option<Seq<char>> {
        opt_box_view(self.ty)
    }

    /// Options with the given policy and content type.
    #[inline]
    pub fn new(endings: LineEndings, ty: Option<Box<str>>) -> (r: Self)
        ensures
            r.endings() == endings,
            r.content_type() == opt_box_view(ty),
    {
        Self { endings, ty }
    }

    /// Reads the line-ending policy.
    #[inline]
    pub fn line_endings(&self) -> (r: LineEndings)
        ensures
            r == self.endings(),
    {
        self.endings
    }

    /// Borrows the content type.
    #[inline]
    pub fn ty(&self) -> (r: Option<&str>)
        ensures
            opt_str_view(r) == self.content_type(),
    {
        match &self.ty {
            Some(ty) => Some(ty),
            None => None,
        }
    }
}

impl Default for BlobOptions {
    /// Pass-through decoding and no content type.
    #[inline]
    fn default() -> (r: Self)
        ensures
            r.endings() == LineEndings::Transparent,
            r.content_type() == None::<Seq<char>>,
    {
        Self::new(LineEndings::Transparent, None)
    }
}

} // verus!
