//! Inline images as a pane carries them: the bytes exactly as transmitted, and
//! the place they arrived at. Nothing here decodes a picture.
use vstd::prelude::*;

verus! {

/// Largest payload kept for one image.
pub const GRAPHIC_PAYLOAD_MAX: usize = 8388608;

/// Which protocol delivered a payload.
#[derive(Copy, Clone, Debug, PartialEq, Eq, Structural)]
pub enum GraphicProtocol {
    /// A DCS `q` stream.
    Sixel,
    /// An APC `G` payload with its key/value prefix.
    Kitty,
}

/// One transmitted image, undecoded, with the cursor position it arrived at.
#[derive(Debug, PartialEq, Eq)]
pub struct Graphic {
    pub protocol: GraphicProtocol,
    /// Protocol parameters before the payload. Empty for sixel.
    pub params: String,
    pub data: Vec<u8>,
    pub at_row: usize,
    pub at_col: usize,
    /// True when the payload was cut at the bound.
    pub truncated: bool,
}

/// The contents of a [`Graphic`].
#[verifier::ext_equal]
pub struct GraphicView {
    pub protocol: GraphicProtocol,
    pub params: Seq<char>,
    pub data: Seq<u8>,
    pub at_row: int,
    pub at_col: int,
    pub truncated: bool,
}

impl View for Graphic {
    type V = GraphicView;

    open spec fn view(&self) -> GraphicView {
        GraphicView {
            protocol: self.protocol,
            params: self.params@,
            data: self.data@,
            at_row: self.at_row as int,
            at_col: self.at_col as int,
            truncated: self.truncated,
        }
    }
}

impl Clone for Graphic {
    fn clone(&self) -> (r: Graphic)
        ensures
            r@ == self@,
    {
        Graphic {
            protocol: self.protocol,
            params: self.params.clone(),
            data: crate::seqops::copied(&self.data),
            at_row: self.at_row,
            at_col: self.at_col,
            truncated: self.truncated,
        }
    }
}

impl Graphic {
    /// Bytes retained.
    #[verifier::when_used_as_spec(spec_len)]
    pub fn len(&self) -> (n: usize)
        ensures
            n == self@.data.len(),
    {
        self.data.len()
    }

    pub open spec fn spec_len(&self) -> usize {
        self.data@.len() as usize
    }

    pub fn is_empty(&self) -> (b: bool)
        ensures
            b <==> self@.data.len() == 0,
    {
        self.data.len() == 0
    }
}

/// The contents of a sequence of images.
pub open spec fn graphics_view(s: Seq<Graphic>) -> Seq<GraphicView> {
    Seq::new(s.len(), |i: int| s[i]@)
}

} // verus!
