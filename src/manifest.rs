//! The catalogue written beside the extracted images.
use vstd::prelude::*;

verus! {

/// One extracted frame: where its image was written, and its name.
#[derive(Debug, Clone)]
pub struct ManifestFrame {
    pub path: String,
    pub frame_name: Option<String>,
}

/// The catalogue of one extraction: the dimensions of its first frame, then
/// every frame in file order.
#[derive(Debug, Clone)]
pub struct ManifestRoot {
    pub width: u32,
    pub height: u32,
    pub frames: Vec<ManifestFrame>,
}

impl ManifestRoot {
    /// An empty catalogue, with no dimensions recorded yet.
    pub fn new() -> (m: Self)
        ensures
            m.width == 0,
            m.height == 0,
            m.frames@.len() == 0,
    {
        ManifestRoot { width: 0, height: 0, frames: Vec::new() }
    }

    /// Records an extracted frame. The catalogue takes its dimensions from
    /// the first frame recorded while its width is still zero.
    pub fn add_frame(&mut self, width: u16, height: u16, path: String, name: Option<String>)
        ensures
            old(self).width == 0 ==> final(self).width == width as u32 && final(self).height
                == height as u32,
            old(self).width != 0 ==> final(self).width == old(self).width && final(self).height
                == old(self).height,
            final(self).frames@.len() == old(self).frames@.len() + 1,
            final(self).frames@.subrange(0, old(self).frames@.len() as int) == old(self).frames@,
            final(self).frames@.last().path@ == path@,
            final(self).frames@.last().frame_name == name,
    {
        if self.width == 0 {
            self.width = width as u32;
            self.height = height as u32;
        }
        self.frames.push(ManifestFrame { path, frame_name: name });
        assert(self.frames@.subrange(0, old(self).frames@.len() as int) =~= old(self).frames@);
    }
}

} // verus!
