//! What is captured, and how a capture becomes a raster.

use vstd::prelude::*;
use crate::img::{built_view, from_rgb_spec, MalformedPixelData, RgbImage};

verus! {

/// The kind of machine that the capture runs on.
#[derive(Clone, Copy, Debug, PartialEq, Eq)]
pub enum MachineKind {
    Unix,
    Windows,
}

/// The kind of machine, from what is known of the target: Unix-like if it
/// is that, Windows-like if it is that and not Unix-like, and unknown
/// otherwise.
pub fn get_machine_kind(unix: bool, windows: bool) -> (kind: Result<MachineKind, ()>)
    ensures
        unix ==> kind == Ok::<MachineKind, ()>(MachineKind::Unix),
        !unix && windows ==> kind == Ok::<MachineKind, ()>(MachineKind::Windows),
        !unix && !windows ==> kind is Err,
{
    if unix {
        Ok(MachineKind::Unix)
    } else if windows {
        Ok(MachineKind::Windows)
    } else {
        Err(())
    }
}

/// A window on the screen: where it lies, its extent, and the identifier
/// by which the window system knows it.
#[derive(Debug)]
pub struct Window {
    pub x_pos: u32,
    pub y_pos: u32,
    pub width: u32,
    pub height: u32,
    pub id: String,
}

impl Clone for Window {
    fn clone(&self) -> (copy: Window)
        ensures
            copy == *self,
    {
        Window {
            x_pos: self.x_pos,
            y_pos: self.y_pos,
            width: self.width,
            height: self.height,
            id: self.id.clone(),
        }
    }
}

/// The bytes of `rows`, one row after the other.
pub open spec fn concat_rows(rows: Seq<Vec<u8>>) -> Seq<u8>
    decreases rows.len(),
{
    if rows.len() == 0 {
        Seq::empty()
    } else {
        concat_rows(rows.drop_last()) + rows.last()@
    }
}

impl Window {
    pub fn new(xpos: u32, ypos: u32, width: u32, height: u32, id: &str) -> (window: Window)
        ensures
            window.x_pos == xpos,
            window.y_pos == ypos,
            window.width == width,
            window.height == height,
            window.id@ == id@,
    {
        broadcast use vstd::string::to_string_from_display_ensures_for_str;

        Window { x_pos: xpos, y_pos: ypos, width, height, id: id.to_string() }
    }

    /// The raster of this window from the decoded rows of a screenshot of
    /// it: the rows are joined and read as interleaved subpixels of a raster
    /// with the window's extent. Fails unless they are that.
    pub fn take_screenshot(&self, rows: &Vec<Vec<u8>>) -> (shot: Result<
        RgbImage,
        MalformedPixelData,
    >)
        ensures
            built_view(shot) == from_rgb_spec(
                concat_rows(rows@),
                self.width as nat,
                self.height as nat,
            ),
    {
        let mut img_data: Vec<u8> = Vec::new();
        let mut k: usize = 0;
        while k < rows.len()
            invariant
                k <= rows@.len(),
                img_data@ == concat_rows(rows@.take(k as int)),
            decreases rows@.len() - k,
        {
            assert(rows@.take(k + 1).drop_last() =~= rows@.take(k as int));
            img_data.extend_from_slice(rows[k].as_slice());
            assert(img_data@ =~= concat_rows(rows@.take(k + 1)));
            k += 1;
        }
        assert(rows@.take(rows@.len() as int) =~= rows@);
        RgbImage::from_rgb(img_data, self.width, self.height)
    }
}

} // verus!
