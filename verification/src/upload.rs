//! Preparing a frame for upload as a BGRA texture: BGRA8 frames go as they
//! are, Gray8 frames are widened into a reused scratch buffer.

use vstd::prelude::*;
use crate::frame::{Frame, PixelFormat};
use crate::geometry::Size;

verus! {

/// Why a frame cannot be uploaded.
#[derive(Clone, Copy, Debug, PartialEq, Eq, Structural)]
pub enum UploadError {
    /// BGRA8 rows must follow each other with no gap.
    BgraNotTight,
    /// Gray8 rows must follow each other with no gap.
    GrayNotTight,
    /// YUYV422 frames are not uploaded.
    Yuyv422,
}

/// Where the texture's bytes come from.
#[derive(Clone, Copy, Debug, PartialEq, Eq, Structural)]
pub enum TextureSource {
    /// The frame's own data.
    FrameData,
    /// The scratch buffer, filled from a Gray8 frame.
    Scratch,
}

/// A texture of `current` size must be made anew for a frame of `size`.
pub fn needs_texture(current: Option<Size>, size: Size) -> (b: bool)
    ensures b == !(current == Some(size)),
{
    match current {
        Some(c) => c.width != size.width || c.height != size.height,
        None => true,
    }
}

/// The scratch buffer after widening `gray` into it: resized to `n` pixels
/// (new bytes 255), and each of the first pixels that `gray` holds set to
/// `[g, g, g, 255]`.
pub open spec fn widened(scratch: Seq<u8>, gray: Seq<u8>, n: int) -> Seq<u8> {
    Seq::new((n * 4) as nat, |i: int|
        if i / 4 < gray.len() {
            if i % 4 == 3 { 255u8 } else { gray[i / 4] }
        } else if i < scratch.len() {
            scratch[i]
        } else {
            255u8
        })
}

/// The first `n` bytes of `data`, or all of them when there are fewer.
pub open spec fn first_n(data: Seq<u8>, n: int) -> Seq<u8> {
    if n <= data.len() { data.take(n) } else { data }
}

proof fn lemma_quarter(k: int, i: int)
    requires 0 <= k, 0 <= i,
    ensures
        4 * i <= k < 4 * i + 4 ==> k / 4 == i && k % 4 == k - 4 * i,
        k < 4 * i ==> k / 4 < i,
        k >= 4 * i + 4 ==> k / 4 > i,
{
    vstd::arithmetic::div_mod::lemma_fundamental_div_mod(k, 4);
}

/// What uploading `frame` uses: the source of the bytes and the bytes of a
/// row, or why it cannot be uploaded.
pub open spec fn spec_upload(frame: Frame) -> Result<(TextureSource, usize), UploadError> {
    let w = frame.meta.size.width as int;
    match frame.format {
        PixelFormat::Bgra8 => if frame.stride == w * 4 {
            Ok((TextureSource::FrameData, frame.stride))
        } else {
            Err(UploadError::BgraNotTight)
        },
        PixelFormat::Gray8 => if frame.stride == w {
            Ok((TextureSource::Scratch, (w * 4) as usize))
        } else {
            Err(UploadError::GrayNotTight)
        },
        PixelFormat::Yuyv422 => Err(UploadError::Yuyv422),
    }
}

/// Prepares `frame` for upload; a Gray8 frame is widened into `scratch`.
pub fn texture_data(frame: &Frame, scratch: &mut Vec<u8>) -> (r: Result<(TextureSource, usize), UploadError>)
    requires
        frame.meta.size.width * 4 <= usize::MAX,
        frame.meta.size.width * frame.meta.size.height * 4 <= usize::MAX,
    ensures
        r == spec_upload(*frame),
        r matches Ok((TextureSource::Scratch, _)) ==> final(scratch)@ == widened(
            old(scratch)@, first_n(frame.data@, frame.meta.size.width * frame.meta.size.height),
            frame.meta.size.width * frame.meta.size.height),
        !(r matches Ok((TextureSource::Scratch, _))) ==> final(scratch)@ == old(scratch)@,
{
    let w = frame.meta.size.width as usize;
    let h = frame.meta.size.height as usize;
    match frame.format {
        PixelFormat::Bgra8 => {
            if frame.stride != w * 4 {
                return Err(UploadError::BgraNotTight);
            }
            Ok((TextureSource::FrameData, frame.stride))
        },
        PixelFormat::Gray8 => {
            if frame.stride != w {
                return Err(UploadError::GrayNotTight);
            }
            proof {
                assert(w * h * 4 == (w * h) * 4) by (nonlinear_arith);
            }
            let n = w * h;
            let ghost old_scratch = scratch@;
            let ghost gray = first_n(frame.data@, n as int);
            let data_len = frame.data.len();
            let take = if n <= data_len { n } else { data_len };
            // Resize to n pixels, new bytes 255.
            if scratch.len() > n * 4 {
                scratch.truncate(n * 4);
            }
            while scratch.len() < n * 4
                invariant
                    scratch@.len() <= n * 4,
                    scratch@.len() < n * 4 ==> scratch@.len() >= old_scratch.len(),
                    n * 4 <= usize::MAX,
                    forall|i: int| 0 <= i < scratch@.len() ==> #[trigger] scratch@[i] == (if i < old_scratch.len() { old_scratch[i] } else { 255u8 }),
                decreases n * 4 - scratch@.len(),
            {
                scratch.push(255u8);
            }
            let mut i: usize = 0;
            while i < take
                invariant
                    take <= n,
                    take <= data_len,
                    data_len == frame.data@.len(),
                    take == (if n <= data_len { n } else { data_len }),
                    gray == first_n(frame.data@, n as int),
                    gray.len() == take,
                    n * 4 <= usize::MAX,
                    scratch@.len() == n * 4,
                    i <= take,
                    forall|k: int| 0 <= k < n * 4 ==> #[trigger] scratch@[k] == (
                        if k / 4 < i { if k % 4 == 3 { 255u8 } else { gray[k / 4] } }
                        else if k < old_scratch.len() { old_scratch[k] } else { 255u8 }),
                decreases take - i,
            {
                let g = frame.data[i];
                let offset = i * 4;
                scratch.set(offset, g);
                scratch.set(offset + 1, g);
                scratch.set(offset + 2, g);
                scratch.set(offset + 3, 255u8);
                proof {
                    assert forall|k: int| 0 <= k < n * 4 implies #[trigger] scratch@[k] == (
                        if k / 4 < i + 1 { if k % 4 == 3 { 255u8 } else { gray[k / 4] } }
                        else if k < old_scratch.len() { old_scratch[k] } else { 255u8 }) by {
                        lemma_quarter(k, i as int);
                        if offset <= k < offset + 4 {
                            assert(k / 4 == i);
                            assert(gray[i as int] == g);
                        }
                    }
                }
                i = i + 1;
            }
            proof {
                assert forall|k: int| 0 <= k < n * 4 implies #[trigger] scratch@[k] == widened(old_scratch, gray, n as int)[k] by {
                    lemma_quarter(k, take as int);
                }
                assert(scratch@ =~= widened(old_scratch, gray, n as int));
            }
            Ok((TextureSource::Scratch, w * 4))
        },
        PixelFormat::Yuyv422 => Err(UploadError::Yuyv422),
    }
}

} // verus!
