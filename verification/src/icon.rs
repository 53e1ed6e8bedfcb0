use vstd::prelude::*;

verus! {

/// Decodes an image file (the application icon) into RGBA pixels, row by
/// row, with its width and height; none where `image` cannot decode the bytes
/// (`image::load_from_memory`, `DynamicImage::into_rgba8`,
/// `ImageBuffer::dimensions`, `ImageBuffer::into_raw`).
///
/// Trusted, with no contract: besides the bytes, `load_from_memory` consults
/// the format-detection and decoding hooks that any code in the process may
/// register with `image`, so its result is not a function of the bytes alone.
/// Reading those registries unwraps a lock, which panics only where a thread
/// panicked while registering a hook; this program registers none.
#[verifier::external_body]
pub fn decode_rgba(bytes: &[u8]) -> Option<(Vec<u8>, u32, u32)> {
    match image::load_from_memory(bytes) {
        Ok(img) => {
            let rgba = img.into_rgba8();
            let (w, h) = rgba.dimensions();
            Some((rgba.into_raw(), w, h))
        },
        Err(_) => None,
    }
}

} // verus!
