use vstd::prelude::*;
use winit::window::Icon;

verus! {

#[verifier::external_type_specification]
#[verifier::external_body]
pub struct ExIcon(Icon);

/// Whether `image::load_from_memory_with_format` decodes the bytes as a PNG
/// image: they are a well-formed PNG within the decoder's default limits.
pub uninterp spec fn image_decodes(bytes: Seq<u8>) -> bool;

/// The PNG image the bytes encode, as 8-bit RGBA: its raw pixel bytes, width
/// and height (what `load_from_memory_with_format`, then `to_rgba8`,
/// `into_raw` and `dimensions` give).
pub uninterp spec fn decoded_rgba(bytes: Seq<u8>) -> (Seq<u8>, u32, u32);

/// `image::load_from_memory_with_format` with the PNG format, then
/// `DynamicImage::to_rgba8`: decodes the bytes as a PNG image and converts it
/// to 8-bit RGBA, given as its raw bytes, width and height. With the format
/// given, the crate's process-wide format and decoder hooks are not
/// consulted, so the outcome depends on the bytes alone. Claims that it
/// succeeds exactly when `image_decodes` says so, and that the pixels are
/// those `decoded_rgba` names.
#[verifier::external_body]
fn decode_rgba(bytes: &[u8]) -> (r: Option<(Vec<u8>, u32, u32)>)
    ensures
        r is Some <==> image_decodes(bytes@),
        r matches Some(t) ==> (t.0@, t.1, t.2) == decoded_rgba(bytes@),
{
    let img = image::load_from_memory_with_format(bytes, image::ImageFormat::Png).ok()?;
    let buf = img.to_rgba8();
    let (w, h) = buf.dimensions();
    Some((buf.into_raw(), w, h))
}

/// `winit::window::Icon::from_rgba`. Claims what its documentation states:
/// it refuses data whose length is not four bytes per pixel of a
/// `width × height` image. Whether it accepts valid data is left open (the
/// platform may refuse too).
#[verifier::external_body]
fn icon_from_rgba(rgba: Vec<u8>, width: u32, height: u32) -> (icon: Option<Icon>)
    requires
        width as int * height as int <= u32::MAX,
    ensures
        icon is Some ==> rgba@.len() % 4 == 0 && rgba@.len() / 4 == width as int * height as int,
{
    Icon::from_rgba(rgba, width, height).ok()
}

/// The pixels of the window icon, decoded from the encoded image `png`: its
/// RGBA bytes, width and height. None when the bytes do not decode, and when
/// the image has more pixels than a `u32` counts.
pub fn icon_pixels(png: &[u8]) -> (r: Option<(Vec<u8>, u32, u32)>)
    ensures
        r is Some <==> image_decodes(png@) && decoded_rgba(png@).1 as int * decoded_rgba(png@).2 as int
            <= u32::MAX,
        r matches Some(t) ==> (t.0@, t.1, t.2) == decoded_rgba(png@),
{
    let (rgba, w, h) = decode_rgba(png)?;
    assert((w as int) * (h as int) <= 0xffff_ffffint * 0xffff_ffffint) by (nonlinear_arith)
        requires w <= 0xffff_ffffint, h <= 0xffff_ffffint, w >= 0, h >= 0;
    if (w as u64) * (h as u64) > u32::MAX as u64 {
        return None;
    }
    Some((rgba, w, h))
}

/// The window icon from the encoded image `png`: its decoded pixels handed to
/// the windowing library. None when the bytes do not decode, when the image
/// has more pixels than a `u32` counts, and when the library refuses the
/// pixels.
pub fn load_app_icon(png: &[u8]) -> (icon: Option<Icon>)
    ensures
        icon is Some ==> image_decodes(png@),
        icon is Some ==> decoded_rgba(png@).1 as int * decoded_rgba(png@).2 as int <= u32::MAX,
        icon is Some ==> decoded_rgba(png@).0.len() % 4 == 0 && decoded_rgba(png@).0.len() / 4
            == decoded_rgba(png@).1 as int * decoded_rgba(png@).2 as int,
{
    let (rgba, w, h) = icon_pixels(png)?;
    icon_from_rgba(rgba, w, h)
}

} // verus!
