//! Application icons: cleaning icon paths and encoding icon pixels as PNG.
use crate::text::{before_first, before_first_str, concat_str, trim, trim_char, trim_matches, trim_str};
use image::ImageEncoder;
use vstd::prelude::*;

verus! {

/// The side of the square icons, in pixels.
pub const ICON_SIZE: u32 = 32;

/// The path in a `DisplayIcon` value: the part before the first `,` (which
/// starts an icon index), trimmed, without surrounding double quotes.
pub open spec fn clean_path_spec(path: Seq<char>) -> Seq<char> {
    trim_char(trim(before_first(path, ',')), '"')
}

/// Removes the `,N` icon index and the surrounding quotes from a `DisplayIcon` path.
pub fn clean_path(path: &str) -> (r: String)
    ensures
        r@ == clean_path_spec(path@),
{
    let head = before_first_str(path, ',');
    let t = trim_str(head.as_str());
    trim_matches(t.as_str(), '"')
}

/// The file whose icon is wanted: the cleaned `DisplayIcon` path, or the
/// error for a path that cleans to nothing.
pub fn icon_source(path: &str) -> (r: Result<String, String>)
    ensures
        match r {
            Ok(p) => clean_path_spec(path@).len() > 0 && p@ == clean_path_spec(path@),
            Err(m) => clean_path_spec(path@).len() == 0 && m@ == "空图标路径"@,
        },
{
    let clean = clean_path(path);
    if clean.as_str().is_empty() {
        Err(String::from_str("空图标路径"))
    } else {
        Ok(clean)
    }
}

/// The error for a file the shell gives no icon for.
pub fn icon_not_found(clean: &str) -> (r: String)
    ensures
        r@ == "无法获取图标: "@ + clean@,
{
    concat_str("无法获取图标: ", clean)
}

/// The byte of a BGRA buffer that lands at index `i` of the RGBA buffer:
/// blue and red trade places, green and alpha stay.
pub open spec fn rgba_source(i: int) -> int {
    let k = i % 4;
    if k == 0 {
        i + 2
    } else if k == 2 {
        i - 2
    } else {
        i
    }
}

/// The RGBA pixels of BGRA pixels (a trailing partial pixel is dropped).
pub open spec fn bgra_to_rgba_spec(bgra: Seq<u8>) -> Seq<u8> {
    Seq::new((bgra.len() / 4 * 4) as nat, |i: int| bgra[rgba_source(i)])
}

/// Converts BGRA pixels to RGBA pixels.
pub fn bgra_to_rgba(bgra: &Vec<u8>) -> (r: Vec<u8>)
    ensures
        r@ == bgra_to_rgba_spec(bgra@),
{
    let mut out: Vec<u8> = Vec::new();
    let mut p: usize = 0;
    let n: usize = bgra.len() / 4;
    while p < n
        invariant
            n == bgra.len() / 4,
            p <= n,
            out.len() == 4 * p,
            forall|i: int| 0 <= i < out.len() ==> #[trigger] out@[i] == bgra@[rgba_source(i)],
        decreases n - p,
    {
        let b: usize = 4 * p;
        out.push(bgra[b + 2]);
        out.push(bgra[b + 1]);
        out.push(bgra[b]);
        out.push(bgra[b + 3]);
        assert forall|i: int| 0 <= i < out.len() implies #[trigger] out@[i] == bgra@[rgba_source(i)] by {
            if i >= b {
                assert(i % 4 == i - b);
            }
        }
        p += 1;
    }
    assert(out@ =~= bgra_to_rgba_spec(bgra@));
    out
}

#[verifier::external_type_specification]
#[verifier::external_body]
pub struct ExImageError(image::ImageError);

/// Calls `image::RgbaImage::from_raw`, which accepts the buffer exactly when
/// it holds at least `4 * width * height` bytes (a size that must fit in a
/// `usize`), and hands the buffer back unchanged.
#[verifier::external_body]
fn rgba_image_from_raw(width: u32, height: u32, buf: Vec<u8>) -> (r: Option<Vec<u8>>)
    ensures
        r is Some <==> (4 * width <= usize::MAX && 4 * width * height <= usize::MAX && 4 * width
            * height <= buf@.len()),
        r matches Some(b) ==> b@ == buf@,
{
    match image::RgbaImage::from_raw(width, height, buf) {
        Some(img) => Some(img.into_raw()),
        None => None,
    }
}

/// The PNG file that `image`'s `PngEncoder` (default settings) writes for
/// RGBA pixels of the given size.
pub uninterp spec fn png_rgba8(width: u32, height: u32, pixels: Seq<u8>) -> Seq<u8>;

/// Calls `image::codecs::png::PngEncoder::write_image` with default settings
/// on 8-bit RGBA pixels, writing into a new buffer; the bytes written are named
/// `png_rgba8` of the size and pixels. The buffer must hold exactly
/// `4 * width * height` bytes, which the encoder asserts. With that length the
/// encoder fails only on a zero width or height (the `png` writer's header
/// check); writing into a `Vec` does not fail.
#[verifier::external_body]
fn encode_png_rgba8(pixels: &[u8], width: u32, height: u32) -> (r: Result<Vec<u8>, image::ImageError>)
    requires
        pixels@.len() == 4 * width * height,
    ensures
        r matches Ok(bytes) ==> bytes@ == png_rgba8(width, height, pixels@),
        width > 0 && height > 0 ==> r is Ok,
{
    let mut png: Vec<u8> = Vec::new();
    match image::codecs::png::PngEncoder::new(&mut png).write_image(
        pixels,
        width,
        height,
        image::ExtendedColorType::Rgba8,
    ) {
        Ok(()) => Ok(png),
        Err(e) => Err(e),
    }
}

/// Calls the `Display` implementation of `image::ImageError`; nothing is
/// stated of the text.
#[verifier::external_body]
fn image_error_text(e: &image::ImageError) -> (r: String) {
    format!("{}", e)
}

/// The PNG encoding of a 32x32 icon given as BGRA pixels. A buffer of
/// 32x32 pixels is always encoded; the error messages are those of a buffer
/// of the wrong size and of a failed encoding.
pub fn icon_png_from_bgra(bgra: &Vec<u8>) -> (r: Result<Vec<u8>, String>)
    requires
        bgra.len() == 4 * ICON_SIZE * ICON_SIZE,
    ensures
        r matches Ok(png) && png@ == png_rgba8(ICON_SIZE, ICON_SIZE, bgra_to_rgba_spec(bgra@)),
{
    let rgba = bgra_to_rgba(bgra);
    let raw = match rgba_image_from_raw(ICON_SIZE, ICON_SIZE, rgba) {
        Some(raw) => raw,
        None => return Err(String::from_str("像素缓冲大小不匹配")),
    };
    match encode_png_rgba8(raw.as_slice(), ICON_SIZE, ICON_SIZE) {
        Ok(png) => Ok(png),
        Err(e) => {
            let text = image_error_text(&e);
            Err(concat_str("PNG 编码失败: ", text.as_str()))
        },
    }
}


/// Converting the pixels twice gives back the pixels it started from (less any
/// trailing partial pixel): the conversion swaps two channels.
pub proof fn lemma_rgba_conversion_involutive(bgra: Seq<u8>)
    ensures
        bgra_to_rgba_spec(bgra_to_rgba_spec(bgra)) == bgra.take((bgra.len() / 4 * 4) as int),
{
    let once = bgra_to_rgba_spec(bgra);
    let twice = bgra_to_rgba_spec(once);
    assert(once.len() == bgra.len() / 4 * 4);
    assert(twice.len() == once.len());
    assert forall|i: int| 0 <= i < twice.len() implies twice[i] == bgra[i] by {
        let k = i % 4;
        if k == 0 {
            assert((i + 2) % 4 == 2);
        } else if k == 2 {
            assert((i - 2) % 4 == 0);
        }
    }
    assert(twice =~= bgra.take((bgra.len() / 4 * 4) as int));
}

/// A cleaned icon path holds no `,`: the icon index is gone.
pub proof fn lemma_clean_path_no_comma(path: Seq<char>)
    ensures
        forall|i: int| 0 <= i < clean_path_spec(path).len() ==> #[trigger] clean_path_spec(path)[i] != ',',
{
    let b = before_first(path, ',');
    crate::text::lemma_before_first_lacks(path, ',');
    crate::text::lemma_trim_keeps_absent(b, crate::text::CharClass::Whitespace, ',');
    crate::text::lemma_trim_keeps_absent(trim(b), crate::text::CharClass::Exactly('"'), ',');
}

} // verus!
