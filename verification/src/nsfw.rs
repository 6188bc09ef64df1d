//! Image scoring: the layout that the model reads, and the closing line of a
//! scan.

use vstd::prelude::*;
use vstd::string::*;

use crate::text;
use crate::text::decimal_text;

verus! {

/// The width and the height that images are scaled to.
pub const INPUT_SIZE: u32 = 224;

/// The place of the harmless class in the model's output.
pub const SFW_INDEX: usize = 2;

/// One colour of all pixels of an image whose pixels are three bytes each.
pub open spec fn plane(rgb: Seq<u8>, colour: int) -> Seq<u8> {
    Seq::new(rgb.len() / 3, |k: int| rgb[3 * k + colour])
}

fn add_plane(out: &mut Vec<u8>, rgb: &[u8], colour: usize)
    requires
        colour < 3,
    ensures
        final(out)@ == old(out)@ + plane(rgb@, colour as int),
{
    let size: usize = rgb.len();
    let n: usize = size / 3;
    let ghost all = plane(rgb@, colour as int);
    assert(out@ =~= old(out)@ + all.take(0));
    for k in 0..n
        invariant
            colour < 3,
            size == rgb@.len(),
            n == size / 3,
            all == plane(rgb@, colour as int),
            out@ == old(out)@ + all.take(k as int),
    {
        out.push(rgb[3 * k + colour]);
        assert(all.take(k + 1) =~= all.take(k as int).push(all[k as int]));
        assert(out@ =~= old(out)@ + all.take(k + 1));
    }
    assert(all.take(n as int) =~= all);
}

/// The pixels of an image colour by colour: all red values, then all green,
/// then all blue ones.
pub fn planar(rgb: &[u8]) -> (r: Vec<u8>)
    ensures
        r@ == plane(rgb@, 0) + plane(rgb@, 1) + plane(rgb@, 2),
{
    let mut out: Vec<u8> = Vec::new();
    add_plane(&mut out, rgb, 0);
    add_plane(&mut out, rgb, 1);
    add_plane(&mut out, rgb, 2);
    assert(out@ =~= plane(rgb@, 0) + plane(rgb@, 1) + plane(rgb@, 2));
    out
}

/// The value of a colour of a pixel stands where the model reads it.
pub proof fn lemma_planar_place(rgb: Seq<u8>, pixel: int, colour: int)
    requires
        0 <= pixel < rgb.len() / 3,
        0 <= colour < 3,
    ensures
        (plane(rgb, 0) + plane(rgb, 1) + plane(rgb, 2))[colour * (rgb.len() / 3) as int + pixel]
            == rgb[3 * pixel + colour],
{
    let n = (rgb.len() / 3) as int;
    if colour == 0 {
        assert(colour * n == 0) by (nonlinear_arith)
            requires
                colour == 0,
        ;
    } else if colour == 1 {
        assert(colour * n == n) by (nonlinear_arith)
            requires
                colour == 1,
        ;
    } else {
        assert(colour * n == n + n) by (nonlinear_arith)
            requires
                colour == 2,
        ;
    }
}

/// An image in red, green and blue bytes, pixel by pixel, with its width and
/// its height.
pub struct Picture {
    pub width: u32,
    pub height: u32,
    pub rgb: Vec<u8>,
}

/// The width, the height and the bytes of a picture, if there is one.
pub open spec fn picture_view(p: Option<Picture>) -> Option<(u32, u32, Seq<u8>)> {
    match p {
        Some(p) => Some((p.width, p.height, p.rgb@)),
        None => None,
    }
}

/// The picture that the bytes of an image file give, if they do.
pub uninterp spec fn decoded(data: Seq<u8>) -> Option<(u32, u32, Seq<u8>)>;

/// `image::ImageReader` on bytes in memory, with the format guessed from them,
/// and `to_rgb8` of what it decodes: claims that the outcome depends on the
/// bytes alone and that there are three bytes for each pixel.
#[verifier::external_body]
fn decode(data: &[u8]) -> (r: Option<Picture>)
    ensures
        picture_view(r) == decoded(data@),
        r matches Some(p) ==> p.rgb@.len() == 3 * p.width * p.height,
{
    let reader = image::ImageReader::new(std::io::Cursor::new(data)).with_guessed_format();
    let img = reader.ok()?.decode().ok()?.to_rgb8();
    Some(Picture { width: img.width(), height: img.height(), rgb: img.into_raw() })
}

/// The bytes of a picture scaled to a square by the triangle filter; none
/// where there are too few bytes for its size.
pub uninterp spec fn scaled(rgb: Seq<u8>, width: u32, height: u32, side: u32) -> Option<Seq<u8>>;

/// The bytes of a picture scaled to a square, where there are any.
pub open spec fn opt_bytes(b: Option<Vec<u8>>) -> Option<Seq<u8>> {
    match b {
        Some(v) => Some(v@),
        None => None,
    }
}

/// A picture of that width can be scaled: the room for the rows in between,
/// with four numbers of four bytes for each pixel, can be asked for.
pub open spec fn has_room(width: u32, side: u32) -> bool {
    16 * width * side <= isize::MAX
}

/// `image::imageops::resize` with the triangle filter, on a buffer made by
/// `image::ImageBuffer::from_raw`: claims that the outcome depends on the
/// bytes, the size and the side alone, that there is one where there are three
/// bytes for each pixel, and that it has three bytes for each pixel too. It
/// panics where the room for the rows in between cannot be asked for, and may
/// do so for sides so long that its numbers cannot tell their pixels apart.
#[verifier::external_body]
fn scale(rgb: Vec<u8>, width: u32, height: u32, side: u32) -> (r: Option<Vec<u8>>)
    requires
        has_room(width, side),
        0 < side <= 4096,
    ensures
        opt_bytes(r) == scaled(rgb@, width, height, side),
        r is Some == (3 * width * height <= rgb@.len()),
        r matches Some(v) ==> v@.len() == 3 * side * side,
{
    let img = image::RgbImage::from_raw(width, height, rgb)?;
    let filter = image::imageops::FilterType::Triangle;
    Some(image::imageops::resize(&img, side, side, filter).into_raw())
}

/// What the model reads of a picture: its scaled pixels colour by colour.
pub open spec fn input_of(picture: Option<(u32, u32, Seq<u8>)>) -> Option<Seq<u8>> {
    match picture {
        Some((width, height, rgb)) => if has_room(width, INPUT_SIZE) {
            match scaled(rgb, width, height, INPUT_SIZE) {
                Some(out) => Some(plane(out, 0) + plane(out, 1) + plane(out, 2)),
                None => None,
            }
        } else {
            None
        },
        None => None,
    }
}

/// What the model reads of a picture that was decoded, if it was. There is
/// something to read where the picture is complete and can be scaled: three
/// values for each pixel that the model looks at.
pub fn picture_input(picture: Option<Picture>) -> (r: Option<Vec<u8>>)
    ensures
        opt_bytes(r) == input_of(picture_view(picture)),
        r is Some == (picture matches Some(p) && has_room(p.width, INPUT_SIZE) && 3 * p.width
            * p.height <= p.rgb@.len()),
        r matches Some(v) ==> v@.len() == 3 * INPUT_SIZE * INPUT_SIZE,
{
    let p = match picture {
        Some(p) => p,
        None => {
            return None;
        },
    };
    let bytes: u128 = 16 * (p.width as u128) * (INPUT_SIZE as u128);
    if bytes > isize::MAX as u128 {
        return None;
    }
    match scale(p.rgb, p.width, p.height, INPUT_SIZE) {
        Some(rgb) => Some(planar(rgb.as_slice())),
        None => None,
    }
}

/// What the model reads of an image file. There is something to read where
/// the file can be decoded to a picture that can be scaled.
pub fn model_input(data: &[u8]) -> (r: Option<Vec<u8>>)
    ensures
        opt_bytes(r) == input_of(decoded(data@)),
        r is Some == (decoded(data@) matches Some(p) && has_room(p.0, INPUT_SIZE)),
        r matches Some(v) ==> v@.len() == 3 * INPUT_SIZE * INPUT_SIZE,
{
    picture_input(decode(data))
}

/// The closing line of a scan.
pub fn scan_summary(scanned: u64, errors: u64, dry_run: bool) -> (r: String)
    ensures
        r@ == "Done"@ + (if dry_run {
            " (dry run)"@
        } else {
            ""@
        }) + ": "@ + text::decimal(scanned as nat) + " scanned, "@ + text::decimal(errors as nat)
            + " error(s)."@,
{
    let mut out = "Done".to_owned();
    if dry_run {
        out.append(" (dry run)");
    } else {
        out.append("");
    }
    out.append(": ");
    let done = decimal_text(scanned);
    out.append(done.as_str());
    out.append(" scanned, ");
    let failed = decimal_text(errors);
    out.append(failed.as_str());
    out.append(" error(s).");
    out
}

/// The model reads nothing of a file that is no picture, nor of one that
/// cannot be scaled; of any other it reads each colour of each scaled pixel at
/// the place of that colour and pixel.
pub proof fn lemma_what_the_model_reads(width: u32, height: u32, rgb: Seq<u8>, pixel: int, colour: int)
    ensures
        input_of(None) is None,
        16 * width * 224 > isize::MAX ==> input_of(Some((width, height, rgb))) is None,
        scaled(rgb, width, height, 224) is None ==> input_of(Some((width, height, rgb))) is None,
        16 * width * 224 <= isize::MAX ==> (scaled(rgb, width, height, 224) matches Some(out) ==> {
            &&& input_of(Some((width, height, rgb))) is Some
            &&& 0 <= pixel < out.len() / 3 && 0 <= colour < 3 ==> input_of(
                Some((width, height, rgb)),
            )->Some_0[colour * (out.len() / 3) as int + pixel] == out[3 * pixel + colour]
        }),
{
    if let Some(out) = scaled(rgb, width, height, 224) {
        if 0 <= pixel < out.len() / 3 && 0 <= colour < 3 {
            lemma_planar_place(out, pixel, colour);
        }
    }
}

/// Of the classes that the model tells apart the harmless one is the third.
pub proof fn lemma_place_of_the_harmless_class()
    ensures
        SFW_INDEX == 2,
{
}

} // verus!
