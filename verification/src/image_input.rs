//! Images that are attached to a message.

use vstd::prelude::*;
use vstd::string::StringExecFns;
use base64::Engine as _;
use crate::api::types::{ImageSource, ImageView};

verus! {

/// How large an attached image may be.
pub const MAX_IMAGE_BYTES: u64 = 20971520;

/// How many bytes can be encoded so that the text still fits in memory.
pub const MAX_ENCODED_INPUT: usize = 0x5fff_fffd;

/// The text that encodes bytes in base64, with the standard alphabet and padding.
pub uninterp spec fn base64_text(bytes: Seq<u8>) -> Seq<char>;

/// `base64::engine::general_purpose::STANDARD` encodes each three bytes, or what is left
/// of them at the end, in four characters. More bytes than the limit could take up more
/// than can be allocated, which would panic.
#[verifier::external_body]
pub(crate) fn encode_base64(bytes: &[u8]) -> (r: String)
    requires
        bytes@.len() <= MAX_ENCODED_INPUT,
    ensures
        r@ == base64_text(bytes@),
        r@.len() == (bytes@.len() + 2) / 3 * 4,
{
    base64::engine::general_purpose::STANDARD.encode(bytes)
}

/// Whether bytes begin with others.
pub open spec fn begins(bytes: Seq<u8>, start: Seq<u8>) -> bool {
    start.is_prefix_of(bytes)
}

/// The kind of image that bytes hold, by their signature.
pub open spec fn media_type(bytes: Seq<u8>) -> Option<Seq<char>> {
    if begins(bytes, seq![0x89u8, 0x50, 0x4e, 0x47, 0x0d, 0x0a, 0x1a, 0x0a]) {
        Some("image/png"@)
    } else if begins(bytes, seq![0xffu8, 0xd8, 0xff]) {
        Some("image/jpeg"@)
    } else if begins(bytes, seq![0x47u8, 0x49, 0x46, 0x38, 0x37, 0x61]) || begins(
        bytes,
        seq![0x47u8, 0x49, 0x46, 0x38, 0x39, 0x61],
    ) {
        Some("image/gif"@)
    } else if bytes.len() >= 12 && begins(bytes, seq![0x52u8, 0x49, 0x46, 0x46]) && begins(
        bytes.skip(8),
        seq![0x57u8, 0x45, 0x42, 0x50],
    ) {
        Some("image/webp"@)
    } else {
        None
    }
}

fn stands_at(bytes: &[u8], from: usize, part: &[u8]) -> (r: bool)
    requires
        from <= bytes@.len(),
    ensures
        r == begins(bytes@.skip(from as int), part@),
{
    let n = bytes.len();
    if part.len() > n - from {
        return false;
    }
    let mut i: usize = 0;
    while i < part.len()
        invariant
            i <= part@.len(),
            n == bytes@.len(),
            from <= n,
            part@.len() <= n - from,
            forall|k: int| 0 <= k < i ==> bytes@.skip(from as int)[k] == #[trigger] part@[k],
        decreases part.len() - i,
    {
        assert(bytes@.skip(from as int)[i as int] == bytes@[from + i]);
        if bytes[from + i] != part[i] {
            assert(bytes@.skip(from as int).take(part@.len() as int)[i as int] != part@[i as int]);
            return false;
        }
        i = i + 1;
    }
    assert(bytes@.skip(from as int).take(part@.len() as int) =~= part@);
    true
}

/// The kind of image that bytes hold, by their signature.
pub fn detect_media_type(bytes: &[u8]) -> (r: Option<&'static str>)
    ensures
        crate::api::error::str_option(r) == media_type(bytes@),
{
    assert(bytes@.skip(0) =~= bytes@);
    let png: [u8; 8] = [0x89, 0x50, 0x4e, 0x47, 0x0d, 0x0a, 0x1a, 0x0a];
    let jpeg: [u8; 3] = [0xff, 0xd8, 0xff];
    let gif_old: [u8; 6] = [0x47, 0x49, 0x46, 0x38, 0x37, 0x61];
    let gif_new: [u8; 6] = [0x47, 0x49, 0x46, 0x38, 0x39, 0x61];
    let riff: [u8; 4] = [0x52, 0x49, 0x46, 0x46];
    let webp: [u8; 4] = [0x57, 0x45, 0x42, 0x50];
    proof {
        assert(png@ =~= seq![0x89u8, 0x50, 0x4e, 0x47, 0x0d, 0x0a, 0x1a, 0x0a]);
        assert(jpeg@ =~= seq![0xffu8, 0xd8, 0xff]);
        assert(gif_old@ =~= seq![0x47u8, 0x49, 0x46, 0x38, 0x37, 0x61]);
        assert(gif_new@ =~= seq![0x47u8, 0x49, 0x46, 0x38, 0x39, 0x61]);
        assert(riff@ =~= seq![0x52u8, 0x49, 0x46, 0x46]);
        assert(webp@ =~= seq![0x57u8, 0x45, 0x42, 0x50]);
    }
    if stands_at(bytes, 0, png.as_slice()) {
        Some("image/png")
    } else if stands_at(bytes, 0, jpeg.as_slice()) {
        Some("image/jpeg")
    } else if stands_at(bytes, 0, gif_old.as_slice()) || stands_at(bytes, 0, gif_new.as_slice()) {
        Some("image/gif")
    } else if bytes.len() >= 12 && stands_at(bytes, 0, riff.as_slice()) && stands_at(
        bytes,
        8,
        webp.as_slice(),
    ) {
        Some("image/webp")
    } else {
        None
    }
}

/// What the file system says of a file that is to be attached.
pub struct ImageFile {
    pub path: String,
    /// Whether it is a regular file and how large it is, where it can be inspected.
    pub inspected: Option<(bool, u64)>,
    /// What it holds, where it can be read.
    pub bytes: Option<Vec<u8>>,
}

/// What is wrong with a file before it is read, if something is.
pub open spec fn inspection_error(path: Seq<char>, inspected: Option<(bool, u64)>) -> Option<
    Seq<char>,
> {
    match inspected {
        None => Some("failed to inspect image "@ + path),
        Some(facts) => if !facts.0 {
            Some("image is not a regular file: "@ + path)
        } else if facts.1 > MAX_IMAGE_BYTES {
            Some("image exceeds the 20 MiB attachment limit: "@ + path)
        } else {
            None
        },
    }
}

/// The image that a file holds, or why it cannot be attached.
pub open spec fn image_of(file: ImageFile) -> Result<ImageView, Seq<char>> {
    match inspection_error(file.path@, file.inspected) {
        Some(e) => Err(e),
        None => match file.bytes {
            None => Err("failed to read image "@ + file.path@),
            Some(bytes) => match media_type(bytes@) {
                None => Err(
                    "unsupported image format for "@ + file.path@
                        + "; expected PNG, JPEG, GIF, or WebP"@,
                ),
                Some(kind) => Ok(
                    ImageView {
                        source_type: "base64"@,
                        media_type: kind,
                        data: base64_text(bytes@),
                    },
                ),
            },
        },
    }
}

/// The images that files hold, or the first reason why one cannot be attached.
pub open spec fn images_of(files: Seq<ImageFile>) -> Result<Seq<ImageView>, Seq<char>>
    decreases files.len(),
{
    if files.len() == 0 {
        Ok(Seq::empty())
    } else {
        match images_of(files.drop_last()) {
            Err(e) => Err(e),
            Ok(before) => match image_of(files.last()) {
                Err(e) => Err(e),
                Ok(image) => Ok(before.push(image)),
            },
        }
    }
}

/// What is wrong with a file before it is read, if something is.
pub fn check_image(path: &str, inspected: Option<(bool, u64)>) -> (r: Result<(), String>)
    ensures
        r is Ok <==> inspection_error(path@, inspected) is None,
        r matches Err(e) ==> inspection_error(path@, inspected) == Some(e@),
{
    let reason = match inspected {
        None => "failed to inspect image ",
        Some(facts) => if !facts.0 {
            "image is not a regular file: "
        } else if facts.1 > MAX_IMAGE_BYTES {
            "image exceeds the 20 MiB attachment limit: "
        } else {
            return Ok(());
        },
    };
    let mut e = reason.to_owned();
    e.append(path);
    Err(e)
}

/// Whether what a file holds can be encoded.
pub open spec fn encodable(file: ImageFile) -> bool {
    file.bytes matches Some(bytes) ==> bytes@.len() <= MAX_ENCODED_INPUT
}

/// The image that a file holds, or why it cannot be attached.
pub fn load_image(file: &ImageFile) -> (r: Result<ImageSource, String>)
    requires
        encodable(*file),
    ensures
        image_of(*file) == (match r {
            Ok(image) => Ok::<ImageView, Seq<char>>(image@),
            Err(e) => Err(e@),
        }),
{
    match check_image(file.path.as_str(), file.inspected) {
        Ok(()) => {},
        Err(e) => return Err(e),
    }
    match &file.bytes {
        None => {
            let mut e = "failed to read image ".to_owned();
            e.append(file.path.as_str());
            Err(e)
        },
        Some(bytes) => match detect_media_type(bytes.as_slice()) {
            None => {
                let mut e = "unsupported image format for ".to_owned();
                e.append(file.path.as_str());
                e.append("; expected PNG, JPEG, GIF, or WebP");
                Err(e)
            },
            Some(kind) => Ok(
                ImageSource {
                    source_type: "base64".to_owned(),
                    media_type: kind.to_owned(),
                    data: encode_base64(bytes.as_slice()),
                },
            ),
        },
    }
}

/// The views of images.
pub open spec fn image_views(images: Seq<ImageSource>) -> Seq<ImageView> {
    images.map_values(|i: ImageSource| i@)
}

/// The images that files hold, or the first reason why one cannot be attached.
pub fn load_images(files: &[ImageFile]) -> (r: Result<Vec<ImageSource>, String>)
    requires
        forall|i: int| 0 <= i < files@.len() ==> encodable(#[trigger] files@[i]),
    ensures
        images_of(files@) == (match r {
            Ok(images) => Ok::<Seq<ImageView>, Seq<char>>(image_views(images@)),
            Err(e) => Err(e@),
        }),
{
    let mut out: Vec<ImageSource> = Vec::new();
    assert(image_views(out@) =~= Seq::empty());
    let mut i: usize = 0;
    while i < files.len()
        invariant
            i <= files@.len(),
            forall|k: int| 0 <= k < files@.len() ==> encodable(#[trigger] files@[k]),
            images_of(files@.take(i as int)) == Ok::<Seq<ImageView>, Seq<char>>(image_views(out@)),
        decreases files.len() - i,
    {
        assert(files@.take(i + 1).drop_last() =~= files@.take(i as int));
        match load_image(&files[i]) {
            Ok(image) => {
                let ghost before = image_views(out@);
                let ghost view = image@;
                out.push(image);
                assert(image_views(out@) =~= before.push(view));
            },
            Err(e) => {
                proof {
                    lemma_first_failure(files@, i + 1);
                }
                return Err(e);
            },
        }
        i = i + 1;
    }
    assert(files@.take(files@.len() as int) =~= files@);
    Ok(out)
}

proof fn lemma_first_failure(files: Seq<ImageFile>, n: int)
    requires
        0 <= n <= files.len(),
        images_of(files.take(n)) is Err,
    ensures
        images_of(files) == images_of(files.take(n)),
    decreases files.len() - n,
{
    if n < files.len() {
        assert(files.take(n + 1).drop_last() =~= files.take(n));
        lemma_first_failure(files, n + 1);
    } else {
        assert(files.take(n) =~= files);
    }
}

} // verus!
