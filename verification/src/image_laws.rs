//! Which files are attached as images, and as what.

use vstd::prelude::*;
use crate::api::types::ImageView;
use crate::image_input::{base64_text, begins, image_of, images_of, media_type, ImageFile};
use crate::text::occurs;
use crate::text_laws::{lemma_at_end, lemma_between};

verus! {

/// A file is attached where it is a regular file of at most 20 MiB that can be read and whose
/// first bytes are those of a known format, and only there. What is attached is all of its
/// bytes, under its format. A refusal tells the path.
pub proof fn law_image_attached(file: ImageFile)
    ensures
        image_of(file) is Ok <==> {
            &&& file.inspected matches Some(facts)
            &&& facts.0
            &&& facts.1 <= 20 * 1024 * 1024
            &&& file.bytes matches Some(bytes)
            &&& media_type(bytes@) is Some
        },
        image_of(file) matches Ok(image) ==> {
            &&& image.source_type == "base64"@
            &&& image.data == base64_text(file.bytes->Some_0@)
            &&& media_type(file.bytes->Some_0@) == Some(image.media_type)
        },
        image_of(file) matches Err(e) ==> occurs(file.path@, e),
{
    let path = file.path@;
    lemma_at_end("failed to inspect image "@, path);
    lemma_at_end("image is not a regular file: "@, path);
    lemma_at_end("image exceeds the 20 MiB attachment limit: "@, path);
    lemma_at_end("failed to read image "@, path);
    lemma_between(
        "unsupported image format for "@,
        path,
        "; expected PNG, JPEG, GIF, or WebP"@,
    );
}

/// The format goes by the first bytes alone: more bytes behind them do not change it. Each
/// format has its own signature, and without one of them there is no format.
pub proof fn law_image_formats(bytes: Seq<u8>, more: Seq<u8>)
    ensures
        media_type(bytes) is Some ==> media_type(bytes + more) == media_type(bytes),
        media_type(bytes) == Some("image/png"@) ==> bytes.len() >= 8 && bytes[0] == 0x89
            && bytes[1] == 'P' as u8 && bytes[2] == 'N' as u8 && bytes[3] == 'G' as u8,
        media_type(bytes) == Some("image/jpeg"@) ==> bytes.len() >= 3 && bytes[0] == 0xff
            && bytes[1] == 0xd8 && bytes[2] == 0xff,
        media_type(bytes) == Some("image/gif"@) ==> bytes.len() >= 6 && bytes[0] == 'G' as u8
            && bytes[1] == 'I' as u8 && bytes[2] == 'F' as u8,
        media_type(bytes) == Some("image/webp"@) ==> bytes.len() >= 12 && bytes[0] == 'R' as u8
            && bytes[3] == 'F' as u8 && bytes[8] == 'W' as u8 && bytes[11] == 'P' as u8,
        media_type(bytes) matches Some(kind) ==> kind == "image/png"@ || kind == "image/jpeg"@
            || kind == "image/gif"@ || kind == "image/webp"@,
        bytes.len() < 3 ==> media_type(bytes) is None,
{
    let all = bytes + more;
    let png = seq![0x89u8, 0x50, 0x4e, 0x47, 0x0d, 0x0a, 0x1a, 0x0a];
    let jpeg = seq![0xffu8, 0xd8, 0xff];
    let gif = seq![0x47u8, 0x49, 0x46, 0x38, 0x37, 0x61];
    let newer_gif = seq![0x47u8, 0x49, 0x46, 0x38, 0x39, 0x61];
    let riff = seq![0x52u8, 0x49, 0x46, 0x46];
    let webp = seq![0x57u8, 0x45, 0x42, 0x50];
    lemma_begins(bytes, more, png);
    lemma_begins(bytes, more, jpeg);
    lemma_begins(bytes, more, gif);
    lemma_begins(bytes, more, newer_gif);
    lemma_begins(bytes, more, riff);
    if bytes.len() >= 12 {
        assert(all.skip(8) =~= bytes.skip(8) + more);
        lemma_begins(bytes.skip(8), more, webp);
    }
    reveal_strlit("image/png");
    reveal_strlit("image/jpeg");
    reveal_strlit("image/gif");
    reveal_strlit("image/webp");
    assert("image/png"@.len() == 9 && "image/gif"@.len() == 9);
    assert("image/png"@[6] == 'p' && "image/gif"@[6] == 'g');
    assert("image/jpeg"@.len() == 10 && "image/webp"@.len() == 10);
    assert("image/jpeg"@[6] == 'j' && "image/webp"@[6] == 'w');
}

proof fn lemma_begins(bytes: Seq<u8>, more: Seq<u8>, start: Seq<u8>)
    ensures
        begins(bytes, start) ==> begins(bytes + more, start),
        bytes.len() >= start.len() ==> (begins(bytes + more, start) <==> begins(bytes, start)),
        begins(bytes, start) ==> bytes.len() >= start.len() && forall|i: int|
            0 <= i < start.len() ==> #[trigger] bytes[i] == start[i],
        bytes.len() < start.len() && begins(bytes + more, start) ==> forall|i: int|
            0 <= i < bytes.len() ==> #[trigger] bytes[i] == start[i],
{
    let all = bytes + more;
    let n = start.len() as int;
    if bytes.len() >= n {
        assert(all.subrange(0, n) =~= bytes.subrange(0, n));
    }
    if begins(bytes, start) {
        assert forall|i: int| 0 <= i < n implies #[trigger] bytes[i] == start[i] by {
            assert(bytes.subrange(0, n)[i] == bytes[i]);
        }
    }
    if begins(all, start) {
        assert forall|i: int| 0 <= i < n implies #[trigger] all[i] == start[i] by {
            assert(all.subrange(0, n)[i] == all[i]);
        }
        assert forall|i: int| 0 <= i < bytes.len() && i < n implies #[trigger] bytes[i]
            == start[i] by {
            assert(all[i] == bytes[i]);
        }
    }
}

/// Several files are attached where each of them is, as many images as files, in their order;
/// where some are refused, the refusal is that of the first of them.
pub proof fn law_images_attached(files: Seq<ImageFile>)
    ensures
        images_of(files) is Ok <==> forall|i: int|
            0 <= i < files.len() ==> image_of(#[trigger] files[i]) is Ok,
        images_of(files) matches Ok(images) ==> images.len() == files.len() && forall|i: int|
            0 <= i < files.len() ==> image_of(#[trigger] files[i]) == Ok::<ImageView, Seq<char>>(
                images[i],
            ),
        images_of(files) matches Err(e) ==> exists|i: int|
            {
                &&& 0 <= i < files.len()
                &&& image_of(#[trigger] files[i]) == Err::<ImageView, Seq<char>>(e)
                &&& forall|k: int| 0 <= k < i ==> image_of(#[trigger] files[k]) is Ok
            },
    decreases files.len(),
{
    if files.len() > 0 {
        let init = files.drop_last();
        law_images_attached(init);
        assert forall|i: int| 0 <= i < init.len() implies #[trigger] init[i] == files[i] by {}
        assert(files[files.len() - 1] == files.last());
        match images_of(init) {
            Ok(before) => {
                assert forall|k: int| 0 <= k < files.len() - 1 implies image_of(
                    #[trigger] files[k],
                ) is Ok by {
                    assert(init[k] == files[k]);
                }
                if let Ok(images) = images_of(files) {
                    assert forall|i: int| 0 <= i < files.len() implies image_of(#[trigger] files[i])
                        == Ok::<ImageView, Seq<char>>(images[i]) by {
                        if i < init.len() {
                            assert(init[i] == files[i]);
                        }
                    }
                }
            },
            Err(e) => {
                let i = choose|i: int|
                    {
                        &&& 0 <= i < init.len()
                        &&& image_of(#[trigger] init[i]) == Err::<ImageView, Seq<char>>(e)
                        &&& forall|k: int| 0 <= k < i ==> image_of(#[trigger] init[k]) is Ok
                    };
                assert(image_of(files[i]) == Err::<ImageView, Seq<char>>(e));
                assert forall|k: int| 0 <= k < i implies image_of(#[trigger] files[k]) is Ok by {
                    assert(init[k] == files[k]);
                }
            },
        }
    }
}

} // verus!
