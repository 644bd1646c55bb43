//! Choosing among what the clipboard offers, and accepting pasted images.

use crate::image_decode::decoded::DecodedImage;
use crate::image_decode::format::{
    decode_rgba, format_from_mime_or_bytes, image_dimensions, EncodedImageFormat,
};
use crate::shape::EmbeddedImage;
use crate::text::same_text;
use vstd::prelude::*;

verus! {

use crate::image_decode::decoded::{lemma_area, DecodedModel};
use crate::image_decode::format::{
    decoded_still, format_of, may_give_up, named_format, size_of,
};
use crate::shape::EmbeddedModel;
use crate::text::outcome;

/// Encoded images of more bytes than this are not read from the clipboard. They
/// are stored as text, and possibly twice, so they must leave room in a session
/// file.
pub const MAX_CLIPBOARD_IMAGE_BYTES: usize = 16 * 1024 * 1024;

/// Images of more pixels than this are refused.
pub const MAX_CLIPBOARD_IMAGE_PIXELS: u64 = 40_000_000;

/// The MIME type under which copied shapes are offered.
pub const WAYSCRIBER_SELECTION_MIME: &'static str = "application/x-wayscriber-selection+json";

/// What became of pasted data.
#[derive(Debug)]
pub enum ClipboardPasteResult {
    Image(EmbeddedImage),
    DecodeFailed(String),
    TooManyPixels { width: u32, height: u32, limit: u64 },
}

/// A [`ClipboardPasteResult`] with its contents as sequences.
#[verifier::ext_equal]
pub ghost enum PasteModel {
    Image(EmbeddedModel),
    DecodeFailed(Seq<char>),
    TooManyPixels { width: u32, height: u32, limit: u64 },
}

impl View for ClipboardPasteResult {
    type V = PasteModel;

    open spec fn view(&self) -> PasteModel {
        match self {
            ClipboardPasteResult::Image(image) => PasteModel::Image(image@),
            ClipboardPasteResult::DecodeFailed(message) => PasteModel::DecodeFailed(message@),
            ClipboardPasteResult::TooManyPixels { width, height, limit } => {
                PasteModel::TooManyPixels { width: *width, height: *height, limit: *limit }
            },
        }
    }
}

/// Several texts as sequences.
pub open spec fn texts(offered: Seq<String>) -> Seq<Seq<char>> {
    offered.map_values(|mime: String| mime@)
}

/// The MIME types that can be pasted whatever else is offered, best first.
///
/// `image/gif` outranks `image/png`: browsers and chat clients offer both for an
/// animated GIF, and taking the PNG silently flattens it to one frame.
pub open spec fn ranked_mimes() -> Seq<Seq<char>> {
    seq![
        WAYSCRIBER_SELECTION_MIME@,
        "image/gif"@,
        "image/png"@,
        "image/jpeg"@,
        "image/jpg"@,
    ]
}

/// The first of the ranked MIME types from `rank` on that is offered.
pub open spec fn best_ranked(offered: Seq<Seq<char>>, rank: nat) -> Option<Seq<char>>
    decreases ranked_mimes().len() - rank,
{
    if rank >= ranked_mimes().len() {
        None
    } else if offered.contains(ranked_mimes()[rank as int]) {
        Some(ranked_mimes()[rank as int])
    } else {
        best_ranked(offered, rank + 1)
    }
}

/// Whether a MIME type is that of a list of files.
pub open spec fn names_uri_list(mime: Seq<char>) -> bool {
    mime == "text/uri-list"@
}

/// The first MIME type offered that is that of a list of files.
pub open spec fn first_uri_list(offered: Seq<Seq<char>>) -> Option<Seq<char>>
    decreases offered.len(),
{
    if offered.len() == 0 {
        None
    } else if names_uri_list(offered[0]) {
        Some(offered[0])
    } else {
        first_uri_list(offered.drop_first())
    }
}

/// The MIME type to ask for: the best of the ranked ones, or else a list of
/// files, or else none.
pub open spec fn supported_mime(offered: Seq<Seq<char>>) -> Option<Seq<char>> {
    if best_ranked(offered, 0) is Some {
        best_ranked(offered, 0)
    } else {
        first_uri_list(offered)
    }
}

fn offers(offered: &[String], mime: &str) -> (found: bool)
    ensures
        found == texts(offered@).contains(mime@),
{
    let ghost all = texts(offered@);
    let mut i: usize = 0;
    while i < offered.len()
        invariant
            i <= offered.len(),
            all == texts(offered@),
            forall|j: int| 0 <= j < i ==> #[trigger] all[j] != mime@,
        decreases offered.len() - i,
    {
        assert(all[i as int] == offered@[i as int]@);
        if same_text(offered[i].as_str(), mime) {
            return true;
        }
        i = i + 1;
    }
    false
}

/// Whether a MIME type is that of a list of files.
pub fn is_uri_list_mime(mime: &str) -> (named: bool)
    ensures
        named == names_uri_list(mime@),
{
    same_text(mime, "text/uri-list")
}

/// Picks the MIME type to ask for among those that the clipboard offers.
pub fn choose_supported_mime(offered: &[String]) -> (mime: Option<String>)
    ensures
        match mime {
            Some(chosen) => supported_mime(texts(offered@)) == Some(chosen@),
            None => supported_mime(texts(offered@)) is None,
        },
{
    let ghost all = texts(offered@);
    let candidates: [&str; 5] = [
        WAYSCRIBER_SELECTION_MIME,
        "image/gif",
        "image/png",
        "image/jpeg",
        "image/jpg",
    ];
    let mut rank: usize = 0;
    while rank < 5
        invariant
            rank <= 5,
            all == texts(offered@),
            candidates@.len() == 5,
            forall|j: int| 0 <= j < 5 ==> (#[trigger] candidates@[j])@ == ranked_mimes()[j],
            best_ranked(all, 0) == best_ranked(all, rank as nat),
        decreases 5 - rank,
    {
        let candidate = candidates[rank];
        assert(candidate@ == ranked_mimes()[rank as int]);
        if offers(offered, candidate) {
            return Some(candidate.to_owned());
        }
        rank = rank + 1;
    }
    let mut i: usize = 0;
    assert(all.skip(0) =~= all);
    while i < offered.len()
        invariant
            i <= offered.len(),
            all == texts(offered@),
            best_ranked(all, 0) is None,
            first_uri_list(all) == first_uri_list(all.skip(i as int)),
        decreases offered.len() - i,
    {
        assert(all[i as int] == offered@[i as int]@);
        assert(all.skip(i as int).drop_first() =~= all.skip(i + 1));
        if is_uri_list_mime(offered[i].as_str()) {
            return Some(offered[i].clone());
        }
        i = i + 1;
    }
    None
}

/// What becomes of an image of an acceptable size, given what its pixels decode
/// to. It is stored as it came, under its format's own MIME type.
pub open spec fn accepted(
    format: EncodedImageFormat,
    width: u32,
    height: u32,
    bytes: Seq<u8>,
    decoded: Result<DecodedModel, Seq<char>>,
) -> PasteModel {
    match decoded {
        Err(message) => PasteModel::DecodeFailed(message),
        Ok(_) => PasteModel::Image(
            EmbeddedModel { mime_type: format.mime_type(), width, height, bytes },
        ),
    }
}

/// What becomes of pasted data: the format is the one its MIME type names or
/// its first bytes give away, the size must keep to the limit, and the pixels
/// must decode.
pub open spec fn pasted(mime: Seq<char>, bytes: Seq<u8>) -> PasteModel {
    match format_of(mime, bytes) {
        None => PasteModel::DecodeFailed("unsupported MIME type "@ + mime),
        Some(format) => match size_of(format, bytes) {
            Err(message) => PasteModel::DecodeFailed(message),
            Ok((width, height)) => if width * height > MAX_CLIPBOARD_IMAGE_PIXELS {
                PasteModel::TooManyPixels { width, height, limit: MAX_CLIPBOARD_IMAGE_PIXELS }
            } else {
                accepted(format, width, height, bytes, decoded_still(format, bytes))
            },
        },
    }
}

/// Whether accepting pasted data may also fail because the system refuses a
/// thread to decode it on.
pub open spec fn paste_may_fail(mime: Seq<char>, bytes: Seq<u8>) -> bool {
    &&& format_of(mime, bytes) matches Some(format)
    &&& size_of(format, bytes) matches Ok((width, height))
    &&& width * height <= MAX_CLIPBOARD_IMAGE_PIXELS
    &&& may_give_up(format, bytes)
}

/// What becomes of an image of an acceptable size, given what its pixels decode
/// to.
pub fn accept_decoded(
    format: EncodedImageFormat,
    width: u32,
    height: u32,
    bytes: Vec<u8>,
    decoded: Result<DecodedImage, String>,
) -> (result: ClipboardPasteResult)
    ensures
        result@ == accepted(format, width, height, bytes@, outcome(decoded)),
{
    if let Err(message) = decoded {
        return ClipboardPasteResult::DecodeFailed(message);
    }
    ClipboardPasteResult::Image(
        EmbeddedImage { mime_type: format.canonical_mime_type().to_owned(), width, height, bytes },
    )
}

/// Accepts a pasted image, or says why not.
pub fn decode_clipboard_image(mime_type: &str, bytes: Vec<u8>) -> (result: ClipboardPasteResult)
    ensures
        result@ == pasted(mime_type@, bytes@) || (paste_may_fail(mime_type@, bytes@) && result@
            is DecodeFailed),
{
    let format = match format_from_mime_or_bytes(mime_type, bytes.as_slice()) {
        Some(format) => format,
        None => {
            let mut message = "unsupported MIME type ".to_owned();
            message.append(mime_type);
            return ClipboardPasteResult::DecodeFailed(message);
        },
    };
    let (width, height) = match image_dimensions(format, bytes.as_slice()) {
        Ok(dimensions) => dimensions,
        Err(message) => return ClipboardPasteResult::DecodeFailed(message),
    };
    proof {
        lemma_area(width as int, height as int);
    }
    let pixels: u64 = width as u64 * height as u64;
    if pixels > MAX_CLIPBOARD_IMAGE_PIXELS {
        return ClipboardPasteResult::TooManyPixels {
            width,
            height,
            limit: MAX_CLIPBOARD_IMAGE_PIXELS,
        };
    }
    let decoded = decode_rgba(format, bytes.as_slice());
    accept_decoded(format, width, height, bytes, decoded)
}

proof fn lemma_first_uri_list(offered: Seq<Seq<char>>)
    ensures
        match first_uri_list(offered) {
            Some(mime) => offered.contains(mime) && names_uri_list(mime),
            None => !offered.contains("text/uri-list"@),
        },
    decreases offered.len(),
{
    if offered.len() > 0 && !names_uri_list(offered[0]) {
        let rest = offered.drop_first();
        lemma_first_uri_list(rest);
        assert forall|i: int| 0 < i < offered.len() implies (#[trigger] offered[i]) == rest[i
            - 1] by {}
        if let Some(mime) = first_uri_list(rest) {
            assert(offered[rest.index_of(mime) + 1] == mime);
        }
    }
}

proof fn lemma_best_ranked(offered: Seq<Seq<char>>, rank: nat)
    requires
        rank <= ranked_mimes().len(),
    ensures
        match best_ranked(offered, rank) {
            Some(mime) => exists|r: int|
                #![trigger ranked_mimes()[r]]
                {
                    &&& rank <= r < ranked_mimes().len()
                    &&& ranked_mimes()[r] == mime
                    &&& offered.contains(mime)
                    &&& forall|better: int|
                        rank <= better < r ==> !offered.contains(
                            #[trigger] ranked_mimes()[better],
                        )
                },
            None => forall|r: int|
                rank <= r < ranked_mimes().len() ==> !offered.contains(
                    #[trigger] ranked_mimes()[r],
                ),
        },
    decreases ranked_mimes().len() - rank,
{
    if rank < ranked_mimes().len() && !offered.contains(ranked_mimes()[rank as int]) {
        lemma_best_ranked(offered, rank + 1);
    }
}

/// A chosen MIME type is one of those offered, and one is chosen whenever a
/// ranked one or a list of files is offered.
pub proof fn chosen_mimes_were_offered(offered: Seq<Seq<char>>)
    ensures
        supported_mime(offered) matches Some(mime) ==> offered.contains(mime),
        supported_mime(offered) is None <==> {
            &&& forall|r: int|
                0 <= r < ranked_mimes().len() ==> !offered.contains(#[trigger] ranked_mimes()[r])
            &&& !offered.contains("text/uri-list"@)
        },
{
    lemma_best_ranked(offered, 0);
    lemma_first_uri_list(offered);
}

/// A better-ranked MIME type wins over everything ranked below it, in whatever
/// order they are offered; an animated GIF wins over the flattened PNG offered
/// alongside it.
pub proof fn better_ranked_mimes_win(offered: Seq<Seq<char>>, rank: int)
    requires
        0 <= rank < ranked_mimes().len(),
        offered.contains(ranked_mimes()[rank]),
        forall|better: int|
            0 <= better < rank ==> !offered.contains(#[trigger] ranked_mimes()[better]),
    ensures
        supported_mime(offered) == Some(ranked_mimes()[rank]),
        ranked_mimes()[1] == "image/gif"@,
        ranked_mimes()[2] == "image/png"@,
{
    lemma_best_ranked(offered, 0);
    if let Some(mime) = best_ranked(offered, 0) {
        let found = choose|r: int|
            #![trigger ranked_mimes()[r]]
            {
                &&& 0 <= r < ranked_mimes().len()
                &&& ranked_mimes()[r] == mime
                &&& offered.contains(mime)
                &&& forall|better: int|
                    0 <= better < r ==> !offered.contains(#[trigger] ranked_mimes()[better])
            };
        if rank < found {
            assert(!offered.contains(ranked_mimes()[rank]));
        } else if found < rank {
            assert(!offered.contains(ranked_mimes()[found]));
        }
    }
}

proof fn lemma_formats_name_themselves(format: EncodedImageFormat)
    ensures
        named_format(format.mime_type()) == Some(format),
{
    reveal_strlit("image/png");
    reveal_strlit("image/jpeg");
    reveal_strlit("image/jpg");
    reveal_strlit("image/gif");
    assert("image/png"@[6] == 'p');
    assert("image/jpeg"@[6] == 'j');
    assert("image/jpg"@[6] == 'j');
    assert("image/gif"@[6] == 'g');
}

/// An accepted image keeps its bytes, is of the format that it came as whatever
/// MIME type it was offered under, keeps to the pixel limit and decodes.
pub proof fn accepted_images_can_be_shown(mime: Seq<char>, bytes: Seq<u8>)
    ensures
        pasted(mime, bytes) matches PasteModel::Image(image) ==> {
            &&& image.bytes == bytes
            &&& image.width * image.height <= MAX_CLIPBOARD_IMAGE_PIXELS
            &&& format_of(mime, bytes) matches Some(format)
            &&& format_of(image.mime_type, bytes) == Some(format)
            &&& size_of(format, bytes) == Ok::<(u32, u32), Seq<char>>((image.width, image.height))
            &&& decoded_still(format, bytes) is Ok
        },
{
    if let Some(format) = format_of(mime, bytes) {
        lemma_formats_name_themselves(format);
    }
}

/// The MIME types in the order in which they are taken: copied shapes, GIF, PNG,
/// JPEG, JPEG under its other name, and then a list of files. Whichever of them
/// comes first is chosen, wherever it stands among those offered.
pub proof fn mimes_are_taken_in_order(offered: Seq<Seq<char>>)
    ensures
        ({
            let selection = offered.contains("application/x-wayscriber-selection+json"@);
            let gif = offered.contains("image/gif"@);
            let png = offered.contains("image/png"@);
            let jpeg = offered.contains("image/jpeg"@);
            let jpg = offered.contains("image/jpg"@);
            let files = offered.contains("text/uri-list"@);
            let chosen = supported_mime(offered);
            &&& selection ==> chosen == Some("application/x-wayscriber-selection+json"@)
            &&& !selection && gif ==> chosen == Some("image/gif"@)
            &&& !selection && !gif && png ==> chosen == Some("image/png"@)
            &&& !selection && !gif && !png && jpeg ==> chosen == Some("image/jpeg"@)
            &&& !selection && !gif && !png && !jpeg && jpg ==> chosen == Some("image/jpg"@)
            &&& !selection && !gif && !png && !jpeg && !jpg && files ==> chosen == Some(
                "text/uri-list"@,
            )
            &&& !selection && !gif && !png && !jpeg && !jpg && !files ==> chosen is None
        }),
{
    reveal_with_fuel(best_ranked, 6);
    lemma_first_uri_list(offered);
}

/// What is chosen does not depend on the order of the offers, nor on how often
/// one is made.
pub proof fn order_of_offers_does_not_matter(offered: Seq<Seq<char>>, other: Seq<Seq<char>>)
    requires
        forall|mime: Seq<char>| #[trigger] offered.contains(mime) <==> other.contains(mime),
    ensures
        supported_mime(offered) == supported_mime(other),
{
    mimes_are_taken_in_order(offered);
    mimes_are_taken_in_order(other);
    assert(offered.contains("application/x-wayscriber-selection+json"@) == other.contains(
        "application/x-wayscriber-selection+json"@,
    ));
    assert(offered.contains("image/gif"@) == other.contains("image/gif"@));
    assert(offered.contains("image/png"@) == other.contains("image/png"@));
    assert(offered.contains("image/jpeg"@) == other.contains("image/jpeg"@));
    assert(offered.contains("image/jpg"@) == other.contains("image/jpg"@));
    assert(offered.contains("text/uri-list"@) == other.contains("text/uri-list"@));
}

/// Why pasted data is refused, and what is stored of it otherwise. Data of no
/// known format is refused by its MIME type, a size that cannot be read by what
/// stopped the reading, more than forty million pixels by their number, and
/// pixels that do not decode by what stopped the decoding. All else is stored
/// with its size and bytes as they came, under the MIME type of its format.
pub proof fn pasted_data_is_refused_or_stored(mime: Seq<char>, bytes: Seq<u8>)
    ensures
        format_of(mime, bytes) is None ==> pasted(mime, bytes) == PasteModel::DecodeFailed(
            "unsupported MIME type "@ + mime,
        ),
        format_of(mime, bytes) matches Some(format) ==> match size_of(format, bytes) {
            Err(message) => pasted(mime, bytes) == PasteModel::DecodeFailed(message),
            Ok((width, height)) => {
                &&& width * height > 40_000_000 ==> pasted(mime, bytes)
                    == (PasteModel::TooManyPixels { width, height, limit: 40_000_000 })
                &&& width * height <= 40_000_000 ==> match decoded_still(format, bytes) {
                    Err(message) => pasted(mime, bytes) == PasteModel::DecodeFailed(message),
                    Ok(_) => {
                        &&& pasted(mime, bytes) is Image
                        &&& pasted(mime, bytes)->Image_0.width == width
                        &&& pasted(mime, bytes)->Image_0.height == height
                        &&& pasted(mime, bytes)->Image_0.bytes == bytes
                        &&& format is Png ==> pasted(mime, bytes)->Image_0.mime_type
                            == "image/png"@
                        &&& format is Jpeg ==> pasted(mime, bytes)->Image_0.mime_type
                            == "image/jpeg"@
                        &&& format is Gif ==> pasted(mime, bytes)->Image_0.mime_type
                            == "image/gif"@
                    },
                }
            },
        },
{
}

/// Accepting pasted data may fail for want of a thread only where it is a JPEG
/// image of an acceptable size that is wider than 128 pixels.
pub proof fn only_wide_jpeg_images_need_a_thread(mime: Seq<char>, bytes: Seq<u8>)
    ensures
        paste_may_fail(mime, bytes) ==> {
            &&& format_of(mime, bytes) == Some(EncodedImageFormat::Jpeg)
            &&& size_of(EncodedImageFormat::Jpeg, bytes) matches Ok((width, height))
            &&& width > 128
            &&& width * height <= 40_000_000
        },
{
}

/// An image of an acceptable size is stored when its pixels decode, with its size
/// and bytes as they came and under the MIME type of its format, and is refused
/// by what stopped the decoding otherwise.
pub proof fn decoded_images_are_stored(
    format: EncodedImageFormat,
    width: u32,
    height: u32,
    bytes: Seq<u8>,
    decoded: DecodedModel,
    message: Seq<char>,
)
    ensures
        accepted(format, width, height, bytes, Err(message)) == PasteModel::DecodeFailed(message),
        accepted(format, width, height, bytes, Ok(decoded)) == PasteModel::Image(
            EmbeddedModel {
                mime_type: match format {
                    EncodedImageFormat::Png => "image/png"@,
                    EncodedImageFormat::Jpeg => "image/jpeg"@,
                    EncodedImageFormat::Gif => "image/gif"@,
                },
                width,
                height,
                bytes,
            },
        ),
{
}

/// A list of files is offered under one MIME type, and everything that is
/// offered is looked at as it is.
pub proof fn lists_of_files_have_one_mime_type(offered: Seq<String>, index: int)
    requires
        0 <= index < offered.len(),
    ensures
        texts(offered).len() == offered.len(),
        texts(offered)[index] == offered[index]@,
        names_uri_list(texts(offered)[index]) <==> offered[index]@ == "text/uri-list"@,
{
}

/// The outcome of pasting shows its image, its message or its numbers as they
/// are.
pub proof fn outcomes_of_pasting_are_shown_as_they_are(
    image: EmbeddedImage,
    message: String,
    width: u32,
    height: u32,
    limit: u64,
)
    ensures
        ClipboardPasteResult::Image(image)@ == PasteModel::Image(image@),
        ClipboardPasteResult::DecodeFailed(message)@ == PasteModel::DecodeFailed(message@),
        (ClipboardPasteResult::TooManyPixels { width, height, limit })@
            == (PasteModel::TooManyPixels { width, height, limit }),
{
}

} // verus!
