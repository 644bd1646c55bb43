//! What to paint for an image shape, and which frame of it.

use crate::animation::{AnimatedImage, AnimationStatus};
use crate::cache::{cache_key, CachedImage, ImageSurfaceCache};
use crate::image_decode::decoded::DecodedImage;
use crate::image_decode::format::{decode_rgba, format_from_mime_or_bytes};
use crate::image_decode::gif::{
    decode_animation, MAX_ANIMATION_DECODED_BYTES, MAX_ANIMATION_FRAMES,
};
use crate::shape::{EmbeddedImage, Rect};
use crate::surface::{surface_from_rgba, Surface};
use crate::time::Duration;
use std::rc::Rc;
use vstd::prelude::*;

verus! {

use crate::animation::{
    assembled, assembled_animations_are_well_formed, elapsed, nanos_of, ordinary_timeline,
    surfaces_of, timeline, AnimationModel, StatusModel,
};
use crate::cache::{
    key_of, remembered_image_is_found, remembering_alters_no_other_image,
    remembering_keeps_the_cache_sound, CacheModel, CachedModel, MAX_IMAGE_WEIGHT,
};
use crate::image_decode::decoded::DecodedModel;
use crate::image_decode::format::{
    decoded_still, decoded_stills_are_well_formed, format_of, may_give_up, size_of,
    EncodedImageFormat,
};
use crate::image_decode::gif::{
    decoded_animation, decoded_frames_are_counted, decoding_keeps_to_its_budgets,
    still_picture_is_the_first_frame, GifAnimationModel,
};
use crate::shape::{extent, low_end, EmbeddedModel};
use crate::surface::{
    bytes_of, converted, paintable, surfaces_are_well_formed, SurfaceModel,
};
use crate::text::outcome;
use crate::time::NANOS_PER_MILLI;

/// What rendering keeps between frames: the decoded images, and the playback
/// position shared by every animated image in the current pass.
///
/// The position is set once per rendered frame so that all animations advance
/// together and so exports capture exactly the frame that was last on screen,
/// rather than re-deriving a time of their own.
#[derive(Debug)]
pub struct RenderState {
    playhead: Duration,
    cache: ImageSurfaceCache,
}

/// A [`RenderState`] in plain values; the position is in nanoseconds.
#[verifier::ext_equal]
pub ghost struct RenderModel {
    pub playhead: nat,
    pub cache: CacheModel,
}

impl View for RenderState {
    type V = RenderModel;

    closed spec fn view(&self) -> RenderModel {
        RenderModel { playhead: self.playhead@, cache: self.cache@ }
    }
}

impl RenderState {
    /// Nothing decoded yet, and playback at its start.
    pub fn new() -> (render: RenderState)
        ensures
            render@ == (RenderModel {
                playhead: 0,
                cache: CacheModel { entries: Seq::empty(), bytes: 0 },
            }),
    {
        RenderState { playhead: Duration::zero(), cache: ImageSurfaceCache::new() }
    }
}

/// Positions playback for all subsequent renders.
pub fn set_animation_playhead(render: &mut RenderState, playhead: Duration)
    ensures
        final(render)@ == (RenderModel { playhead: playhead@, cache: old(render)@.cache }),
{
    render.playhead = playhead;
}

/// Current playback position.
pub fn animation_playhead(render: &RenderState) -> (playhead: Duration)
    ensures
        playhead@ == render@.playhead,
{
    render.playhead
}

/// True when this payload could hold multiple frames, judged from the stored
/// MIME type and magic bytes alone. Cheap enough to call before decoding.
pub fn is_animatable(data: &EmbeddedImage) -> (animatable: bool)
    ensures
        animatable == animatable_payload(data@),
{
    match format_from_mime_or_bytes(data.mime_type.as_str(), data.bytes.as_slice()) {
        Some(format) => format.is_animatable(),
        None => false,
    }
}

/// Whether a payload could hold multiple frames.
pub open spec fn animatable_payload(data: EmbeddedModel) -> bool {
    format_of(data.mime_type, data.bytes) == Some(EncodedImageFormat::Gif)
}

/// The pictures of an animation's frames.
pub open spec fn pictures_of(animation: GifAnimationModel) -> Seq<SurfaceModel> {
    Seq::new(
        animation.frames.len(),
        |i: int|
            converted(
                DecodedModel {
                    width: animation.width,
                    height: animation.height,
                    rgba: animation.frames[i].rgba,
                },
            )->Some_0,
    )
}

/// How long each of an animation's frames is shown.
pub open spec fn delays_of(animation: GifAnimationModel) -> Seq<nat> {
    Seq::new(animation.frames.len(), |i: int| animation.frames[i].delay)
}

/// The animation that a decoded GIF is played as. There is none when only its
/// opening frames were decoded, since looping those would misrepresent the
/// image, when its screen cannot be painted, or when it has a single frame.
pub open spec fn played_as(animation: GifAnimationModel) -> Option<AnimationModel> {
    if animation.truncated || !paintable(animation.width, animation.height) {
        None
    } else {
        assembled(pictures_of(animation), delays_of(animation), animation.passes)
    }
}

/// The animation that a GIF is played as.
pub open spec fn animated_form(bytes: Seq<u8>) -> Option<AnimationModel> {
    match decoded_animation(bytes, MAX_ANIMATION_FRAMES, MAX_ANIMATION_DECODED_BYTES) {
        Ok(animation) => played_as(animation),
        Err(_) => None,
    }
}

/// What the outcome of decoding a picture is remembered as: a still picture
/// where there is one that can be painted, else a failure.
pub open spec fn still_form(decoded: Result<DecodedModel, Seq<char>>) -> CachedModel {
    match decoded {
        Err(_) => CachedModel::Failed,
        Ok(image) => match converted(image) {
            Some(surface) => CachedModel::Still(surface),
            None => CachedModel::Failed,
        },
    }
}

/// What a payload is remembered as: an animation where it is one, else a still
/// picture where it decodes to one that can be painted, else a failure.
pub open spec fn decoded_form(data: EmbeddedModel) -> CachedModel {
    match format_of(data.mime_type, data.bytes) {
        None => CachedModel::Failed,
        Some(format) => if format is Gif && animated_form(data.bytes) is Some {
            CachedModel::Animated(animated_form(data.bytes)->Some_0)
        } else {
            still_form(decoded_still(format, data.bytes))
        },
    }
}

/// Whether decoding a payload may also fail because the system refuses a thread.
pub open spec fn may_fail(data: EmbeddedModel) -> bool {
    format_of(data.mime_type, data.bytes) matches Some(format) && may_give_up(format, data.bytes)
}

/// Decodes every frame. Returns `None` for single-frame GIFs and for payloads
/// that blow the decode budget, both of which render fine as stills.
pub fn decode_animated(data: &EmbeddedImage) -> (animation: Option<AnimatedImage>)
    ensures
        match animation {
            Some(made) => animated_form(data.bytes@) == Some(made@),
            None => animated_form(data.bytes@) is None,
        },
{
    let animation = match decode_animation(data.bytes.as_slice()) {
        Ok(animation) => animation,
        Err(_) => return None,
    };
    if animation.truncated {
        // Looping only the opening frames would misrepresent the image.
        return None;
    }
    let ghost model = animation@;
    proof {
        decoded_frames_are_counted(
            data.bytes@,
            MAX_ANIMATION_FRAMES,
            MAX_ANIMATION_DECODED_BYTES,
        );
    }
    let count: usize = animation.frames.len();
    let mut delays: Vec<Duration> = Vec::with_capacity(count);
    let mut surfaces: Vec<Rc<Surface>> = Vec::with_capacity(count);
    let mut i: usize = 0;
    while i < count
        invariant
            i <= count,
            count == animation.frames@.len(),
            model == animation@,
            !model.truncated,
            decoded_animation(data.bytes@, MAX_ANIMATION_FRAMES, MAX_ANIMATION_DECODED_BYTES)
                == Ok::<GifAnimationModel, Seq<char>>(model),
            model.width > 0 && model.height > 0,
            forall|j: int|
                0 <= j < model.frames.len() ==> (#[trigger] model.frames[j]).rgba.len()
                    == model.width * model.height * 4,
            i > 0 ==> paintable(model.width, model.height),
            surfaces_of(surfaces@) == pictures_of(model).take(i as int),
            nanos_of(delays@) == delays_of(model).take(i as int),
        decreases count - i,
    {
        assert(model.frames[i as int] == animation.frames@[i as int]@);
        let rgba = animation.frames[i].rgba.clone();
        assert(rgba@ =~= model.frames[i as int].rgba);
        let decoded = DecodedImage { width: animation.width, height: animation.height, rgba };
        proof {
            assert((model.height + 1) * model.width == model.width * model.height + model.width)
                by (nonlinear_arith);
            surfaces_are_well_formed(decoded@);
        }
        let ghost pictures = surfaces_of(surfaces@);
        let ghost nanos = nanos_of(delays@);
        match surface_from_rgba(&decoded) {
            Some(surface) => {
                surfaces.push(Rc::new(surface));
            },
            None => return None,
        }
        delays.push(animation.frames[i].delay);
        proof {
            assert(surfaces_of(surfaces@) =~= pictures.push(pictures_of(model)[i as int]));
            assert(pictures_of(model).take(i + 1) =~= pictures.push(
                pictures_of(model)[i as int],
            ));
            assert(nanos_of(delays@) =~= nanos.push(delays_of(model)[i as int]));
            assert(delays_of(model).take(i + 1) =~= nanos.push(delays_of(model)[i as int]));
        }
        i = i + 1;
    }
    proof {
        assert(model.frames.len() == count);
        assert(surfaces_of(surfaces@) =~= pictures_of(model));
        assert(nanos_of(delays@) =~= delays_of(model));
    }
    AnimatedImage::new(surfaces, delays.as_slice(), animation.passes)
}

/// What the outcome of decoding a picture is remembered as.
pub fn still_image(decoded: Result<DecodedImage, String>) -> (image: CachedImage)
    requires
        decoded matches Ok(picture) ==> picture@.well_formed(),
    ensures
        image@ == still_form(outcome(decoded)),
{
    match decoded {
        Ok(picture) => {
            proof {
                assert((picture.height + 1) * picture.width == picture.width * picture.height
                    + picture.width) by (nonlinear_arith);
            }
            match surface_from_rgba(&picture) {
                Some(surface) => CachedImage::Still(Rc::new(surface)),
                None => CachedImage::Failed,
            }
        },
        Err(_) => CachedImage::Failed,
    }
}

/// Decodes a payload to what is remembered of it.
pub fn decode_image(data: &EmbeddedImage) -> (image: CachedImage)
    ensures
        image@ == decoded_form(data@) || (may_fail(data@) && image@ is Failed),
{
    let format = match format_from_mime_or_bytes(
        data.mime_type.as_str(),
        data.bytes.as_slice(),
    ) {
        Some(format) => format,
        None => return CachedImage::Failed,
    };
    if format.is_animatable() {
        if let Some(animated) = decode_animated(data) {
            return CachedImage::Animated(Rc::new(animated));
        }
    }
    proof {
        decoded_stills_are_well_formed(format, data.bytes@);
    }
    still_image(decode_rgba(format, data.bytes.as_slice()))
}

impl RenderModel {
    /// What a payload is rendered from: what is remembered of it, or else what
    /// it decodes to.
    pub open spec fn looked_up(self, data: EmbeddedModel) -> CachedModel {
        match self.cache.get(key_of(data)) {
            Some(image) => image,
            None => decoded_form(data),
        }
    }

    /// The state once a payload was looked up: unchanged if it was remembered,
    /// and else with what it decodes to remembered.
    pub open spec fn after_lookup(self, data: EmbeddedModel) -> RenderModel {
        match self.cache.get(key_of(data)) {
            Some(_) => self,
            None => RenderModel {
                playhead: self.playhead,
                cache: self.cache.inserted(key_of(data), decoded_form(data)),
            },
        }
    }

    /// Whether looking a payload up may fail where it need not: it is not
    /// remembered, and decoding it may fail.
    pub open spec fn lookup_may_fail(self, data: EmbeddedModel) -> bool {
        self.cache.get(key_of(data)) is None && may_fail(data)
    }

    /// The state once looking a payload up has failed in that way: the failure
    /// is remembered.
    pub open spec fn after_failure(self, data: EmbeddedModel) -> RenderModel {
        RenderModel {
            playhead: self.playhead,
            cache: self.cache.inserted(key_of(data), CachedModel::Failed),
        }
    }

    /// Where a payload's playback is at a position, if it is an animation.
    pub open spec fn status_of(self, data: EmbeddedModel, playhead: nat) -> Option<StatusModel> {
        match self.looked_up(data) {
            CachedModel::Animated(animation) => Some(animation.status_at(playhead)),
            _ => None,
        }
    }

    /// The picture that a payload shows at the current playback position.
    pub open spec fn picture_of(self, data: EmbeddedModel) -> Option<SurfaceModel> {
        match self.looked_up(data) {
            CachedModel::Still(surface) => Some(surface),
            CachedModel::Animated(animation) => Some(
                animation.frames[animation.status_at(self.playhead).frame_index as int],
            ),
            CachedModel::Failed => None,
        }
    }
}

/// What a payload is rendered from. Decodes on first use.
pub fn cached_image(render: &mut RenderState, data: &EmbeddedImage) -> (image: Rc<CachedImage>)
    ensures
        ({
            ||| image@ == old(render)@.looked_up(data@) && final(render)@ == old(
                render,
            )@.after_lookup(data@)
            ||| old(render)@.lookup_may_fail(data@) && image@ is Failed && final(render)@ == old(
                render,
            )@.after_failure(data@)
        }),
{
    let key = cache_key(data);
    match render.cache.get(&key) {
        Some(image) => image,
        None => render.cache.insert(key, Rc::new(decode_image(data))),
    }
}

/// Playback state for an image at the given position, or `None` when the image
/// is a still (or failed to decode) and therefore never needs a redraw.
///
/// Decodes on first use, so the caller drives when that cost is paid.
pub fn animation_status(
    render: &mut RenderState,
    data: &EmbeddedImage,
    playhead: Duration,
) -> (status: Option<AnimationStatus>)
    ensures
        match status {
            Some(now) => old(render)@.status_of(data@, playhead@) == Some(now@),
            None => old(render)@.status_of(data@, playhead@) is None,
        },
        ({
            ||| final(render)@ == old(render)@.after_lookup(data@)
            ||| old(render)@.lookup_may_fail(data@) && final(render)@ == old(
                render,
            )@.after_failure(data@)
        }),
{
    match &*cached_image(render, data) {
        CachedImage::Animated(animation) => Some(animation.status_at(playhead)),
        CachedImage::Still(_) | CachedImage::Failed => None,
    }
}

/// A picture that there may be, as a sequence of pixels.
pub open spec fn picture_view(surface: Option<Rc<Surface>>) -> Option<SurfaceModel> {
    match surface {
        Some(picture) => Some(picture@),
        None => None,
    }
}

/// The surface to paint for this image right now, honoring the shared playhead.
pub fn current_surface(render: &mut RenderState, data: &EmbeddedImage) -> (surface: Option<
    Rc<Surface>,
>)
    ensures
        ({
            ||| picture_view(surface) == old(render)@.picture_of(data@) && final(render)@ == old(
                render,
            )@.after_lookup(data@)
            ||| old(render)@.lookup_may_fail(data@) && surface is None && final(render)@ == old(
                render,
            )@.after_failure(data@)
        }),
{
    let playhead = animation_playhead(render);
    match &*cached_image(render, data) {
        CachedImage::Still(surface) => Some(surface.clone()),
        CachedImage::Animated(animation) => {
            let status = animation.status_at(playhead);
            match animation.surface(status.frame_index) {
                Some(surface) => Some(surface.clone()),
                None => None,
            }
        },
        CachedImage::Failed => None,
    }
}

/// What to paint for an image shape.
#[derive(Debug)]
pub enum Painting {
    /// The shape covers no area.
    Nothing,
    /// The image cannot be shown; its place is marked with a crossed-out box.
    Placeholder(Rect),
    /// The image, scaled to fill its place.
    Picture { place: Rect, surface: Rc<Surface> },
}

/// A [`Painting`] with its picture as a sequence.
#[verifier::ext_equal]
pub ghost enum PaintingModel {
    Nothing,
    Placeholder(Rect),
    Picture { place: Rect, surface: SurfaceModel },
}

impl View for Painting {
    type V = PaintingModel;

    open spec fn view(&self) -> PaintingModel {
        match self {
            Painting::Nothing => PaintingModel::Nothing,
            Painting::Placeholder(place) => PaintingModel::Placeholder(*place),
            Painting::Picture { place, surface } => PaintingModel::Picture {
                place: *place,
                surface: surface@,
            },
        }
    }
}

/// How far a shape extends whose size is given with a direction, within what a
/// 32-bit number holds.
pub open spec fn span(length: i32) -> i32 {
    if length == i32::MIN {
        i32::MAX
    } else {
        extent(length as int) as i32
    }
}

/// The place that an image shape fills.
pub open spec fn place_of(x: i32, y: i32, w: i32, h: i32) -> Rect {
    Rect {
        x: low_end(x as int, w as int) as i32,
        y: low_end(y as int, h as int) as i32,
        width: span(w),
        height: span(h),
    }
}

fn spanned(length: i32) -> (size: i32)
    ensures
        size == span(length),
{
    if length == i32::MIN {
        i32::MAX
    } else if length < 0 {
        -length
    } else {
        length
    }
}

/// What fills a place: a picture, or a placeholder where there is none.
pub open spec fn painted(place: Rect, picture: Option<SurfaceModel>) -> PaintingModel {
    match picture {
        Some(surface) => PaintingModel::Picture { place, surface },
        None => PaintingModel::Placeholder(place),
    }
}

/// Fills a place with a picture, or with a placeholder where there is none.
pub fn paint(place: Rect, surface: Option<Rc<Surface>>) -> (painting: Painting)
    ensures
        painting@ == painted(place, picture_view(surface)),
{
    match surface {
        Some(surface) => Painting::Picture { place, surface },
        None => Painting::Placeholder(place),
    }
}

/// Decides what to paint for an image shape. Negative sizes extend to the left
/// or upwards; the image itself is not mirrored.
pub fn render_image_shape(
    render: &mut RenderState,
    x: i32,
    y: i32,
    w: i32,
    h: i32,
    data: &EmbeddedImage,
) -> (painting: Painting)
    requires
        w != 0 && h != 0 ==> low_end(x as int, w as int) >= i32::MIN && low_end(
            y as int,
            h as int,
        ) >= i32::MIN,
    ensures
        w == 0 || h == 0 ==> painting@ is Nothing && final(render)@ == old(render)@,
        w != 0 && h != 0 ==> {
            ||| final(render)@ == old(render)@.after_lookup(data@) && painting@ == painted(
                place_of(x, y, w, h),
                old(render)@.picture_of(data@),
            )
            ||| old(render)@.lookup_may_fail(data@) && final(render)@ == old(
                render,
            )@.after_failure(data@) && painting@ == painted(place_of(x, y, w, h), None)
        },
{
    if w == 0 || h == 0 {
        return Painting::Nothing;
    }
    let left: i32 = if w < 0 {
        x + w
    } else {
        x
    };
    let top: i32 = if h < 0 {
        y + h
    } else {
        y
    };
    let place = Rect { x: left, y: top, width: spanned(w), height: spanned(h) };
    paint(place, current_surface(render, data))
}

/// Looking a payload up again gives the same image and changes nothing. This
/// holds of payloads that fail to decode as well: they are not decoded again.
pub proof fn payloads_are_decoded_once(render: RenderModel, data: EmbeddedModel)
    ensures
        render.after_lookup(data).looked_up(data) == render.looked_up(data),
        render.after_lookup(data).after_lookup(data) == render.after_lookup(data),
        !render.after_lookup(data).lookup_may_fail(data),
        render.lookup_may_fail(data) ==> {
            let after = render.after_failure(data);
            &&& after.looked_up(data) is Failed
            &&& after.after_lookup(data) == after
            &&& !after.lookup_may_fail(data)
        },
{
    remembered_image_is_found(render.cache, key_of(data), decoded_form(data));
    remembered_image_is_found(render.cache, key_of(data), CachedModel::Failed);
}

impl RenderModel {
    /// Whether what is remembered for a payload, if anything is, is what the
    /// payload decodes to.
    pub open spec fn faithful_to(self, data: EmbeddedModel) -> bool {
        self.cache.get(key_of(data)) matches Some(image) ==> image == decoded_form(data)
    }
}

/// Looking a payload up gives what it decodes to, and leaves what is remembered
/// for other payloads faithful. Payloads that share a key must decode alike: a
/// key only samples a payload.
pub proof fn lookups_stay_faithful(render: RenderModel, data: EmbeddedModel, other: EmbeddedModel)
    requires
        render.cache.sound(),
        render.faithful_to(data),
        render.faithful_to(other),
        key_of(data) == key_of(other) ==> decoded_form(data) == decoded_form(other),
    ensures
        render.looked_up(data) == decoded_form(data),
        render.after_lookup(data).faithful_to(other),
        key_of(data) != key_of(other) ==> render.after_failure(data).faithful_to(other),
{
    if key_of(data) == key_of(other) {
        payloads_are_decoded_once(render, data);
        remembered_image_is_found(render.cache, key_of(data), decoded_form(data));
    } else {
        remembering_alters_no_other_image(
            render.cache,
            key_of(data),
            decoded_form(data),
            key_of(other),
        );
        remembering_alters_no_other_image(
            render.cache,
            key_of(data),
            CachedModel::Failed,
            key_of(other),
        );
    }
}

/// Only a payload of a format that can hold several frames decodes to an
/// animation.
pub proof fn only_animatable_payloads_are_animated(data: EmbeddedModel)
    ensures
        decoded_form(data) is Animated ==> animatable_payload(data),
{
}

/// A payload whose format cannot hold several frames never reports a playback
/// status, nor does it later on. What is remembered of it, if anything is, must
/// be what it decodes to.
pub proof fn stills_never_report_status(
    render: RenderModel,
    data: EmbeddedModel,
    playhead: nat,
)
    requires
        !animatable_payload(data),
        render.faithful_to(data),
    ensures
        render.status_of(data, playhead) is None,
        render.after_lookup(data).status_of(data, playhead) is None,
        render.lookup_may_fail(data) ==> render.after_failure(data).status_of(data, playhead)
            is None,
{
    payloads_are_decoded_once(render, data);
}

proof fn lemma_decoded_weight(data: EmbeddedModel)
    ensures
        decoded_form(data).weight() <= MAX_IMAGE_WEIGHT,
{
    match decoded_form(data) {
        CachedModel::Still(_) => {},
        CachedModel::Animated(played) => {
            let bytes = data.bytes;
            decoded_frames_are_counted(bytes, MAX_ANIMATION_FRAMES, MAX_ANIMATION_DECODED_BYTES);
            decoding_keeps_to_its_budgets(
                bytes,
                MAX_ANIMATION_FRAMES,
                MAX_ANIMATION_DECODED_BYTES,
            );
            let animation = decoded_animation(
                bytes,
                MAX_ANIMATION_FRAMES,
                MAX_ANIMATION_DECODED_BYTES,
            )->Ok_0;
            assert(played.frames[0] == pictures_of(animation)[0]);
            assert(bytes_of(played.frames[0]) * played.frames.len() == animation.frames.len() * (
            animation.width * animation.height * 4)) by (nonlinear_arith)
                requires
                    bytes_of(played.frames[0]) == animation.width * animation.height * 4,
                    played.frames.len() == animation.frames.len(),
            ;
        },
        CachedModel::Failed => {},
    }
}

/// Rendering starts with a sound cache, and looking a payload up keeps it so:
/// every payload has one entry, the byte count is that of the entries, and both
/// budgets are kept but for a single image that exceeds the byte budget alone.
pub proof fn lookups_keep_the_cache_sound(render: RenderModel, data: EmbeddedModel)
    ensures
        (CacheModel { entries: Seq::empty(), bytes: 0 }).sound(),
        render.cache.sound() ==> render.after_lookup(data).cache.sound(),
        render.cache.sound() && render.lookup_may_fail(data) ==> render.after_failure(
            data,
        ).cache.sound(),
{
    if render.cache.sound() && render.cache.get(key_of(data)) is None {
        lemma_decoded_weight(data);
        remembering_keeps_the_cache_sound(render.cache, key_of(data), decoded_form(data));
        remembering_keeps_the_cache_sound(render.cache, key_of(data), CachedModel::Failed);
    }
}

proof fn lemma_ordinary_delays(delays: Seq<nat>, count: nat)
    requires
        count <= delays.len(),
        forall|i: int|
            0 <= i < delays.len() ==> NANOS_PER_MILLI <= #[trigger] delays[i] <= 655_350
                * NANOS_PER_MILLI,
        count <= 600,
    ensures
        elapsed(delays, count) <= count * 655_350 * NANOS_PER_MILLI,
        count > 0 ==> elapsed(delays, count) == elapsed(delays, (count - 1) as nat) + delays[count
            - 1],
    decreases count,
{
    if count > 0 {
        lemma_ordinary_delays(delays, (count - 1) as nat);
    }
}

/// A GIF is played as an animation exactly when all its frames were decoded,
/// there are at least two of them, and its screen can be painted. The animation
/// has the GIF's frames in order, and every frame lasts at least 20ms, so that
/// waits are as long as the timeline says.
pub proof fn complete_gifs_with_several_frames_play(animation: GifAnimationModel, bytes: Seq<u8>)
    requires
        decoded_animation(bytes, MAX_ANIMATION_FRAMES, MAX_ANIMATION_DECODED_BYTES) == Ok::<
            GifAnimationModel,
            Seq<char>,
        >(animation),
    ensures
        animated_form(bytes) is Some <==> !animation.truncated && animation.frames.len() >= 2
            && paintable(animation.width, animation.height),
        animated_form(bytes) matches Some(played) ==> {
            &&& played.well_formed()
            &&& played.frames == pictures_of(animation)
            &&& played.passes == animation.passes
            &&& ordinary_timeline(played.ends)
        },
{
    decoded_frames_are_counted(bytes, MAX_ANIMATION_FRAMES, MAX_ANIMATION_DECODED_BYTES);
    decoding_keeps_to_its_budgets(bytes, MAX_ANIMATION_FRAMES, MAX_ANIMATION_DECODED_BYTES);
    let delays = delays_of(animation);
    let pictures = pictures_of(animation);
    assert forall|i: int| 0 <= i < delays.len() implies NANOS_PER_MILLI <= #[trigger] delays[i]
        <= 655_350 * NANOS_PER_MILLI by {
        assert(delays[i] == animation.frames[i].delay);
    }
    lemma_ordinary_delays(delays, delays.len());
    assembled_animations_are_well_formed(pictures, delays, animation.passes);
    let ends = timeline(delays);
    assert forall|i: int| 0 < i < ends.len() implies (#[trigger] ends[i]) >= ends[i - 1]
        + NANOS_PER_MILLI by {
        lemma_ordinary_delays(delays, (i + 1) as nat);
    }
    lemma_ordinary_delays(delays, 1);
}

/// Playback of a GIF starts with the picture that it would show as a still.
pub proof fn playback_starts_with_the_still_picture(bytes: Seq<u8>)
    ensures
        animated_form(bytes) matches Some(played) ==> {
            &&& played.status_at(0).frame_index == 0
            &&& decoded_still(EncodedImageFormat::Gif, bytes) matches Ok(still)
            &&& converted(still) == Some(played.frames[0])
        },
{
    if let Ok(animation) = decoded_animation(
        bytes,
        MAX_ANIMATION_FRAMES,
        MAX_ANIMATION_DECODED_BYTES,
    ) {
        if let Some(played) = animated_form(bytes) {
            complete_gifs_with_several_frames_play(animation, bytes);
            decoded_frames_are_counted(bytes, MAX_ANIMATION_FRAMES, MAX_ANIMATION_DECODED_BYTES);
            still_picture_is_the_first_frame(bytes);
            assert(played.frames[0] == pictures_of(animation)[0]);
            let total = played.total();
            assert(0nat % total == 0);
            if let Some(passes) = played.passes {
                assert(total * (passes as nat) > 0) by (nonlinear_arith)
                    requires
                        total > 0,
                        passes > 0,
                ;
            }
        }
    }
}

/// A GIF that decodes and whose screen can be painted is always shown: as an
/// animation where it is played as one, and as its first frame otherwise. So a
/// GIF that exceeds the decode budget, or that has a single frame, still renders.
pub proof fn gifs_that_do_not_play_show_their_first_frame(
    data: EmbeddedModel,
    animation: GifAnimationModel,
)
    requires
        animatable_payload(data),
        decoded_animation(data.bytes, MAX_ANIMATION_FRAMES, MAX_ANIMATION_DECODED_BYTES) == Ok::<
            GifAnimationModel,
            Seq<char>,
        >(animation),
        paintable(animation.width, animation.height),
    ensures
        animation.truncated || animation.frames.len() == 1 ==> decoded_form(data)
            == CachedModel::Still(pictures_of(animation)[0]),
        !animation.truncated && animation.frames.len() >= 2 ==> decoded_form(data) is Animated,
{
    complete_gifs_with_several_frames_play(animation, data.bytes);
    decoded_frames_are_counted(data.bytes, MAX_ANIMATION_FRAMES, MAX_ANIMATION_DECODED_BYTES);
    still_picture_is_the_first_frame(data.bytes);
}

/// Every frame of an animation stays on screen for as long as the GIF says: the
/// first frame ends when its delay is over, and each frame after it ends its own
/// delay later than the one before. The frames come in the order of the GIF, and
/// each shows its own pixels.
pub proof fn frames_last_as_long_as_the_gif_says(bytes: Seq<u8>, index: int)
    requires
        animated_form(bytes) is Some,
        0 <= index < animated_form(bytes)->Some_0.ends.len(),
    ensures
        ({
            let animation = decoded_animation(bytes, 600, 100_663_296)->Ok_0;
            let played = animated_form(bytes)->Some_0;
            let frame = animation.frames[index];
            &&& decoded_animation(bytes, 600, 100_663_296) is Ok
            &&& played.ends.len() == animation.frames.len()
            &&& played.frames.len() == animation.frames.len()
            &&& played.passes == animation.passes
            &&& index == 0 ==> played.ends[0] == frame.delay
            &&& index > 0 ==> played.ends[index] - played.ends[index - 1] == frame.delay
            &&& converted(
                DecodedModel {
                    width: animation.width,
                    height: animation.height,
                    rgba: frame.rgba,
                },
            ) == Some(played.frames[index])
        }),
{
    let animation = decoded_animation(
        bytes,
        MAX_ANIMATION_FRAMES,
        MAX_ANIMATION_DECODED_BYTES,
    )->Ok_0;
    decoded_frames_are_counted(bytes, MAX_ANIMATION_FRAMES, MAX_ANIMATION_DECODED_BYTES);
    decoding_keeps_to_its_budgets(bytes, MAX_ANIMATION_FRAMES, MAX_ANIMATION_DECODED_BYTES);
    let delays = delays_of(animation);
    assert forall|i: int| 0 <= i < delays.len() implies NANOS_PER_MILLI <= #[trigger] delays[i]
        <= 655_350 * NANOS_PER_MILLI by {
        assert(delays[i] == animation.frames[i].delay);
    }
    lemma_ordinary_delays(delays, (index + 1) as nat);
    let frame = animation.frames[index];
    surfaces_are_well_formed(
        DecodedModel { width: animation.width, height: animation.height, rgba: frame.rgba },
    );
}

/// An image fills the pixels of its shape and no others: those between `x` and
/// `x + w` across and between `y` and `y + h` down, whichever of the two ends is
/// the lower one.
pub proof fn images_fill_their_shape(x: i32, y: i32, w: i32, h: i32, px: int, py: int)
    requires
        w > -2_147_483_648,
        h > -2_147_483_648,
        x + w >= -2_147_483_648 || w > 0,
        y + h >= -2_147_483_648 || h > 0,
    ensures
        ({
            let place = place_of(x, y, w, h);
            (place.x <= px < place.x + place.width && place.y <= py < place.y + place.height)
                <==> (x <= px < x + w || x + w <= px < x) && (y <= py < y + h || y + h <= py < y)
        }),
{
}

/// A side that is longer than a 32-bit number can say is filled as far as such a
/// number goes.
pub proof fn the_longest_sides_are_cut(x: i32, y: i32, w: i32, h: i32)
    ensures
        w == -2_147_483_648 ==> place_of(x, y, w, h).width == 2_147_483_647,
        h == -2_147_483_648 ==> place_of(x, y, w, h).height == 2_147_483_647,
{
}

/// A picture is painted as it is, where it belongs; a placeholder stands in for
/// one that is missing, and only then.
pub proof fn pictures_are_painted_in_place(place: Rect, surface: SurfaceModel)
    ensures
        painted(place, Some(surface)) == (PaintingModel::Picture { place, surface }),
        painted(place, None) == PaintingModel::Placeholder(place),
{
}

/// What is painted follows the shared playback position: a still is the same at
/// every position, an animation shows the frame that its status at that position
/// names, and what failed to decode shows nothing. Only an animation has a
/// playback status, at whatever position it is asked for.
pub proof fn pictures_follow_the_playhead(
    render: RenderModel,
    data: EmbeddedModel,
    playhead: nat,
)
    ensures
        match render.looked_up(data) {
            CachedModel::Still(surface) => {
                &&& render.picture_of(data) == Some(surface)
                &&& render.status_of(data, playhead) is None
            },
            CachedModel::Animated(animation) => {
                &&& render.status_of(data, playhead) == Some(animation.status_at(playhead))
                &&& render.picture_of(data) == Some(
                    animation.frames[render.status_of(
                        data,
                        render.playhead,
                    )->Some_0.frame_index as int],
                )
            },
            CachedModel::Failed => {
                &&& render.picture_of(data) is None
                &&& render.status_of(data, playhead) is None
            },
        },
{
}

/// A remembered payload is used as it is remembered, and looking it up changes
/// nothing. One that is not remembered is decoded, and is then remembered as what
/// it decodes to. Either way the playback position stays.
pub proof fn lookups_remember_what_they_decode(render: RenderModel, data: EmbeddedModel)
    ensures
        render.cache.get(key_of(data)) matches Some(image) ==> {
            &&& render.looked_up(data) == image
            &&& render.after_lookup(data) == render
        },
        render.cache.get(key_of(data)) is None ==> {
            &&& render.looked_up(data) == decoded_form(data)
            &&& render.after_lookup(data).cache == render.cache.inserted(
                key_of(data),
                decoded_form(data),
            )
            &&& render.after_lookup(data).cache.get(key_of(data)) == Some(decoded_form(data))
        },
        render.after_lookup(data).playhead == render.playhead,
        render.after_failure(data).playhead == render.playhead,
        render.after_failure(data).cache == render.cache.inserted(
            key_of(data),
            CachedModel::Failed,
        ),
        render.after_failure(data).cache.get(key_of(data)) == Some(CachedModel::Failed),
        render.lookup_may_fail(data) ==> {
            &&& render.cache.get(key_of(data)) is None
            &&& format_of(data.mime_type, data.bytes) == Some(EncodedImageFormat::Jpeg)
            &&& size_of(EncodedImageFormat::Jpeg, data.bytes) matches Ok((width, _))
            &&& width > 128
        },
{
    remembered_image_is_found(render.cache, key_of(data), decoded_form(data));
    remembered_image_is_found(render.cache, key_of(data), CachedModel::Failed);
}

/// A decoded picture is remembered as the surface that it converts to, and as a
/// failure where it converts to none or did not decode.
pub proof fn stills_are_remembered_as_converted(image: DecodedModel, message: Seq<char>)
    ensures
        still_form(Err(message)) is Failed,
        converted(image) matches Some(surface) ==> still_form(Ok(image)) == CachedModel::Still(
            surface,
        ),
        converted(image) is None ==> still_form(Ok(image)) is Failed,
{
}

/// What a payload is remembered as: nothing that can be shown where its format
/// is unknown, where its pixels do not decode or where they cannot be painted; a
/// still picture of the pixels otherwise, unless it is a GIF that plays.
pub proof fn payloads_are_remembered_as_decoded(data: EmbeddedModel)
    ensures
        format_of(data.mime_type, data.bytes) is None ==> decoded_form(data) is Failed,
        format_of(data.mime_type, data.bytes) matches Some(format) ==> {
            let plays = format == EncodedImageFormat::Gif && animated_form(data.bytes) is Some;
            &&& plays ==> decoded_form(data) == CachedModel::Animated(
                animated_form(data.bytes)->Some_0,
            )
            &&& !plays ==> match decoded_still(format, data.bytes) {
                Err(_) => decoded_form(data) is Failed,
                Ok(image) => match converted(image) {
                    Some(surface) => decoded_form(data) == CachedModel::Still(surface),
                    None => decoded_form(data) is Failed,
                },
            }
        },
{
}

/// A painting's model shows its place and its picture as they are.
pub proof fn paintings_are_shown_as_they_are(place: Rect, surface: Rc<Surface>)
    ensures
        Painting::Nothing@ == PaintingModel::Nothing,
        Painting::Placeholder(place)@ == PaintingModel::Placeholder(place),
        (Painting::Picture { place, surface })@ == (PaintingModel::Picture {
            place,
            surface: surface@,
        }),
        picture_view(Some(surface)) == Some(surface@),
        picture_view(None) is None,
{
}

} // verus!
