//! Decoded images, kept so that each payload is decoded once.

use crate::animation::AnimatedImage;
use crate::shape::EmbeddedImage;
use crate::surface::{surface_bytes, Surface};
use std::collections::hash_map::DefaultHasher;
use std::hash::Hasher;
use std::rc::Rc;
use vstd::bytes::u64_to_le_bytes;
use vstd::prelude::*;

verus! {

use crate::animation::AnimationModel;
use crate::image_decode::decoded::lemma_area;
use crate::image_decode::region::lesser;
use crate::shape::EmbeddedModel;
use crate::surface::{bytes_of, SurfaceModel};
use vstd::bytes::{lemma_auto_spec_u64_to_from_le_bytes, spec_u64_to_le_bytes};
use vstd::std_specs::hash::DefaultHasherAdditionalSpecFns;

/// How many decoded images are kept.
pub const IMAGE_CACHE_ENTRIES: usize = 32;

/// Ceiling on decoded pixel data held by the cache. Stills are small enough that
/// the entry count governs them, but one animation can outweigh dozens of them,
/// so bytes are tracked as well.
pub const IMAGE_CACHE_BYTES: usize = 192 * 1024 * 1024;

/// How many bytes at either end of a payload identify it.
pub const HASH_SAMPLE: usize = 4096;

/// What identifies a payload.
#[derive(Debug)]
pub struct ImageCacheKey {
    pub mime_type: String,
    pub len: usize,
    pub hash: u64,
    pub width: u32,
    pub height: u32,
}

/// An [`ImageCacheKey`] with its text as a sequence.
#[verifier::ext_equal]
pub ghost struct KeyModel {
    pub mime_type: Seq<char>,
    pub len: nat,
    pub hash: u64,
    pub width: u32,
    pub height: u32,
}

impl View for ImageCacheKey {
    type V = KeyModel;

    open spec fn view(&self) -> KeyModel {
        KeyModel {
            mime_type: self.mime_type@,
            len: self.len as nat,
            hash: self.hash,
            width: self.width,
            height: self.height,
        }
    }
}

impl ImageCacheKey {
    fn same_as(&self, other: &ImageCacheKey) -> (same: bool)
        ensures
            same == (self@ == other@),
    {
        self.len == other.len && self.hash == other.hash && self.width == other.width
            && self.height == other.height && self.mime_type == other.mime_type
    }
}

/// The first bytes of a payload, as many as are sampled.
pub open spec fn head_of(bytes: Seq<u8>) -> Seq<u8> {
    bytes.take(lesser(bytes.len() as int, HASH_SAMPLE as int))
}

/// The last bytes of a payload, as many as are sampled and are not among the
/// first.
pub open spec fn tail_of(bytes: Seq<u8>) -> Seq<u8> {
    bytes.skip(
        if bytes.len() <= 2 * HASH_SAMPLE {
            lesser(bytes.len() as int, HASH_SAMPLE as int)
        } else {
            bytes.len() - HASH_SAMPLE
        },
    )
}

/// What is hashed of a payload: its length, and its first and last bytes, each
/// preceded by how many there are.
pub open spec fn sampled(bytes: Seq<u8>) -> Seq<Seq<u8>> {
    seq![
        spec_u64_to_le_bytes(bytes.len() as u64),
        spec_u64_to_le_bytes(head_of(bytes).len() as u64),
        head_of(bytes),
        spec_u64_to_le_bytes(tail_of(bytes).len() as u64),
        tail_of(bytes),
    ]
}

/// Identifies a payload from a bounded sample rather than the whole buffer.
///
/// This runs on every cache lookup, which for an animation means once per shape
/// per rendered frame; hashing megabytes at that rate was measurable on its own.
/// The sample is combined with the exact length, dimensions, and MIME type in
/// [`ImageCacheKey`], so two distinct images would have to agree on all of those
/// plus both ends of their encoded bytes to collide.
pub fn content_hash(bytes: &[u8]) -> (hash: u64)
    ensures
        hash == DefaultHasher::spec_finish(sampled(bytes@)),
{
    let len: usize = bytes.len();
    let head_end: usize = if len < HASH_SAMPLE {
        len
    } else {
        HASH_SAMPLE
    };
    // Never re-hash bytes already covered by the head sample.
    let far_start: usize = if len < HASH_SAMPLE {
        0
    } else {
        len - HASH_SAMPLE
    };
    let tail_start: usize = if far_start < head_end {
        head_end
    } else {
        far_start
    };
    let head = vstd::slice::slice_subrange(bytes, 0, head_end);
    let tail = vstd::slice::slice_subrange(bytes, tail_start, len);
    assert(head@ =~= head_of(bytes@));
    assert(tail@ =~= tail_of(bytes@));
    let mut hasher = DefaultHasher::new();
    hasher.write(u64_to_le_bytes(len as u64).as_slice());
    hasher.write(u64_to_le_bytes(head.len() as u64).as_slice());
    hasher.write(head);
    hasher.write(u64_to_le_bytes(tail.len() as u64).as_slice());
    hasher.write(tail);
    assert(hasher@ =~= sampled(bytes@));
    hasher.finish()
}

/// What identifies an image.
pub open spec fn key_of(data: EmbeddedModel) -> KeyModel {
    KeyModel {
        mime_type: data.mime_type,
        len: data.bytes.len(),
        hash: DefaultHasher::spec_finish(sampled(data.bytes)),
        width: data.width,
        height: data.height,
    }
}

/// What identifies an image.
pub fn cache_key(data: &EmbeddedImage) -> (key: ImageCacheKey)
    ensures
        key@ == key_of(data@),
{
    ImageCacheKey {
        mime_type: data.mime_type.clone(),
        len: data.bytes.len(),
        hash: content_hash(data.bytes.as_slice()),
        width: data.width,
        height: data.height,
    }
}

/// Images agree on their keys exactly as far as keys go: same MIME type, length
/// and size, and same bytes at both ends, make the same key.
pub proof fn equal_ends_make_equal_keys(a: EmbeddedModel, b: EmbeddedModel)
    requires
        a.mime_type == b.mime_type,
        a.width == b.width,
        a.height == b.height,
        a.bytes.len() == b.bytes.len(),
        forall|i: int|
            0 <= i < a.bytes.len() && (i < HASH_SAMPLE || i >= a.bytes.len() - HASH_SAMPLE)
                ==> #[trigger] a.bytes[i] == b.bytes[i],
    ensures
        key_of(a) == key_of(b),
{
    assert(head_of(a.bytes) =~= head_of(b.bytes));
    assert(tail_of(a.bytes) =~= tail_of(b.bytes));
}

/// A decoded image, or the memory of having failed to decode one.
#[derive(Debug)]
pub enum CachedImage {
    Still(Rc<Surface>),
    Animated(Rc<AnimatedImage>),
    /// Decoding failed. Cached so a broken payload is not re-decoded on every
    /// frame for as long as its shape stays on the canvas.
    Failed,
}

/// A [`CachedImage`] with its pictures as sequences.
#[verifier::ext_equal]
pub ghost enum CachedModel {
    Still(SurfaceModel),
    Animated(AnimationModel),
    Failed,
}

impl View for CachedImage {
    type V = CachedModel;

    open spec fn view(&self) -> CachedModel {
        match self {
            CachedImage::Still(surface) => CachedModel::Still(surface@),
            CachedImage::Animated(animation) => CachedModel::Animated(animation@),
            CachedImage::Failed => CachedModel::Failed,
        }
    }
}

/// A count, cut down to what a machine word holds.
pub open spec fn word(count: nat) -> nat {
    if count > usize::MAX {
        usize::MAX as nat
    } else {
        count
    }
}

impl CachedModel {
    /// The memory that the decoded pixels take up: those of a still picture, or
    /// those of an animation's first frame for each of its frames.
    pub open spec fn weight(self) -> nat {
        match self {
            CachedModel::Still(surface) => bytes_of(surface),
            CachedModel::Animated(animation) => word(
                bytes_of(animation.frames[0]) * animation.frames.len(),
            ),
            CachedModel::Failed => 0,
        }
    }
}

impl CachedImage {
    /// The memory that the decoded pixels take up.
    pub fn decoded_bytes(&self) -> (bytes: usize)
        ensures
            bytes == self@.weight(),
    {
        match self {
            CachedImage::Still(surface) => surface_bytes(&**surface),
            CachedImage::Animated(animation) => {
                let count: usize = animation.frame_count();
                match animation.surface(0) {
                    Some(surface) => {
                        let each: usize = surface_bytes(&**surface);
                        match each.checked_mul(count) {
                            Some(product) => product,
                            None => usize::MAX,
                        }
                    },
                    None => 0,
                }
            },
            CachedImage::Failed => 0,
        }
    }
}

/// One remembered image.
#[derive(Debug)]
struct CacheEntry {
    key: ImageCacheKey,
    image: Rc<CachedImage>,
}

/// Decoded images by what identifies them, oldest first, and how much memory
/// their pixels take up.
#[derive(Debug)]
pub struct ImageSurfaceCache {
    entries: Vec<CacheEntry>,
    bytes: usize,
}

/// One remembered image and what identifies it.
#[verifier::ext_equal]
pub ghost struct EntryModel {
    pub key: KeyModel,
    pub image: CachedModel,
}

/// An [`ImageSurfaceCache`] with its entries as a sequence.
#[verifier::ext_equal]
pub ghost struct CacheModel {
    pub entries: Seq<EntryModel>,
    pub bytes: nat,
}

impl View for CacheEntry {
    type V = EntryModel;

    closed spec fn view(&self) -> EntryModel {
        EntryModel { key: self.key@, image: self.image@ }
    }
}

spec fn entry_models(entries: Seq<CacheEntry>) -> Seq<EntryModel> {
    entries.map_values(|entry: CacheEntry| entry@)
}

impl View for ImageSurfaceCache {
    type V = CacheModel;

    closed spec fn view(&self) -> CacheModel {
        CacheModel { entries: entry_models(self.entries@), bytes: self.bytes as nat }
    }
}

/// Where the first entry with a key is.
pub open spec fn find(entries: Seq<EntryModel>, key: KeyModel) -> Option<int>
    decreases entries.len(),
{
    if entries.len() == 0 {
        None
    } else if entries[0].key == key {
        Some(0)
    } else {
        match find(entries.drop_first(), key) {
            Some(index) => Some(index + 1),
            None => None,
        }
    }
}

/// What is left of one count after taking another away, stopping at nothing.
pub open spec fn less(count: nat, taken: nat) -> nat {
    if count > taken {
        (count - taken) as nat
    } else {
        0
    }
}

impl CacheModel {
    /// What is remembered for a key.
    pub open spec fn get(self, key: KeyModel) -> Option<CachedModel> {
        match find(self.entries, key) {
            Some(index) => Some(self.entries[index].image),
            None => None,
        }
    }

    /// Whether the oldest entry has to go. At least one entry is kept, so the
    /// image being rendered right now survives even when it alone exceeds the
    /// byte budget.
    pub open spec fn crowded(self) -> bool {
        self.entries.len() > 1 && (self.entries.len() > IMAGE_CACHE_ENTRIES || self.bytes
            > IMAGE_CACHE_BYTES)
    }

    /// The cache once enough of its oldest entries are gone.
    pub open spec fn evicted(self) -> CacheModel
        decreases self.entries.len(),
    {
        if self.crowded() {
            CacheModel {
                entries: self.entries.drop_first(),
                bytes: less(self.bytes, self.entries[0].image.weight()),
            }.evicted()
        } else {
            self
        }
    }

    /// The cache with an image remembered for a key: in its old place when the
    /// key is known, as the newest entry otherwise.
    pub open spec fn inserted(self, key: KeyModel, image: CachedModel) -> CacheModel {
        match find(self.entries, key) {
            Some(index) => CacheModel {
                entries: self.entries.update(index, EntryModel { key, image }),
                bytes: word(
                    less(self.bytes, self.entries[index].image.weight()) + image.weight(),
                ),
            },
            None => CacheModel {
                entries: self.entries.push(EntryModel { key, image }),
                bytes: word(self.bytes + image.weight()),
            }.evicted(),
        }
    }
}

proof fn lemma_find(entries: Seq<EntryModel>, key: KeyModel)
    ensures
        match find(entries, key) {
            Some(index) => {
                &&& 0 <= index < entries.len()
                &&& entries[index].key == key
                &&& forall|i: int| 0 <= i < index ==> (#[trigger] entries[i]).key != key
            },
            None => forall|i: int| 0 <= i < entries.len() ==> (#[trigger] entries[i]).key != key,
        },
    decreases entries.len(),
{
    if entries.len() != 0 && entries[0].key != key {
        let rest = entries.drop_first();
        lemma_find(rest, key);
        assert forall|i: int| 0 < i < entries.len() implies (#[trigger] entries[i]) == rest[i
            - 1] by {}
    }
}

proof fn lemma_find_unique(entries: Seq<EntryModel>, key: KeyModel, index: int)
    requires
        0 <= index < entries.len(),
        entries[index].key == key,
        forall|i: int| 0 <= i < index ==> (#[trigger] entries[i]).key != key,
    ensures
        find(entries, key) == Some(index),
{
    lemma_find(entries, key);
    if let Some(found) = find(entries, key) {
        if index < found {
            assert(entries[index].key != key);
        }
    } else {
        assert(entries[index].key != key);
    }
}

impl ImageSurfaceCache {
    /// A cache that remembers nothing.
    pub fn new() -> (cache: ImageSurfaceCache)
        ensures
            cache@ == (CacheModel { entries: Seq::empty(), bytes: 0 }),
    {
        let cache = ImageSurfaceCache { entries: Vec::new(), bytes: 0 };
        assert(entry_models(cache.entries@) =~= Seq::empty());
        cache
    }

    /// Where the first entry with a key is.
    fn position(&self, key: &ImageCacheKey) -> (index: Option<usize>)
        ensures
            match index {
                Some(i) => find(self@.entries, key@) == Some(i as int) && i < self.entries@.len(),
                None => find(self@.entries, key@) is None,
            },
    {
        let ghost models = self@.entries;
        let mut i: usize = 0;
        while i < self.entries.len()
            invariant
                i <= self.entries.len(),
                models == entry_models(self.entries@),
                forall|j: int| 0 <= j < i ==> (#[trigger] models[j]).key != key@,
            decreases self.entries.len() - i,
        {
            assert(models[i as int] == self.entries@[i as int]@);
            if self.entries[i].key.same_as(key) {
                proof {
                    lemma_find_unique(models, key@, i as int);
                }
                return Some(i);
            }
            i = i + 1;
        }
        proof {
            lemma_find(models, key@);
        }
        None
    }

    /// What is remembered for a key.
    pub fn get(&self, key: &ImageCacheKey) -> (image: Option<Rc<CachedImage>>)
        ensures
            match image {
                Some(found) => self@.get(key@) == Some(found@),
                None => self@.get(key@) is None,
            },
    {
        match self.position(key) {
            Some(i) => {
                assert(self@.entries[i as int] == self.entries@[i as int]@);
                Some(self.entries[i].image.clone())
            },
            None => None,
        }
    }

    /// Remembers an image for a key, and makes room for it if need be.
    pub fn insert(&mut self, key: ImageCacheKey, image: Rc<CachedImage>) -> (kept: Rc<CachedImage>)
        ensures
            final(self)@ == old(self)@.inserted(key@, image@),
            kept == image,
    {
        let ghost before = self@;
        let ghost key_model = key@;
        let new_bytes: usize = image.decoded_bytes();
        if let Some(i) = self.position(&key) {
            assert(before.entries[i as int] == self.entries@[i as int]@);
            let old_bytes: usize = self.entries[i].image.decoded_bytes();
            let entry = CacheEntry { key, image: image.clone() };
            self.entries.set(i, entry);
            self.bytes = self.bytes.saturating_sub(old_bytes);
            self.bytes = self.bytes.saturating_add(new_bytes);
            assert(entry_models(self.entries@) =~= before.entries.update(
                i as int,
                EntryModel { key: key_model, image: image@ },
            ));
            return image;
        }
        self.entries.push(CacheEntry { key, image: image.clone() });
        self.bytes = self.bytes.saturating_add(new_bytes);
        assert(entry_models(self.entries@) =~= before.entries.push(
            EntryModel { key: key_model, image: image@ },
        ));
        let ghost target = self@.evicted();
        while self.entries.len() > 1 && (self.entries.len() > IMAGE_CACHE_ENTRIES || self.bytes
            > IMAGE_CACHE_BYTES)
            invariant
                self@.evicted() == target,
            decreases self.entries.len(),
        {
            let ghost full = self@;
            let oldest = self.entries.remove(0);
            assert(full.entries[0] == oldest@);
            assert(entry_models(self.entries@) =~= full.entries.drop_first());
            self.bytes = self.bytes.saturating_sub(oldest.image.decoded_bytes());
        }
        image
    }
}

/// The memory that all entries' pixels take up together.
pub open spec fn total_weight(entries: Seq<EntryModel>) -> nat
    decreases entries.len(),
{
    if entries.len() == 0 {
        0
    } else {
        entries[0].image.weight() + total_weight(entries.drop_first())
    }
}

/// The most memory that one image's pixels take up when it was decoded from a
/// payload.
pub const MAX_IMAGE_WEIGHT: u64 = 2_147_483_647;

impl CacheModel {
    /// Whether every key has one entry, the byte count is that of the entries,
    /// and both budgets are kept but for a single entry that exceeds the byte
    /// budget on its own.
    pub open spec fn sound(self) -> bool {
        &&& forall|i: int, j: int|
            0 <= i < j < self.entries.len() ==> (#[trigger] self.entries[i]).key != (
            #[trigger] self.entries[j]).key
        &&& self.bytes == total_weight(self.entries)
        &&& self.entries.len() <= IMAGE_CACHE_ENTRIES
        &&& self.entries.len() > 1 ==> self.bytes <= IMAGE_CACHE_BYTES
        &&& forall|i: int|
            0 <= i < self.entries.len() ==> (#[trigger] self.entries[i]).image.weight()
                <= MAX_IMAGE_WEIGHT
    }
}

proof fn lemma_total_weight_push(entries: Seq<EntryModel>, entry: EntryModel)
    ensures
        total_weight(entries.push(entry)) == total_weight(entries) + entry.image.weight(),
    decreases entries.len(),
{
    let longer = entries.push(entry);
    if entries.len() == 0 {
        reveal_with_fuel(total_weight, 2);
    } else {
        assert(longer.drop_first() =~= entries.drop_first().push(entry));
        lemma_total_weight_push(entries.drop_first(), entry);
    }
}

/// How many of the oldest entries eviction takes away.
pub open spec fn evictions(cache: CacheModel) -> nat
    decreases cache.entries.len(),
{
    if cache.crowded() {
        1 + evictions(
            CacheModel {
                entries: cache.entries.drop_first(),
                bytes: less(cache.bytes, cache.entries[0].image.weight()),
            },
        )
    } else {
        0
    }
}

/// Eviction takes away the oldest entries and leaves the others as they are and
/// in order; it stops before the newest entry, and as soon as both budgets are
/// kept.
pub proof fn eviction_drops_the_oldest(cache: CacheModel)
    requires
        cache.entries.len() > 0,
    ensures
        evictions(cache) < cache.entries.len(),
        cache.evicted().entries == cache.entries.skip(evictions(cache) as int),
        cache.evicted().entries.last() == cache.entries.last(),
        !cache.evicted().crowded(),
        !cache.crowded() ==> cache.evicted() == cache,
    decreases cache.entries.len(),
{
    if cache.crowded() {
        let fewer = CacheModel {
            entries: cache.entries.drop_first(),
            bytes: less(cache.bytes, cache.entries[0].image.weight()),
        };
        eviction_drops_the_oldest(fewer);
        assert(fewer.entries.skip(evictions(fewer) as int) =~= cache.entries.skip(
            evictions(cache) as int,
        ));
        assert(fewer.entries.last() == cache.entries.last());
    } else {
        assert(cache.entries.skip(0) =~= cache.entries);
    }
}

proof fn lemma_evicted_count(cache: CacheModel)
    requires
        cache.bytes == total_weight(cache.entries),
    ensures
        cache.evicted().bytes == total_weight(cache.evicted().entries),
    decreases cache.entries.len(),
{
    if cache.crowded() {
        lemma_evicted_count(
            CacheModel {
                entries: cache.entries.drop_first(),
                bytes: less(cache.bytes, cache.entries[0].image.weight()),
            },
        );
    }
}

/// An image that was just remembered is found again, even when it alone exceeds
/// the byte budget.
pub proof fn remembered_image_is_found(cache: CacheModel, key: KeyModel, image: CachedModel)
    ensures
        cache.inserted(key, image).get(key) == Some(image),
{
    lemma_find(cache.entries, key);
    let entry = EntryModel { key, image };
    match find(cache.entries, key) {
        Some(index) => {
            lemma_find_unique(cache.entries.update(index, entry), key, index);
        },
        None => {
            let full = CacheModel {
                entries: cache.entries.push(entry),
                bytes: word(cache.bytes + image.weight()),
            };
            eviction_drops_the_oldest(full);
            let left = full.evicted().entries;
            let gone = evictions(full) as int;
            assert forall|i: int| 0 <= i < left.len() - 1 implies (#[trigger] left[i]).key
                != key by {
                assert(left[i] == cache.entries[i + gone]);
            }
            lemma_find_unique(left, key, left.len() - 1);
        },
    }
}

/// Remembering an image under a new key keeps a cache sound.
pub proof fn remembering_keeps_the_cache_sound(
    cache: CacheModel,
    key: KeyModel,
    image: CachedModel,
)
    requires
        cache.sound(),
        find(cache.entries, key) is None,
        image.weight() <= MAX_IMAGE_WEIGHT,
    ensures
        cache.inserted(key, image).sound(),
{
    lemma_find(cache.entries, key);
    let entry = EntryModel { key, image };
    lemma_total_weight_push(cache.entries, entry);
    if cache.entries.len() == 1 {
        reveal_with_fuel(total_weight, 2);
        assert(cache.bytes == cache.entries[0].image.weight());
    }
    let full = CacheModel {
        entries: cache.entries.push(entry),
        bytes: word(cache.bytes + image.weight()),
    };
    assert(full.bytes == total_weight(full.entries));
    eviction_drops_the_oldest(full);
    lemma_evicted_count(full);
    let left = full.evicted().entries;
    let gone = evictions(full) as int;
    assert forall|i: int| 0 <= i < left.len() implies #[trigger] left[i] == full.entries[i
        + gone] by {}
    assert forall|i: int, j: int| 0 <= i < j < left.len() implies (#[trigger] left[i]).key != (
    #[trigger] left[j]).key by {
        assert(full.entries[i + gone].key != full.entries[j + gone].key);
    }
}

/// Remembering an image anew under a known key changes nothing for other keys.
pub proof fn replacing_leaves_other_keys_alone(
    cache: CacheModel,
    key: KeyModel,
    image: CachedModel,
    other: KeyModel,
)
    requires
        find(cache.entries, key) is Some,
        other != key,
    ensures
        cache.inserted(key, image).get(other) == cache.get(other),
{
    lemma_find(cache.entries, key);
    lemma_find(cache.entries, other);
    let index = find(cache.entries, key)->Some_0;
    let changed = cache.entries.update(index, EntryModel { key, image });
    lemma_find(changed, other);
    match find(cache.entries, other) {
        Some(place) => {
            lemma_find_unique(changed, other, place);
        },
        None => {
            if let Some(place) = find(changed, other) {
                assert(cache.entries[place].key != other);
            }
        },
    }
}

/// Remembering an image does not alter what is remembered for other keys; at
/// most it is forgotten.
pub proof fn remembering_alters_no_other_image(
    cache: CacheModel,
    key: KeyModel,
    image: CachedModel,
    other: KeyModel,
)
    requires
        cache.sound(),
        other != key,
    ensures
        cache.inserted(key, image).get(other) matches Some(kept) ==> cache.get(other) == Some(kept),
{
    if find(cache.entries, key) is Some {
        replacing_leaves_other_keys_alone(cache, key, image, other);
    } else {
        let full = CacheModel {
            entries: cache.entries.push(EntryModel { key, image }),
            bytes: word(cache.bytes + image.weight()),
        };
        eviction_drops_the_oldest(full);
        let left = full.evicted().entries;
        let gone = evictions(full) as int;
        lemma_find(left, other);
        if let Some(place) = find(left, other) {
            assert(left[place] == full.entries[place + gone]);
            let origin = place + gone;
            assert(full.entries[origin].key == other);
            assert(origin < cache.entries.len());
            assert forall|i: int| 0 <= i < origin implies (#[trigger] cache.entries[i]).key
                != other by {
                assert(cache.entries[i].key != cache.entries[origin].key);
            }
            lemma_find_unique(cache.entries, other, origin);
        }
    }
}

/// What a key says of an image: its MIME type, its number of bytes, its size in
/// pixels, and a hash of what is sampled of its bytes.
pub proof fn keys_say_what_they_identify(data: EmbeddedModel)
    ensures
        key_of(data).mime_type == data.mime_type,
        key_of(data).len == data.bytes.len(),
        key_of(data).width == data.width,
        key_of(data).height == data.height,
        key_of(data).hash == DefaultHasher::spec_finish(sampled(data.bytes)),
{
}

/// Two payloads are sampled alike exactly when they are equally long and agree
/// on their first 4096 and on their last 4096 bytes.
pub proof fn samples_cover_both_ends(a: Seq<u8>, b: Seq<u8>)
    requires
        a.len() <= u64::MAX,
        b.len() <= u64::MAX,
    ensures
        sampled(a) == sampled(b) <==> a.len() == b.len() && forall|i: int|
            0 <= i < a.len() && (i < 4096 || i >= a.len() - 4096) ==> #[trigger] a[i] == b[i],
{
    lemma_auto_spec_u64_to_from_le_bytes();
    if sampled(a) == sampled(b) {
        assert(sampled(a)[0] == sampled(b)[0]);
        assert(sampled(a)[2] == sampled(b)[2]);
        assert(sampled(a)[4] == sampled(b)[4]);
        assert(a.len() == b.len());
        assert forall|i: int|
            0 <= i < a.len() && (i < 4096 || i >= a.len() - 4096) implies #[trigger] a[i]
            == b[i] by {
            if i < 4096 {
                assert(head_of(a)[i] == head_of(b)[i]);
            } else {
                let start = a.len() - tail_of(a).len();
                assert(tail_of(a)[i - start] == tail_of(b)[i - start]);
            }
        }
    }
    if a.len() == b.len() && forall|i: int|
        0 <= i < a.len() && (i < 4096 || i >= a.len() - 4096) ==> #[trigger] a[i] == b[i] {
        assert(head_of(a) =~= head_of(b));
        assert(tail_of(a) =~= tail_of(b));
    }
}

/// What a remembered image weighs: four bytes for each of its pixels, in every
/// frame of an animation, and nothing for a failure. A weight beyond what a
/// machine word holds counts as the largest word.
pub proof fn weights_are_four_bytes_a_pixel(
    surface: SurfaceModel,
    animation: AnimationModel,
)
    ensures
        CachedModel::Still(surface).weight() == 4 * (surface.width * surface.height),
        CachedModel::Failed.weight() == 0,
        ({
            let each = 4 * (animation.frames[0].width * animation.frames[0].height);
            let all = each * animation.frames.len();
            &&& all <= usize::MAX ==> CachedModel::Animated(animation).weight() == all
            &&& all > usize::MAX ==> CachedModel::Animated(animation).weight() == usize::MAX
        }),
{
    lemma_area(surface.width as int, surface.height as int);
    lemma_area(animation.frames[0].width as int, animation.frames[0].height as int);
    let each = 4 * (animation.frames[0].width * animation.frames[0].height);
    assert(bytes_of(animation.frames[0]) == each);
    assert(each * animation.frames.len() >= 0) by (nonlinear_arith)
        requires
            each >= 0,
    ;
}

/// The weight of several entries together is the sum of their weights.
pub proof fn weights_add_up(entries: Seq<EntryModel>, more: Seq<EntryModel>)
    ensures
        total_weight(entries + more) == total_weight(entries) + total_weight(more),
        entries.len() == 0 ==> total_weight(entries) == 0,
        entries.len() == 1 ==> total_weight(entries) == entries[0].image.weight(),
    decreases entries.len(),
{
    if entries.len() == 0 {
        assert(entries + more =~= more);
    } else {
        assert((entries + more).drop_first() =~= entries.drop_first() + more);
        weights_add_up(entries.drop_first(), more);
        if entries.len() == 1 {
            assert(total_weight(entries.drop_first()) == 0);
        }
    }
}

/// What is remembered for a key is the image of the first entry with that key;
/// where no entry has the key, nothing is.
pub proof fn lookups_find_the_first_entry(cache: CacheModel, key: KeyModel, index: int)
    ensures
        (forall|i: int| 0 <= i < cache.entries.len() ==> (#[trigger] cache.entries[i]).key != key)
            <==> cache.get(key) is None,
        0 <= index < cache.entries.len() && cache.entries[index].key == key && (forall|i: int|
            0 <= i < index ==> (#[trigger] cache.entries[i]).key != key) ==> cache.get(key) == Some(
            cache.entries[index].image,
        ),
{
    lemma_find(cache.entries, key);
    if 0 <= index < cache.entries.len() && cache.entries[index].key == key && (forall|i: int|
        0 <= i < index ==> (#[trigger] cache.entries[i]).key != key) {
        lemma_find_unique(cache.entries, key, index);
    }
}

/// Remembering an image anew under a known key replaces it in its place, and
/// the byte count follows. Nothing else changes.
pub proof fn known_keys_keep_their_place(
    cache: CacheModel,
    key: KeyModel,
    image: CachedModel,
    index: int,
)
    requires
        0 <= index < cache.entries.len(),
        cache.entries[index].key == key,
        forall|i: int| 0 <= i < index ==> (#[trigger] cache.entries[i]).key != key,
        cache.entries[index].image.weight() <= cache.bytes,
        cache.bytes + image.weight() <= usize::MAX,
    ensures
        ({
            let after = cache.inserted(key, image);
            &&& after.entries.len() == cache.entries.len()
            &&& after.entries[index].key == key
            &&& after.entries[index].image == image
            &&& forall|i: int|
                0 <= i < cache.entries.len() && i != index ==> #[trigger] after.entries[i]
                    == cache.entries[i]
            &&& after.bytes == cache.bytes - cache.entries[index].image.weight() + image.weight()
        }),
{
    lemma_find_unique(cache.entries, key, index);
}

proof fn lemma_evictions_were_needed(cache: CacheModel, gone: int)
    requires
        cache.bytes == total_weight(cache.entries),
        0 <= gone < evictions(cache),
    ensures
        ({
            let left = cache.entries.skip(gone);
            left.len() > 1 && (left.len() > IMAGE_CACHE_ENTRIES || total_weight(left)
                > IMAGE_CACHE_BYTES)
        }),
    decreases cache.entries.len(),
{
    if gone == 0 {
        assert(cache.entries.skip(0) =~= cache.entries);
    } else {
        let fewer = CacheModel {
            entries: cache.entries.drop_first(),
            bytes: less(cache.bytes, cache.entries[0].image.weight()),
        };
        eviction_drops_the_oldest(cache);
        lemma_evictions_were_needed(fewer, gone - 1);
        assert(fewer.entries.skip(gone - 1) =~= cache.entries.skip(gone));
    }
}

/// Remembering an image under a new key puts it last and forgets as many of the
/// oldest entries as it takes, and no more: what is left is the new entry alone,
/// or at most 32 entries of at most 192 MiB together, and with one more of the
/// entries that are gone it would be neither. The byte count is that of the
/// entries that are left.
pub proof fn no_more_is_forgotten_than_needed(
    cache: CacheModel,
    key: KeyModel,
    image: CachedModel,
)
    requires
        cache.sound(),
        forall|i: int| 0 <= i < cache.entries.len() ==> (#[trigger] cache.entries[i]).key != key,
        image.weight() <= 2_147_483_647,
    ensures
        ({
            let all = cache.entries.push(EntryModel { key, image });
            let after = cache.inserted(key, image);
            let gone = all.len() - after.entries.len();
            &&& 0 <= gone < all.len()
            &&& after.entries == all.skip(gone)
            &&& after.bytes == total_weight(after.entries)
            &&& after.entries.len() == 1 || (after.entries.len() <= 32 && after.bytes
                <= 201_326_592)
            &&& gone > 0 ==> {
                let more = all.skip(gone - 1);
                more.len() > 32 || total_weight(more) > 201_326_592
            }
        }),
{
    lemma_find(cache.entries, key);
    let entry = EntryModel { key, image };
    let all = cache.entries.push(entry);
    lemma_total_weight_push(cache.entries, entry);
    if cache.entries.len() == 1 {
        reveal_with_fuel(total_weight, 2);
        assert(cache.bytes == cache.entries[0].image.weight());
    }
    let full = CacheModel { entries: all, bytes: word(cache.bytes + image.weight()) };
    assert(full.bytes == total_weight(all));
    eviction_drops_the_oldest(full);
    lemma_evicted_count(full);
    if evictions(full) > 0 {
        lemma_evictions_were_needed(full, evictions(full) - 1);
    }
}

/// A key's model shows all that the key says, and an image's model its pictures.
pub proof fn keys_and_images_are_shown_as_they_are(
    key: ImageCacheKey,
    surface: Rc<Surface>,
    animation: Rc<AnimatedImage>,
)
    ensures
        key@.mime_type == key.mime_type@,
        key@.len == key.len,
        key@.hash == key.hash,
        key@.width == key.width,
        key@.height == key.height,
        CachedImage::Still(surface)@ == CachedModel::Still(surface@),
        CachedImage::Animated(animation)@ == CachedModel::Animated(animation@),
        CachedImage::Failed@ == CachedModel::Failed,
{
}

} // verus!
