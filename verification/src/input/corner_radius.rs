//! Rounding the corners of the selected images.

use crate::input::state::InputState;
use crate::shape::{CornerRadius, DrawnShape, Shape, ShapeId};
use crate::text::append_decimal;
use vstd::prelude::*;

verus! {

use crate::input::state::with_radius;
use crate::shape::extent;
use crate::text::decimal;

/// What a [`CornerRadius`] counts per pixel.
pub const CORNER_UNITS_PER_PIXEL: i64 = 65_536;

/// By how much one step rounds the corners, in the units of a
/// [`CornerRadius`]: four pixels.
pub const SELECTION_CORNER_RADIUS_STEP: i64 = 262_144;

/// Upper bound independent of image size, so stepping a very large image does
/// not require hundreds of presses to reach a visible change. In the units of a
/// [`CornerRadius`]: 256 pixels.
pub const MAX_CORNER_RADIUS: i64 = 16_777_216;

/// The roundest corners that an image of a size can have. Half the shorter side
/// is where the corner arcs meet and the image reads as a pill; stepping past it
/// would keep incrementing a value with no visible effect.
pub open spec fn ceiling(w: i32, h: i32) -> int {
    let shorter = if extent(w as int) <= extent(h as int) {
        extent(w as int)
    } else {
        extent(h as int)
    };
    let half = shorter * CORNER_UNITS_PER_PIXEL / 2;
    if half <= MAX_CORNER_RADIUS {
        half
    } else {
        MAX_CORNER_RADIUS as int
    }
}

/// A radius after some steps, between square corners and the roundest ones.
pub open spec fn stepped(radius: CornerRadius, w: i32, h: i32, direction: i32) -> CornerRadius {
    let next = radius.units + SELECTION_CORNER_RADIUS_STEP * direction;
    CornerRadius {
        units: (if next < 0 {
            0
        } else if next > ceiling(w, h) {
            ceiling(w, h)
        } else {
            next
        }) as i64,
    }
}

/// A shape after some steps: an image with its corners changed, anything else
/// as it is.
pub open spec fn rounded(drawn: DrawnShape, direction: i32) -> DrawnShape {
    match drawn.shape {
        Shape::Image { w, h, corner_radius, .. } => with_radius(
            drawn,
            stepped(corner_radius, w, h, direction),
        ),
        Shape::Rect { .. } => drawn,
    }
}

/// The shapes of a page after some steps on the selected ones.
pub open spec fn rounded_shapes(
    shapes: Seq<DrawnShape>,
    selection: Seq<ShapeId>,
    direction: i32,
) -> Seq<DrawnShape> {
    Seq::new(
        shapes.len(),
        |i: int|
            if selection.contains(shapes[i].id) {
                rounded(shapes[i], direction)
            } else {
                shapes[i]
            },
    )
}

fn step_radius(radius: CornerRadius, w: i32, h: i32, direction: i32) -> (next: CornerRadius)
    ensures
        next == stepped(radius, w, h, direction),
{
    let width: i64 = if w < 0 {
        -(w as i64)
    } else {
        w as i64
    };
    let height: i64 = if h < 0 {
        -(h as i64)
    } else {
        h as i64
    };
    let shorter: i64 = if width <= height {
        width
    } else {
        height
    };
    let half: i64 = shorter * CORNER_UNITS_PER_PIXEL / 2;
    let top: i64 = if half <= MAX_CORNER_RADIUS {
        half
    } else {
        MAX_CORNER_RADIUS
    };
    let next: i128 = radius.units as i128 + SELECTION_CORNER_RADIUS_STEP as i128
        * direction as i128;
    if next < 0 {
        CornerRadius { units: 0 }
    } else if next > top as i128 {
        CornerRadius { units: top }
    } else {
        CornerRadius { units: next as i64 }
    }
}

fn is_selected(selection: &[ShapeId], id: ShapeId) -> (selected: bool)
    ensures
        selected == selection@.contains(id),
{
    let mut i: usize = 0;
    while i < selection.len()
        invariant
            i <= selection.len(),
            forall|j: int| 0 <= j < i ==> #[trigger] selection@[j] != id,
        decreases selection.len() - i,
    {
        if selection[i] == id {
            return true;
        }
        i = i + 1;
    }
    false
}

impl InputState {
    /// Steps the corner radius of the selected images. Returns whether any of
    /// them changed.
    pub fn apply_selection_corner_radius(&mut self, direction: i32) -> (changed: bool)
        ensures
            final(self).page@ == rounded_shapes(old(self).page@, old(self).selection@, direction),
            changed == (final(self).page@ != old(self).page@),
            *final(self) == (InputState { page: final(self).page, ..*old(self) }),
            old(self).page.well_formed() ==> final(self).page.well_formed(),
            final(self).page.ids_given() == old(self).page.ids_given(),
    {
        let ghost target = rounded_shapes(self.page@, self.selection@, direction);
        let ghost before = self.page@;
        let mut changed = false;
        let mut i: usize = 0;
        while i < self.page.shapes().len()
            invariant
                i <= before.len(),
                self.page@.len() == before.len(),
                before == old(self).page@,
                target == rounded_shapes(before, self.selection@, direction),
                self.page@ == target.take(i as int) + before.skip(i as int),
                changed == (self.page@ != before),
                *self == (InputState { page: self.page, ..*old(self) }),
                old(self).page.well_formed() ==> self.page.well_formed(),
                self.page.ids_given() == old(self).page.ids_given(),
            decreases self.page@.len() - i,
        {
            assert(self.page@[i as int] == before[i as int]);
            let drawn = &self.page.shapes()[i];
            if is_selected(self.selection.as_slice(), drawn.id) {
                if let Shape::Image { w, h, corner_radius, .. } = &drawn.shape {
                    let current = *corner_radius;
                    let next = step_radius(current, *w, *h, direction);
                    if next != current {
                        self.page.set_corner_radius(i, next);
                        changed = true;
                        assert(self.page@[i as int] != before[i as int]);
                    }
                }
            }
            assert(self.page@ =~= target.take(i + 1) + before.skip(i + 1));
            i = i + 1;
        }
        assert(self.page@ =~= target);
        changed
    }
}

/// A property that can be changed of the selected shapes.
#[derive(Debug, Clone, Copy, PartialEq, Eq, Structural)]
pub enum SelectionPropertyKind {
    CornerRadius,
}

/// A property of the selected shapes, as it is shown.
#[derive(Debug)]
pub struct SelectionPropertyEntry {
    pub kind: SelectionPropertyKind,
    pub label: String,
    pub value: String,
}

/// A [`SelectionPropertyEntry`] with its texts as sequences.
#[verifier::ext_equal]
pub ghost struct PropertyModel {
    pub kind: SelectionPropertyKind,
    pub label: Seq<char>,
    pub value: Seq<char>,
}

impl View for SelectionPropertyEntry {
    type V = PropertyModel;

    open spec fn view(&self) -> PropertyModel {
        PropertyModel { kind: self.kind, label: self.label@, value: self.value@ }
    }
}

/// The radii of the images with given ids among the first `count` shapes.
pub open spec fn radii(
    shapes: Seq<DrawnShape>,
    ids: Seq<ShapeId>,
    count: nat,
) -> Seq<CornerRadius>
    decreases count,
{
    if count == 0 {
        Seq::empty()
    } else {
        let earlier = radii(shapes, ids, (count - 1) as nat);
        match shapes[count - 1].shape {
            Shape::Image { corner_radius, .. } => if ids.contains(shapes[count - 1].id) {
                earlier.push(corner_radius)
            } else {
                earlier
            },
            Shape::Rect { .. } => earlier,
        }
    }
}

/// A radius in whole pixels, rounded.
pub open spec fn whole_pixels(radius: CornerRadius) -> nat {
    if radius.units <= 0 {
        0
    } else {
        ((radius.units + CORNER_UNITS_PER_PIXEL / 2) / (CORNER_UNITS_PER_PIXEL as int)) as nat
    }
}

/// How a radius is shown.
pub open spec fn radius_text(radius: CornerRadius) -> Seq<char> {
    if radius.units == 0 {
        "Square"@
    } else {
        decimal(whole_pixels(radius)) + "px"@
    }
}

/// How several radii are shown.
pub open spec fn radii_text(radii: Seq<CornerRadius>) -> Seq<char> {
    if forall|i: int| 0 <= i < radii.len() ==> #[trigger] radii[i] == radii[0] {
        radius_text(radii[0])
    } else {
        "Mixed"@
    }
}

/// The properties that are offered for shapes: how round the corners are, as
/// soon as there is an image among them.
pub open spec fn property_entries(shapes: Seq<DrawnShape>, ids: Seq<ShapeId>) -> Seq<PropertyModel> {
    let radii = radii(shapes, ids, shapes.len());
    if radii.len() == 0 {
        Seq::empty()
    } else {
        seq![
            PropertyModel {
                kind: SelectionPropertyKind::CornerRadius,
                label: "Corner radius"@,
                value: radii_text(radii),
            },
        ]
    }
}

fn describe_radius(radius: CornerRadius) -> (text: String)
    ensures
        text@ == radius_text(radius),
{
    if radius.units == 0 {
        return "Square".to_owned();
    }
    let pixels: u64 = if radius.units <= 0 {
        0
    } else {
        ((radius.units as u64) + 32_768) / 65_536
    };
    let mut text = "".to_owned();
    proof {
        reveal_strlit("");
    }
    append_decimal(&mut text, pixels);
    assert(text@ =~= decimal(whole_pixels(radius)));
    text.append("px");
    text
}

impl InputState {
    /// The properties that are offered for shapes.
    pub fn build_selection_property_entries(&self, ids: &[ShapeId]) -> (entries: Vec<
        SelectionPropertyEntry,
    >)
        ensures
            entries@.map_values(|entry: SelectionPropertyEntry| entry@) == property_entries(
                self.page@,
                ids@,
            ),
    {
        let shapes = self.page.shapes();
        let mut first: Option<CornerRadius> = None;
        let mut mixed = false;
        let mut i: usize = 0;
        while i < shapes.len()
            invariant
                i <= shapes.len(),
                shapes@ == self.page@,
                ({
                    let found = radii(shapes@, ids@, i as nat);
                    &&& match first {
                        Some(radius) => found.len() > 0 && radius == found[0],
                        None => found.len() == 0,
                    }
                    &&& mixed == !(forall|j: int|
                        0 <= j < found.len() ==> #[trigger] found[j] == found[0])
                }),
            decreases shapes.len() - i,
        {
            let ghost found = radii(shapes@, ids@, i as nat);
            let ghost found_after = radii(shapes@, ids@, (i + 1) as nat);
            if let Shape::Image { corner_radius, .. } = &shapes[i].shape {
                if is_selected(ids, shapes[i].id) {
                    assert(found_after == found.push(*corner_radius));
                    assert(forall|j: int|
                        0 <= j < found.len() ==> #[trigger] found[j] == found_after[j]);
                    match first {
                        Some(radius) => {
                            if *corner_radius != radius {
                                mixed = true;
                                assert(found_after[found.len() as int] != found_after[0]);
                            }
                        },
                        None => {
                            first = Some(*corner_radius);
                        },
                    }
                }
            }
            i = i + 1;
        }
        let mut entries: Vec<SelectionPropertyEntry> = Vec::new();
        if let Some(radius) = first {
            let value = if mixed {
                "Mixed".to_owned()
            } else {
                describe_radius(radius)
            };
            entries.push(
                SelectionPropertyEntry {
                    kind: SelectionPropertyKind::CornerRadius,
                    label: "Corner radius".to_owned(),
                    value,
                },
            );
        }
        assert(entries@.map_values(|entry: SelectionPropertyEntry| entry@) =~= property_entries(
            self.page@,
            ids@,
        ));
        entries
    }
}

/// A step never leaves the range from square corners to the roundest ones, which
/// is at most half the shorter side; at either end of the range, a step further
/// out changes nothing.
pub proof fn radii_stay_in_range(radius: CornerRadius, w: i32, h: i32, direction: i32)
    ensures
        0 <= stepped(radius, w, h, direction).units <= ceiling(w, h),
        2 * ceiling(w, h) <= extent(w as int) * CORNER_UNITS_PER_PIXEL,
        2 * ceiling(w, h) <= extent(h as int) * CORNER_UNITS_PER_PIXEL,
        ceiling(w, h) <= MAX_CORNER_RADIUS,
        radius.units == ceiling(w, h) && direction >= 0 ==> stepped(radius, w, h, direction)
            == radius,
        radius.units == 0 && direction <= 0 ==> stepped(radius, w, h, direction) == radius,
{
}

/// A step back undoes a step that stayed within the range.
pub proof fn stepping_back_undoes_a_step(radius: CornerRadius, w: i32, h: i32, direction: i32)
    requires
        direction != i32::MIN,
        0 <= radius.units <= ceiling(w, h),
        0 <= radius.units + SELECTION_CORNER_RADIUS_STEP * direction <= ceiling(w, h),
    ensures
        stepped(stepped(radius, w, h, direction), w, h, (-direction) as i32) == radius,
{
}

/// Stepping changes nothing but the corners of the selected images.
pub proof fn only_corners_of_selected_images_change(
    shapes: Seq<DrawnShape>,
    selection: Seq<ShapeId>,
    direction: i32,
)
    ensures
        rounded_shapes(shapes, selection, direction).len() == shapes.len(),
        forall|i: int|
            0 <= i < shapes.len() ==> {
                let after = #[trigger] rounded_shapes(shapes, selection, direction)[i];
                &&& after.id == shapes[i].id
                &&& after.bounds() == shapes[i].bounds()
                &&& !selection.contains(shapes[i].id) || shapes[i].shape is Rect ==> after
                    == shapes[i]
                &&& shapes[i].shape matches Shape::Image { corner_radius, .. } ==> after
                    == with_radius(shapes[i], after.shape->corner_radius)
            },
{
}

proof fn lemma_radii_found(shapes: Seq<DrawnShape>, ids: Seq<ShapeId>, count: nat)
    requires
        count <= shapes.len(),
    ensures
        radii(shapes, ids, count).len() > 0 <==> exists|i: int|
            0 <= i < count && (#[trigger] shapes[i]).shape is Image && ids.contains(shapes[i].id),
    decreases count,
{
    if count > 0 {
        lemma_radii_found(shapes, ids, (count - 1) as nat);
    }
}

/// The corner radius is offered exactly when an image is among the shapes.
pub proof fn images_offer_the_property(shapes: Seq<DrawnShape>, ids: Seq<ShapeId>)
    ensures
        property_entries(shapes, ids).len() > 0 <==> exists|i: int|
            0 <= i < shapes.len() && (#[trigger] shapes[i]).shape is Image && ids.contains(
                shapes[i].id,
            ),
        property_entries(shapes, ids).len() > 0 ==> property_entries(shapes, ids)[0].kind
            is CornerRadius,
{
    lemma_radii_found(shapes, ids, shapes.len());
}

/// One step is four pixels, in 65536ths of a pixel, and as many steps as asked
/// for are taken at once, back where the number is negative. The corners stay
/// between square ones and the roundest: half the shorter side, or 256 pixels
/// where that is less.
pub proof fn steps_are_four_pixels(radius: CornerRadius, w: i32, h: i32, direction: i32)
    ensures
        ({
            let across: int = if w < 0 {
                -w
            } else {
                w as int
            };
            let down: int = if h < 0 {
                -h
            } else {
                h as int
            };
            let shorter = if across < down {
                across
            } else {
                down
            };
            let roundest: int = if shorter * 32_768 < 16_777_216 {
                shorter * 32_768
            } else {
                16_777_216
            };
            let next = radius.units + 4 * 65_536 * direction;
            let units = stepped(radius, w, h, direction).units;
            &&& next <= 0 ==> units == 0
            &&& next >= roundest ==> units == roundest
            &&& 0 <= next <= roundest ==> units == next
        }),
{
}

/// A step on the selection reaches every selected image: it keeps its identity,
/// place, size and contents, and its corners are stepped. Everything else on the
/// page stays as it is.
pub proof fn selected_images_are_stepped(
    shapes: Seq<DrawnShape>,
    selection: Seq<ShapeId>,
    direction: i32,
    index: int,
)
    requires
        0 <= index < shapes.len(),
    ensures
        ({
            let before = shapes[index];
            let after = rounded_shapes(shapes, selection, direction)[index];
            &&& rounded_shapes(shapes, selection, direction).len() == shapes.len()
            &&& after.id == before.id
            &&& !selection.contains(before.id) ==> after == before
            &&& before.shape is Rect ==> after == before
            &&& selection.contains(before.id) ==> (before.shape matches Shape::Image {
                x,
                y,
                w,
                h,
                data,
                corner_radius,
            } ==> after.shape == (Shape::Image {
                x,
                y,
                w,
                h,
                data,
                corner_radius: stepped(corner_radius, w, h, direction),
            }))
        }),
{
}

/// A radius is shown in whole pixels, the nearest number of them; half a pixel
/// counts as a whole one, and less than nothing as nothing.
pub proof fn shown_radii_are_nearest_pixels(radius: CornerRadius)
    ensures
        radius.units <= 0 ==> whole_pixels(radius) == 0,
        radius.units > 0 ==> {
            &&& 65_536 * whole_pixels(radius) - radius.units <= 32_768
            &&& radius.units - 65_536 * whole_pixels(radius) < 32_768
        },
{
}

proof fn lemma_radii(
    shapes: Seq<DrawnShape>,
    ids: Seq<ShapeId>,
    count: nat,
    index: int,
    place: int,
)
    requires
        count <= shapes.len(),
    ensures
        ({
            let found = radii(shapes, ids, count);
            &&& 0 <= index < count && ids.contains(shapes[index].id) ==> (
            shapes[index].shape matches Shape::Image { corner_radius, .. } ==> found.contains(
                corner_radius,
            ))
            &&& 0 <= place < found.len() ==> exists|i: int|
                #![trigger shapes[i]]
                {
                    &&& 0 <= i < count
                    &&& ids.contains(shapes[i].id)
                    &&& shapes[i].shape is Image
                    &&& shapes[i].shape->corner_radius == found[place]
                }
        }),
    decreases count,
{
    if count > 0 {
        let fewer = (count - 1) as nat;
        let earlier = radii(shapes, ids, fewer);
        let found = radii(shapes, ids, count);
        lemma_radii(shapes, ids, fewer, index, place);
        if 0 <= index < count && ids.contains(shapes[index].id) {
            if let Shape::Image { corner_radius, .. } = shapes[index].shape {
                if index == fewer {
                    assert(found.last() == corner_radius);
                } else {
                    let i = earlier.index_of(corner_radius);
                    assert(found[i] == corner_radius);
                }
            }
        }
        if 0 <= place < found.len() {
            if place < earlier.len() {
                let i = choose|i: int|
                    #![trigger shapes[i]]
                    {
                        &&& 0 <= i < fewer
                        &&& ids.contains(shapes[i].id)
                        &&& shapes[i].shape is Image
                        &&& shapes[i].shape->corner_radius == earlier[place]
                    };
                assert(shapes[i].shape->corner_radius == found[place]);
            } else {
                assert(shapes[count - 1].shape->corner_radius == found[place]);
            }
        }
    }
}

/// What is shown for the corners of several images. There is one entry at most,
/// and it is labelled as such. Images with the same corners show these, as
/// "Square" or as a number of pixels; two images that differ show as "Mixed".
pub proof fn corners_are_shown_together(
    shapes: Seq<DrawnShape>,
    ids: Seq<ShapeId>,
    first: int,
    second: int,
)
    requires
        0 <= first < shapes.len(),
        0 <= second < shapes.len(),
        shapes[first].shape is Image,
        shapes[second].shape is Image,
        ids.contains(shapes[first].id),
        ids.contains(shapes[second].id),
    ensures
        ({
            let entries = property_entries(shapes, ids);
            let radius = shapes[first].shape->corner_radius;
            let alike = forall|i: int|
                0 <= i < shapes.len() && ids.contains((#[trigger] shapes[i]).id) ==> (
                shapes[i].shape matches Shape::Image { corner_radius, .. } ==> corner_radius
                    == radius);
            &&& entries.len() == 1
            &&& entries[0].kind == SelectionPropertyKind::CornerRadius
            &&& entries[0].label == "Corner radius"@
            &&& shapes[second].shape->corner_radius != radius ==> entries[0].value == "Mixed"@
            &&& alike && radius.units == 0 ==> entries[0].value == "Square"@
            &&& alike && radius.units != 0 ==> entries[0].value == decimal(whole_pixels(radius))
                + "px"@
        }),
{
    let found = radii(shapes, ids, shapes.len());
    let radius = shapes[first].shape->corner_radius;
    lemma_radii(shapes, ids, shapes.len(), first, 0);
    lemma_radii(shapes, ids, shapes.len(), second, 0);
    let p = found.index_of(radius);
    let q = found.index_of(shapes[second].shape->corner_radius);
    assert(found[p] == radius);
    assert(found[q] == shapes[second].shape->corner_radius);
    let alike = forall|i: int|
        0 <= i < shapes.len() && ids.contains((#[trigger] shapes[i]).id) ==> (
        shapes[i].shape matches Shape::Image { corner_radius, .. } ==> corner_radius == radius);
    if alike {
        assert forall|k: int| 0 <= k < found.len() implies #[trigger] found[k] == radius by {
            lemma_radii(shapes, ids, shapes.len(), first, k);
        }
    }
}

/// A property's model shows its kind and its texts as they are.
pub proof fn properties_are_shown_as_they_are(entry: SelectionPropertyEntry)
    ensures
        entry@.kind == entry.kind,
        entry@.label == entry.label@,
        entry@.value == entry.value@,
{
}

} // verus!
