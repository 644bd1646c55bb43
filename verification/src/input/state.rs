//! The shapes of the active page, the selection and what has to be repainted.

use crate::input::animated_images::AnimatedImagePlayback;
use crate::shape::{CornerRadius, DrawnShape, Rect, Shape, ShapeId};
use vstd::prelude::*;

verus! {

/// The shapes of a page, bottom to top.
#[derive(Debug)]
pub struct Page {
    shapes: Vec<DrawnShape>,
    next_id: ShapeId,
}

impl View for Page {
    type V = Seq<DrawnShape>;

    closed spec fn view(&self) -> Seq<DrawnShape> {
        self.shapes@
    }
}

/// Whether no two shapes have the same id.
pub open spec fn distinct_ids(shapes: Seq<DrawnShape>) -> bool {
    forall|i: int, j: int|
        0 <= i < j < shapes.len() ==> (#[trigger] shapes[i]).id != (#[trigger] shapes[j]).id
}

/// A shape with a corner radius, which only images have.
pub open spec fn with_radius(drawn: DrawnShape, radius: CornerRadius) -> DrawnShape {
    match drawn.shape {
        Shape::Image { x, y, w, h, data, .. } => DrawnShape {
            id: drawn.id,
            shape: Shape::Image { x, y, w, h, data, corner_radius: radius },
        },
        Shape::Rect { .. } => drawn,
    }
}

/// Where the first shape with an id is.
pub open spec fn shape_index(shapes: Seq<DrawnShape>, id: ShapeId) -> Option<int>
    decreases shapes.len(),
{
    if shapes.len() == 0 {
        None
    } else if shapes[0].id == id {
        Some(0)
    } else {
        match shape_index(shapes.drop_first(), id) {
            Some(index) => Some(index + 1),
            None => None,
        }
    }
}

proof fn lemma_shape_index(shapes: Seq<DrawnShape>, id: ShapeId)
    ensures
        match shape_index(shapes, id) {
            Some(index) => {
                &&& 0 <= index < shapes.len()
                &&& shapes[index].id == id
                &&& forall|i: int| 0 <= i < index ==> (#[trigger] shapes[i]).id != id
            },
            None => forall|i: int| 0 <= i < shapes.len() ==> (#[trigger] shapes[i]).id != id,
        },
    decreases shapes.len(),
{
    if shapes.len() != 0 && shapes[0].id != id {
        let rest = shapes.drop_first();
        lemma_shape_index(rest, id);
        assert forall|i: int| 0 < i < shapes.len() implies (#[trigger] shapes[i]) == rest[i
            - 1] by {}
    }
}

impl Page {
    /// Whether no two shapes have the same id, and none has one that was not
    /// given out.
    pub closed spec fn well_formed(self) -> bool {
        &&& distinct_ids(self.shapes@)
        &&& forall|i: int|
            0 <= i < self.shapes@.len() ==> (#[trigger] self.shapes@[i]).id < self.next_id
    }

    /// How many ids were given out.
    pub closed spec fn ids_given(self) -> nat {
        self.next_id as nat
    }

    /// A page without shapes.
    pub fn new() -> (page: Page)
        ensures
            page@ == Seq::<DrawnShape>::empty(),
            page.well_formed(),
            page.ids_given() == 0,
    {
        Page { shapes: Vec::new(), next_id: 0 }
    }

    /// Puts a shape on top of the others, under an id of its own.
    pub fn add_shape(&mut self, shape: Shape) -> (id: ShapeId)
        requires
            old(self).ids_given() < u64::MAX,
        ensures
            final(self)@ == old(self)@.push(DrawnShape { id, shape }),
            id == old(self).ids_given(),
            final(self).ids_given() == old(self).ids_given() + 1,
            old(self).well_formed() ==> final(self).well_formed(),
            final(self).well_formed() ==> distinct_ids(final(self)@),
    {
        let id: ShapeId = self.next_id;
        self.next_id = self.next_id + 1;
        self.shapes.push(DrawnShape { id, shape });
        id
    }

    fn position(&self, id: ShapeId) -> (index: Option<usize>)
        ensures
            match index {
                Some(i) => shape_index(self@, id) == Some(i as int) && i < self@.len(),
                None => shape_index(self@, id) is None,
            },
    {
        proof {
            lemma_shape_index(self@, id);
        }
        let mut i: usize = 0;
        while i < self.shapes.len()
            invariant
                i <= self.shapes.len(),
                forall|j: int| 0 <= j < i ==> (#[trigger] self.shapes@[j]).id != id,
                match shape_index(self.shapes@, id) {
                    Some(index) => {
                        &&& 0 <= index < self.shapes@.len()
                        &&& self.shapes@[index].id == id
                        &&& forall|j: int|
                            0 <= j < index ==> (#[trigger] self.shapes@[j]).id != id
                    },
                    None => forall|j: int|
                        0 <= j < self.shapes@.len() ==> (#[trigger] self.shapes@[j]).id != id,
                },
            decreases self.shapes.len() - i,
        {
            if self.shapes[i].id == id {
                return Some(i);
            }
            i = i + 1;
        }
        None
    }

    /// The shape with an id.
    pub fn shape(&self, id: ShapeId) -> (shape: Option<&DrawnShape>)
        ensures
            match shape {
                Some(drawn) => shape_index(self@, id) matches Some(index) && *drawn
                    == self@[index],
                None => shape_index(self@, id) is None,
            },
    {
        match self.position(id) {
            Some(i) => Some(&self.shapes[i]),
            None => None,
        }
    }

    /// Takes the shape with an id off the page. Returns whether there was one.
    pub fn remove_shape_by_id(&mut self, id: ShapeId) -> (removed: bool)
        ensures
            match shape_index(old(self)@, id) {
                Some(index) => removed && final(self)@ == old(self)@.remove(index),
                None => !removed && final(self)@ == old(self)@,
            },
            final(self).ids_given() == old(self).ids_given(),
            old(self).well_formed() ==> final(self).well_formed() && shape_index(
                final(self)@,
                id,
            ) is None,
    {
        proof {
            lemma_shape_index(self@, id);
        }
        let removed = match self.position(id) {
            Some(i) => {
                self.shapes.remove(i);
                true
            },
            None => false,
        };
        proof {
            lemma_shape_index(self@, id);
        }
        removed
    }

    /// Changes how round the corners of a shape are, if it is an image.
    pub fn set_corner_radius(&mut self, index: usize, radius: CornerRadius)
        requires
            index < old(self)@.len(),
        ensures
            final(self)@ == old(self)@.update(
                index as int,
                with_radius(old(self)@[index as int], radius),
            ),
            final(self).ids_given() == old(self).ids_given(),
            old(self).well_formed() ==> final(self).well_formed(),
    {
        match &mut self.shapes[index].shape {
            Shape::Image { corner_radius, .. } => {
                *corner_radius = radius;
            },
            Shape::Rect { .. } => {},
        }
        assert(self@ =~= old(self)@.update(
            index as int,
            with_radius(old(self)@[index as int], radius),
        ));
    }

    /// The shapes, bottom to top.
    pub fn shapes(&self) -> (shapes: &[DrawnShape])
        ensures
            shapes@ == self@,
    {
        self.shapes.as_slice()
    }
}

/// The areas that have to be repainted.
#[derive(Debug)]
pub struct DirtyTracker {
    regions: Vec<Rect>,
}

impl View for DirtyTracker {
    type V = Seq<Rect>;

    closed spec fn view(&self) -> Seq<Rect> {
        self.regions@
    }
}

/// The areas that had to be repainted when they were asked for.
#[derive(Debug)]
pub struct DirtyRegionReport {
    pub regions: Vec<Rect>,
}

impl DirtyTracker {
    /// Nothing to repaint.
    pub fn new() -> (tracker: DirtyTracker)
        ensures
            tracker@ == Seq::<Rect>::empty(),
    {
        DirtyTracker { regions: Vec::new() }
    }

    /// Marks an area for repainting.
    pub fn mark_rect(&mut self, rect: Rect)
        ensures
            final(self)@ == old(self)@.push(rect),
    {
        self.regions.push(rect);
    }

    /// Hands out the areas and forgets them.
    pub fn take(&mut self) -> (regions: Vec<Rect>)
        ensures
            regions@ == old(self)@,
            final(self)@ == Seq::<Rect>::empty(),
    {
        let mut regions: Vec<Rect> = Vec::new();
        std::mem::swap(&mut regions, &mut self.regions);
        regions
    }
}

/// The editing state.
#[derive(Debug)]
pub struct InputState {
    /// Whether animated images play at all.
    pub animated_images_enabled: bool,
    /// Whether the next pass of the event loop has to render.
    pub needs_redraw: bool,
    pub page: Page,
    pub selection: Vec<ShapeId>,
    pub dirty_tracker: DirtyTracker,
    pub animated_images: AnimatedImagePlayback,
}

impl InputState {
    /// An empty page with playback enabled.
    pub fn new() -> (state: InputState)
        ensures
            state.animated_images_enabled,
            !state.needs_redraw,
            state.page@ == Seq::<DrawnShape>::empty(),
            state.page.well_formed(),
            state.page.ids_given() == 0,
            state.selection@ == Seq::<ShapeId>::empty(),
            state.dirty_tracker@ == Seq::<Rect>::empty(),
            state.animated_images@.is_clear(),
    {
        InputState {
            animated_images_enabled: true,
            needs_redraw: false,
            page: Page::new(),
            selection: Vec::new(),
            dirty_tracker: DirtyTracker::new(),
            animated_images: AnimatedImagePlayback::new(),
        }
    }

    /// Selects shapes.
    pub fn set_selection(&mut self, ids: Vec<ShapeId>)
        ensures
            *final(self) == (InputState { selection: ids, ..*old(self) }),
    {
        self.selection = ids;
    }

    /// Hands out the areas that have to be repainted, and forgets them.
    pub fn take_dirty_region_report(&mut self) -> (report: DirtyRegionReport)
        ensures
            report.regions@ == old(self).dirty_tracker@,
            final(self).dirty_tracker@ == Seq::<Rect>::empty(),
            *final(self) == (InputState {
                dirty_tracker: final(self).dirty_tracker,
                ..*old(self)
            }),
    {
        DirtyRegionReport { regions: self.dirty_tracker.take() }
    }
}

/// The shape with an id is the first one on the page that has it; where none has
/// it, there is no such shape.
pub proof fn shapes_are_found_by_id(shapes: Seq<DrawnShape>, id: ShapeId, index: int)
    ensures
        shape_index(shapes, id) is None <==> forall|i: int|
            0 <= i < shapes.len() ==> (#[trigger] shapes[i]).id != id,
        0 <= index < shapes.len() && shapes[index].id == id && (forall|i: int|
            0 <= i < index ==> (#[trigger] shapes[i]).id != id) ==> shape_index(shapes, id) == Some(
            index,
        ),
{
    lemma_shape_index(shapes, id);
    if let Some(found) = shape_index(shapes, id) {
        if 0 <= index < found {
            assert(shapes[index].id != id);
        }
    }
}

/// Changing the corners of an image changes nothing else of it, and nothing at
/// all of other shapes.
pub proof fn only_the_corners_change(drawn: DrawnShape, radius: CornerRadius)
    ensures
        with_radius(drawn, radius).id == drawn.id,
        drawn.shape is Rect ==> with_radius(drawn, radius) == drawn,
        drawn.shape matches Shape::Image { x, y, w, h, data, .. } ==> with_radius(
            drawn,
            radius,
        ).shape == (Shape::Image { x, y, w, h, data, corner_radius: radius }),
{
}

} // verus!
