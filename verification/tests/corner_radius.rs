//! Rounding the corners of selected images.

use wayscriber_images::input::corner_radius::{
    SelectionPropertyKind, CORNER_UNITS_PER_PIXEL, MAX_CORNER_RADIUS, SELECTION_CORNER_RADIUS_STEP,
};
use wayscriber_images::input::state::InputState;
use wayscriber_images::shape::{CornerRadius, EmbeddedImage, Shape, ShapeId};

fn image_shape(w: i32, h: i32, corner_radius: f64) -> Shape {
    Shape::Image {
        x: 0,
        y: 0,
        w,
        h,
        data: EmbeddedImage {
            mime_type: "image/png".to_string(),
            width: 10,
            height: 10,
            bytes: vec![1, 2, 3],
        },
        corner_radius: CornerRadius {
            units: (corner_radius * CORNER_UNITS_PER_PIXEL as f64) as i64,
        },
    }
}

fn state_with_image(shape: Shape) -> (InputState, ShapeId) {
    let mut state = InputState::new();
    let id = state.page.add_shape(shape);
    state.set_selection(vec![id]);
    (state, id)
}

fn radius(state: &InputState, id: ShapeId) -> f64 {
    match &state.page.shape(id).unwrap().shape {
        Shape::Image { corner_radius, .. } => {
            corner_radius.units as f64 / CORNER_UNITS_PER_PIXEL as f64
        }
        other => panic!("expected an image, got {other:?}"),
    }
}

#[test]
fn stepping_forward_rounds_the_corners() {
    let (mut state, id) = state_with_image(image_shape(200, 120, 0.0));

    assert!(state.apply_selection_corner_radius(1));

    assert_eq!(
        radius(&state, id),
        SELECTION_CORNER_RADIUS_STEP as f64 / CORNER_UNITS_PER_PIXEL as f64
    );
    assert_eq!(radius(&state, id), 4.0);
}

#[test]
fn the_radius_never_goes_below_square() {
    let (mut state, id) = state_with_image(image_shape(200, 120, 0.0));

    assert!(!state.apply_selection_corner_radius(-1));

    assert_eq!(radius(&state, id), 0.0);
}

#[test]
fn the_radius_stops_at_half_the_shorter_side() {
    // A 40px-tall image cannot show more than a 20px corner.
    let (mut state, id) = state_with_image(image_shape(200, 40, 18.0));

    assert!(state.apply_selection_corner_radius(1));

    assert_eq!(radius(&state, id), 20.0);
    assert!(!state.apply_selection_corner_radius(1));
}

#[test]
fn non_image_shapes_do_not_expose_the_property() {
    let mut state = InputState::new();
    let id = state.page.add_shape(Shape::Rect { x: 0, y: 0, w: 10, h: 10 });

    let entries = state.build_selection_property_entries(&[id]);

    assert!(!entries
        .iter()
        .any(|entry| entry.kind == SelectionPropertyKind::CornerRadius));
}

#[test]
fn images_expose_the_property_with_a_readable_value() {
    let (state, id) = state_with_image(image_shape(200, 120, 0.0));

    let entries = state.build_selection_property_entries(&[id]);
    let entry = entries
        .iter()
        .find(|entry| entry.kind == SelectionPropertyKind::CornerRadius)
        .expect("corner radius entry");

    assert_eq!(entry.label, "Corner radius");
    assert_eq!(entry.value, "Square");
}

#[test]
fn the_radius_stops_at_the_upper_bound_of_large_images() {
    let (mut state, id) = state_with_image(image_shape(-4000, 3001, 254.0));

    assert!(state.apply_selection_corner_radius(1));

    assert_eq!(radius(&state, id), 256.0);
    assert_eq!(radius(&state, id), MAX_CORNER_RADIUS as f64 / CORNER_UNITS_PER_PIXEL as f64);
}

#[test]
fn an_odd_side_halves_to_half_a_pixel() {
    let (mut state, id) = state_with_image(image_shape(7, -100, 0.0));

    assert!(state.apply_selection_corner_radius(3));

    assert_eq!(radius(&state, id), 3.5);
}

#[test]
fn extreme_steps_are_cut_down() {
    let (mut state, id) = state_with_image(image_shape(i32::MIN, i32::MIN, 1.0));

    assert!(state.apply_selection_corner_radius(i32::MAX));
    assert_eq!(radius(&state, id), 256.0);
    assert!(state.apply_selection_corner_radius(i32::MIN));
    assert_eq!(radius(&state, id), 0.0);
}

#[test]
fn a_step_back_undoes_a_step() {
    let (mut state, id) = state_with_image(image_shape(200, 120, 7.25));

    assert!(state.apply_selection_corner_radius(2));
    assert_eq!(radius(&state, id), 15.25);
    assert!(state.apply_selection_corner_radius(-2));
    assert_eq!(radius(&state, id), 7.25);
}

#[test]
fn shapes_outside_the_selection_keep_their_corners() {
    let (mut state, id) = state_with_image(image_shape(200, 120, 0.0));
    let other = state.page.add_shape(image_shape(200, 120, 8.0));

    assert!(state.apply_selection_corner_radius(1));

    assert_eq!(radius(&state, id), 4.0);
    assert_eq!(radius(&state, other), 8.0);
}

#[test]
fn several_images_show_one_radius_or_none() {
    let (mut state, first) = state_with_image(image_shape(200, 120, 12.0));
    let second = state.page.add_shape(image_shape(200, 120, 12.0));
    assert_eq!(
        state.build_selection_property_entries(&[first, second])[0].value,
        "12px"
    );

    assert!(state.apply_selection_corner_radius(1));
    assert_eq!(
        state.build_selection_property_entries(&[first, second])[0].value,
        "Mixed"
    );
}

#[test]
fn removed_shapes_are_gone() {
    let (mut state, id) = state_with_image(image_shape(200, 120, 0.0));

    assert!(state.page.remove_shape_by_id(id));
    assert!(!state.page.remove_shape_by_id(id));
    assert!(state.page.shape(id).is_none());
    assert_eq!(state.page.shapes().len(), 0);
}
