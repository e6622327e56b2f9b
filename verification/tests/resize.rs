use gaze::resize::{HitState, ResizeEdge};

fn state() -> HitState {
    HitState {
        left: 10,
        top: 30,
        right: 370,
        bottom: 190,
        edge: 12,
        enabled: true,
    }
}

#[test]
fn outer_eye_edges_are_native_resize_borders() {
    let state = state();
    assert_eq!(state.direction_at(14, 110), Some(ResizeEdge::Left));
    assert_eq!(state.direction_at(366, 110), Some(ResizeEdge::Right));
    assert_eq!(state.direction_at(100, 34), Some(ResizeEdge::Top));
    assert_eq!(state.direction_at(280, 186), Some(ResizeEdge::Bottom));
}

#[test]
fn eye_interior_is_not_a_resize_border() {
    assert_eq!(state().direction_at(280, 110), None);
}

#[test]
fn a_disabled_state_resizes_from_nowhere() {
    let disabled = HitState {
        enabled: false,
        ..state()
    };
    assert_eq!(disabled.direction_at(10, 30), None);
    let fresh = HitState::new();
    assert_eq!(fresh.direction_at(0, 0), None);
    assert_eq!(fresh.edge, 1);
}

#[test]
fn a_corner_resizes_horizontally_and_the_band_is_exclusive() {
    let state = state();
    assert_eq!(state.direction_at(10, 30), Some(ResizeEdge::Left));
    assert_eq!(state.direction_at(15, 32), Some(ResizeEdge::Top));
    assert_eq!(state.direction_at(22, 110), None);
    assert_eq!(state.direction_at(21, 110), Some(ResizeEdge::Left));
    assert_eq!(state.direction_at(-1, 110), Some(ResizeEdge::Left));
    assert_eq!(state.direction_at(-2, 110), None);
}
