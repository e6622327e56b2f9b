use gaze::placement::{
    from_registry_value, parse, InvalidUtf16, PlacementAction, PlacementTracker, SharedPlacement,
    WindowPlacement, MAX_HEIGHT, MIN_WIDTH, SAVE_DELAY_NANOS,
};

#[test]
fn parses_position_on_a_monitor_left_of_the_primary_display() {
    assert_eq!(
        parse("-1280,240,420,240"),
        Some(WindowPlacement {
            x: -1280,
            y: 240,
            width: 420,
            height: 240,
        })
    );
}

#[test]
fn rejects_incomplete_or_extra_fields() {
    assert_eq!(parse("10,20,380"), None);
    assert_eq!(parse("10,20,380,220,1"), None);
    assert_eq!(parse("x,20,380,220"), None);
}

#[test]
fn restored_size_obeys_window_constraints() {
    let placement = WindowPlacement {
        x: 0,
        y: 0,
        width: 100,
        height: 900,
    };
    let [width, height] = placement.restored_size();
    assert_eq!([width as f32, height as f32], [MIN_WIDTH as f32, MAX_HEIGHT as f32]);
    assert_eq!([width as f32, height as f32], [120.0, 320.0]);
}

#[test]
fn a_size_within_the_limits_is_restored_as_it_was() {
    let placement = WindowPlacement {
        x: 5,
        y: 6,
        width: 380,
        height: 220,
    };
    assert_eq!(placement.restored_size(), [380, 220]);
}

#[test]
fn shared_placement_exposes_the_latest_complete_value() {
    let first = WindowPlacement {
        x: 10,
        y: 20,
        width: 380,
        height: 220,
    };
    let second = WindowPlacement {
        x: -900,
        y: 40,
        width: 430,
        height: 260,
    };
    let shared = SharedPlacement::new(Some(first));
    assert_eq!(shared.latest(), Some(first));
    shared.update(second);
    assert_eq!(shared.latest(), Some(second));
}

#[test]
fn an_empty_shared_placement_holds_nothing_until_updated() {
    let shared = SharedPlacement::new(None);
    assert_eq!(shared.latest(), None);
    let placement = WindowPlacement {
        x: 1,
        y: 2,
        width: 3,
        height: 4,
    };
    let reader = shared.clone();
    shared.update(placement);
    assert_eq!(reader.latest(), Some(placement));
}

#[test]
fn placements_are_stored_as_four_numbers() {
    let placement = WindowPlacement {
        x: -1280,
        y: 240,
        width: 420,
        height: 240,
    };
    assert_eq!(placement.encode(), "-1280,240,420,240");
    let extreme = WindowPlacement {
        x: i32::MIN,
        y: i32::MAX,
        width: u32::MAX,
        height: 0,
    };
    assert_eq!(extreme.encode(), "-2147483648,2147483647,4294967295,0");
    assert_eq!(parse(&extreme.encode()), Some(extreme));
}

#[test]
fn fields_are_read_as_str_parse_reads_them() {
    assert_eq!(
        parse("+1,-0,+3,004"),
        Some(WindowPlacement {
            x: 1,
            y: 0,
            width: 3,
            height: 4,
        })
    );
    assert_eq!(parse("1,2,-3,4"), None);
    assert_eq!(parse("2147483648,2,3,4"), None);
    assert_eq!(parse("-2147483649,2,3,4"), None);
    assert_eq!(parse("1,2,4294967296,4"), None);
    assert_eq!(parse("1, 2,3,4"), None);
    assert_eq!(parse(""), None);
    assert_eq!(parse("1,2,3,"), None);
    assert_eq!(parse(",,,"), None);
}

#[test]
fn the_registry_value_reads_back_as_written() {
    let placement = WindowPlacement {
        x: -900,
        y: 40,
        width: 430,
        height: 260,
    };
    let value = placement.to_registry_value();
    assert_eq!(value.last(), Some(&0));
    assert_eq!(
        value,
        "-900,40,430,260\0".encode_utf16().collect::<Vec<u16>>()
    );
    assert_eq!(from_registry_value(&value), Ok(Some(placement)));
}

#[test]
fn a_registry_value_is_read_up_to_its_terminator() {
    let mut units: Vec<u16> = "1,2,3,4".encode_utf16().collect();
    units.extend([0, 57, 57]);
    assert_eq!(
        from_registry_value(&units),
        Ok(Some(WindowPlacement {
            x: 1,
            y: 2,
            width: 3,
            height: 4,
        }))
    );
    let unterminated: Vec<u16> = "5,6,7,8".encode_utf16().collect();
    assert_eq!(
        from_registry_value(&unterminated),
        Ok(Some(WindowPlacement {
            x: 5,
            y: 6,
            width: 7,
            height: 8,
        }))
    );
    assert_eq!(from_registry_value(&[0x31, 0x2c, 0]), Ok(None));
}

#[test]
fn an_unpaired_surrogate_is_invalid_data() {
    assert_eq!(from_registry_value(&[0x31, 0xd800, 0x2c, 0]), Err(InvalidUtf16));
    assert_eq!(from_registry_value(&[0xdc00, 0]), Err(InvalidUtf16));
}

fn at(x: i32) -> WindowPlacement {
    WindowPlacement {
        x,
        y: 0,
        width: 380,
        height: 220,
    }
}

#[test]
fn a_moved_window_is_published_at_once_and_saved_once_it_stays() {
    let mut tracker = PlacementTracker::new(Some(at(0)));
    assert_eq!(tracker.observe(at(0), 0), PlacementAction::Nothing);
    assert_eq!(tracker.flush(), None);

    assert_eq!(tracker.observe(at(10), 1_000), PlacementAction::Publish(at(10)));
    assert_eq!(tracker.observe(at(10), 1_000 + SAVE_DELAY_NANOS - 1), PlacementAction::Nothing);
    assert_eq!(tracker.flush(), Some(at(10)));
    assert_eq!(tracker.observe(at(10), 1_000 + SAVE_DELAY_NANOS), PlacementAction::Save(at(10)));
    tracker.record_saved(at(10));
    assert_eq!(tracker.observe(at(10), 5_000_000_000), PlacementAction::Nothing);
    assert_eq!(tracker.flush(), None);
}

#[test]
fn a_window_still_moving_is_never_saved() {
    let mut tracker = PlacementTracker::new(None);
    for step in 0..100 {
        let now = step as u64 * SAVE_DELAY_NANOS;
        assert_eq!(tracker.observe(at(step), now), PlacementAction::Publish(at(step)));
    }
    assert_eq!(tracker.flush(), Some(at(99)));
}

#[test]
fn a_failed_write_is_asked_for_again() {
    let mut tracker = PlacementTracker::new(None);
    tracker.observe(at(3), 0);
    assert_eq!(tracker.observe(at(3), SAVE_DELAY_NANOS), PlacementAction::Save(at(3)));
    assert_eq!(tracker.observe(at(3), 2 * SAVE_DELAY_NANOS), PlacementAction::Save(at(3)));
}

#[test]
fn returning_to_the_saved_placement_writes_nothing() {
    let mut tracker = PlacementTracker::new(Some(at(0)));
    tracker.observe(at(5), 0);
    assert_eq!(tracker.observe(at(0), 1), PlacementAction::Publish(at(0)));
    assert_eq!(tracker.observe(at(0), 10 * SAVE_DELAY_NANOS), PlacementAction::Nothing);
    assert_eq!(tracker.flush(), None);
}

#[test]
fn the_tracker_publishes_every_change_to_its_shared_slot() {
    let mut tracker = PlacementTracker::new(None);
    let shared = tracker.shared();
    assert_eq!(shared.latest(), None);
    tracker.observe(at(7), 0);
    assert_eq!(shared.latest(), Some(at(7)));
    tracker.observe(at(8), 1);
    assert_eq!(tracker.shared().latest(), Some(at(8)));

    let restored = PlacementTracker::new(Some(at(2)));
    assert_eq!(restored.shared().latest(), Some(at(2)));
}
