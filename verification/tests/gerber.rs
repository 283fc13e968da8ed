use easymill::gerber::{
    interpret, GerberCommand, GerberUnit, Interpolation, Position, Primitive, Quadrant, Reading, Written,
};

fn at(x: i64, y: i64) -> Option<Written<i64>> {
    Some(Written { x: Some(x), y: Some(y) })
}

fn reading(v: Option<Reading<i64>>) -> Option<(i64, GerberUnit)> {
    v.map(|r| (r.value, r.unit))
}

fn pos(p: &Position<i64>) -> (Option<(i64, GerberUnit)>, Option<(i64, GerberUnit)>) {
    (reading(p.x), reading(p.y))
}

const MM: GerberUnit = GerberUnit::Millimeters;

#[test]
fn strokes_use_the_latest_definition_of_the_selected_aperture() {
    let cmds = vec![
        GerberCommand::ApertureDefinition { code: 10, definition: 0 },
        GerberCommand::ApertureDefinition { code: 10, definition: 1 },
        GerberCommand::SelectAperture(10),
        GerberCommand::Move(at(1, 2)),
        GerberCommand::Interpolate(Some(Written { x: Some(5), y: None }), None),
    ];
    let drawn = interpret(&cmds);
    assert_eq!(drawn.len(), 1);
    match &drawn[0] {
        Primitive::Stroke { from, to, aperture, unit } => {
            assert_eq!(pos(from), (Some((1, MM)), Some((2, MM))));
            assert_eq!(pos(to), (Some((5, MM)), Some((2, MM))));
            assert_eq!(*aperture, Some(1));
            assert_eq!(*unit, MM);
        }
        other => panic!("unexpected primitive {other:?}"),
    }
}

#[test]
fn flash_needs_a_defined_aperture() {
    let cmds = vec![
        GerberCommand::SelectAperture(11),
        GerberCommand::Flash(at(3, 4)),
        GerberCommand::ApertureDefinition { code: 11, definition: 7 },
        GerberCommand::Unit(GerberUnit::Inches),
        GerberCommand::Flash(None),
    ];
    let drawn = interpret(&cmds);
    assert_eq!(drawn.len(), 1);
    match &drawn[0] {
        Primitive::Flash { at, aperture, unit } => {
            assert_eq!(pos(at), (Some((3, MM)), Some((4, MM))));
            assert_eq!(*aperture, 7);
            assert_eq!(*unit, GerberUnit::Inches);
        }
        other => panic!("unexpected primitive {other:?}"),
    }
}

#[test]
fn regions_fill_three_or_more_points() {
    let cmds = vec![
        GerberCommand::RegionMode(true),
        GerberCommand::Move(at(0, 0)),
        GerberCommand::Interpolate(at(10, 0), None),
        GerberCommand::Interpolate(at(10, 10), None),
        GerberCommand::RegionMode(false),
        GerberCommand::RegionMode(true),
        GerberCommand::Interpolate(at(10, 0), None),
        GerberCommand::Interpolate(at(10, 10), None),
        GerberCommand::Interpolate(at(0, 10), None),
        GerberCommand::RegionMode(false),
    ];
    let drawn = interpret(&cmds);
    assert_eq!(drawn.len(), 1);
    match &drawn[0] {
        Primitive::Fill(points) => {
            assert_eq!(points.len(), 3);
            assert_eq!(pos(&points[2]), (Some((0, MM)), Some((10, MM))));
        }
        other => panic!("unexpected primitive {other:?}"),
    }
}

#[test]
fn arcs_carry_their_centre_offset_and_mode() {
    let cmds = vec![
        GerberCommand::InterpolationMode(Interpolation::Counterclockwise),
        GerberCommand::QuadrantMode(Quadrant::Single),
        GerberCommand::Interpolate(at(4, 0), Some(Written { x: Some(2), y: None })),
    ];
    let drawn = interpret(&cmds);
    match &drawn[0] {
        Primitive::Arc { from, to, offset, clockwise, multi_quadrant, aperture, .. } => {
            assert_eq!(pos(from), (None, None));
            assert_eq!(pos(to), (Some((4, MM)), Some((0, MM))));
            assert_eq!(pos(offset), (Some((2, MM)), None));
            assert!(!*clockwise);
            assert!(!*multi_quadrant);
            assert_eq!(*aperture, None);
        }
        other => panic!("unexpected primitive {other:?}"),
    }
}

#[test]
fn repeat_blocks_restore_the_current_point() {
    let cmds = vec![
        GerberCommand::ApertureDefinition { code: 10, definition: 0 },
        GerberCommand::SelectAperture(10),
        GerberCommand::Move(at(1, 1)),
        GerberCommand::StepAndRepeatOpen { repeat_x: 2, repeat_y: 3, step: 0 },
        GerberCommand::Flash(at(5, 5)),
        GerberCommand::StepAndRepeatClose,
        GerberCommand::StepAndRepeatClose,
        GerberCommand::Interpolate(None, None),
    ];
    let drawn = interpret(&cmds);
    assert_eq!(drawn.len(), 4);
    assert!(matches!(drawn[0], Primitive::RepeatStart));
    assert!(matches!(drawn[2], Primitive::RepeatEnd { repeat_x: 2, repeat_y: 3, step: 0, .. }));
    match &drawn[3] {
        Primitive::Stroke { from, to, .. } => {
            assert_eq!(pos(from), (Some((1, MM)), Some((1, MM))));
            assert_eq!(pos(to), (Some((1, MM)), Some((1, MM))));
        }
        other => panic!("unexpected primitive {other:?}"),
    }
}

#[test]
fn macros_and_ignored_commands() {
    let cmds: Vec<GerberCommand<i64>> = vec![GerberCommand::Ignored, GerberCommand::ApertureMacro { definition: 4 }, GerberCommand::Move(None)];
    let drawn = interpret(&cmds);
    assert_eq!(drawn.len(), 1);
    assert!(matches!(drawn[0], Primitive::MacroDefined(4)));
}

#[test]
fn aperture_blocks_are_drawn_where_they_are_flashed() {
    let cmds = vec![
        GerberCommand::ApertureDefinition { code: 10, definition: 0 },
        GerberCommand::Move(at(2, 3)),
        GerberCommand::ApertureBlockOpen(20),
        GerberCommand::SelectAperture(10),
        GerberCommand::Flash(at(1, 1)),
        GerberCommand::ApertureBlockClose,
        GerberCommand::SelectAperture(20),
        GerberCommand::Flash(at(5, 5)),
        GerberCommand::Flash(at(7, 7)),
        GerberCommand::Interpolate(at(9, 9), None),
    ];
    let drawn = interpret(&cmds);
    assert_eq!(drawn.len(), 7);
    for (start, place) in [(0usize, 5i64), (3, 7)] {
        match &drawn[start] {
            Primitive::BlockPlaced { at } => assert_eq!(pos(at), (Some((place, MM)), Some((place, MM)))),
            other => panic!("unexpected primitive {other:?}"),
        }
        match &drawn[start + 1] {
            Primitive::Flash { at, aperture, .. } => {
                assert_eq!(pos(at), (Some((1, MM)), Some((1, MM))));
                assert_eq!(*aperture, 0);
            }
            other => panic!("unexpected primitive {other:?}"),
        }
        assert!(matches!(drawn[start + 2], Primitive::BlockEnd));
    }
    match &drawn[6] {
        Primitive::Stroke { from, aperture, .. } => {
            assert_eq!(pos(from), (Some((7, MM)), Some((7, MM))));
            assert_eq!(*aperture, None);
        }
        other => panic!("unexpected primitive {other:?}"),
    }
}

#[test]
fn closing_an_aperture_block_restores_the_current_point() {
    let cmds = vec![
        GerberCommand::ApertureDefinition { code: 10, definition: 0 },
        GerberCommand::SelectAperture(10),
        GerberCommand::Move(at(2, 3)),
        GerberCommand::ApertureBlockOpen(20),
        GerberCommand::Interpolate(at(4, 4), None),
        GerberCommand::ApertureBlockClose,
        GerberCommand::Interpolate(None, None),
    ];
    let drawn = interpret(&cmds);
    assert_eq!(drawn.len(), 1);
    match &drawn[0] {
        Primitive::Stroke { from, to, aperture, .. } => {
            assert_eq!(pos(from), (Some((2, MM)), Some((3, MM))));
            assert_eq!(pos(to), (Some((2, MM)), Some((3, MM))));
            assert_eq!(*aperture, Some(0));
        }
        other => panic!("unexpected primitive {other:?}"),
    }
}

#[test]
fn aperture_blocks_nest() {
    let cmds = vec![
        GerberCommand::ApertureDefinition { code: 10, definition: 0 },
        GerberCommand::ApertureBlockOpen(20),
        GerberCommand::ApertureBlockOpen(30),
        GerberCommand::SelectAperture(10),
        GerberCommand::Flash(at(1, 1)),
        GerberCommand::ApertureBlockClose,
        GerberCommand::SelectAperture(30),
        GerberCommand::Flash(at(2, 2)),
        GerberCommand::ApertureBlockClose,
        GerberCommand::SelectAperture(20),
        GerberCommand::Flash(at(5, 5)),
    ];
    let drawn = interpret(&cmds);
    assert_eq!(drawn.len(), 5);
    match &drawn[0] {
        Primitive::BlockPlaced { at } => assert_eq!(pos(at), (Some((5, MM)), Some((5, MM)))),
        other => panic!("unexpected primitive {other:?}"),
    }
    match &drawn[1] {
        Primitive::BlockPlaced { at } => assert_eq!(pos(at), (Some((2, MM)), Some((2, MM)))),
        other => panic!("unexpected primitive {other:?}"),
    }
    assert!(matches!(drawn[2], Primitive::Flash { aperture: 0, .. }));
    assert!(matches!(drawn[3], Primitive::BlockEnd));
    assert!(matches!(drawn[4], Primitive::BlockEnd));
}
