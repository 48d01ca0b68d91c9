use midibato::{Area, Control, layout_areas, touch_value};

fn control(cc: u8, default_value: u8) -> Control {
    Control { device_id: 0, channel: 0, cc, default_value, color: [0, 255, 0] }
}

fn area(upper_left: [u32; 2], lower_right: [u32; 2], value: u8) -> Area {
    Area { upper_left, lower_right, control: control(20, 0), value }
}

#[test]
fn dimensions_are_inclusive_extents() {
    let a = area([10, 20], [20, 40], 0);
    assert_eq!(a.dimensions(), [11, 21]);
    let b = area([0, 0], [0, 0], 0);
    assert_eq!(b.dimensions(), [1, 1]);
}

#[test]
fn corners_are_inside() {
    let a = area([10, 20], [20, 40], 0);
    assert_eq!(a.point_inside([10, 20]), Some([0, 0]));
    let d = a.dimensions();
    assert_eq!(a.point_inside([20, 40]), Some([d[0] - 1, d[1] - 1]));
}

#[test]
fn outside_on_either_axis_is_none() {
    let a = area([10, 20], [20, 40], 0);
    assert_eq!(a.point_inside([9, 30]), None);
    assert_eq!(a.point_inside([21, 30]), None);
    assert_eq!(a.point_inside([15, 19]), None);
    assert_eq!(a.point_inside([15, 41]), None);
    assert_eq!(a.point_inside([0, 0]), None);
    assert_eq!(a.point_inside([4294967295, 4294967295]), None);
}

#[test]
fn inside_points_get_local_coordinates() {
    let a = area([10, 20], [20, 40], 0);
    assert_eq!(a.point_inside([15, 30]), Some([5, 10]));
}

#[test]
fn value_mapping_boundaries() {
    assert_eq!(touch_value(0, 480), 127);
    assert_eq!(touch_value(479, 480), (127u32 - 127 * 479 / 480) as u8);
    assert_eq!(touch_value(479, 480), 1);
    assert_eq!(touch_value(0, 1), 127);
    assert_eq!(touch_value(126, 127), 1);
    assert_eq!(touch_value(63, 127), 64);
}

#[test]
fn layout_two_controls() {
    let controls = vec![control(20, 0), control(21, 5)];
    let areas = layout_areas(&controls, 800, 480);
    assert_eq!(areas.len(), 2);
    assert_eq!(areas[0].upper_left, [0, 0]);
    assert_eq!(areas[0].lower_right, [400, 479]);
    assert_eq!(areas[1].upper_left, [400, 0]);
    assert_eq!(areas[1].lower_right, [800, 479]);
    assert_eq!(areas[0].value, 0);
    assert_eq!(areas[1].value, 5);
    assert_eq!(areas[0].control.cc, 20);
    assert_eq!(areas[1].control.cc, 21);
}

#[test]
fn layout_shares_boundary_columns() {
    let controls = vec![control(1, 0), control(2, 0), control(3, 0)];
    let areas = layout_areas(&controls, 800, 480);
    assert_eq!(areas.len(), 3);
    assert_eq!(areas[0].lower_right[0], areas[1].upper_left[0]);
    assert_eq!(areas[1].lower_right[0], areas[2].upper_left[0]);
    assert_eq!(areas[0].upper_left[0], 0);
    assert_eq!(areas[1].upper_left[0], 266);
    assert_eq!(areas[2].lower_right[0], 798);
}

#[test]
fn layout_extents_cover_width_minus_remainder() {
    let controls = vec![control(1, 0), control(2, 0), control(3, 0)];
    let width: u32 = 800;
    let areas = layout_areas(&controls, width, 480);
    let covered: u32 = areas.iter().map(|a| a.lower_right[0] - a.upper_left[0]).sum();
    assert_eq!(covered, width - width % 3);
    assert_eq!(covered, 798);
}

#[test]
fn layout_single_control_spans_display() {
    let controls = vec![control(9, 127)];
    let areas = layout_areas(&controls, 640, 200);
    assert_eq!(areas.len(), 1);
    assert_eq!(areas[0].upper_left, [0, 0]);
    assert_eq!(areas[0].lower_right, [640, 199]);
    assert_eq!(areas[0].value, 127);
}

#[test]
fn fill_rows_track_value() {
    let full = area([0, 0], [100, 479], 127);
    assert_eq!(full.fill_rows(), (0, 0));
    let empty = area([0, 0], [100, 479], 0);
    assert_eq!(empty.fill_rows(), (479, 478));
    let half = area([0, 0], [100, 479], 64);
    let h = 479;
    let expected = 479 - 64 * h / 127;
    assert_eq!(half.fill_rows(), (expected, expected - 1));
}
