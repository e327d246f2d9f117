use qrusty::bounding_box::BoundingBox;
use qrusty::error::ScanError;
use qrusty::monitor::{find_monitor_selected, MonitorDescriptor};

fn side_by_side() -> Vec<MonitorDescriptor> {
    vec![
        MonitorDescriptor { x: 0, y: 0, width: 1920, height: 1080 },
        MonitorDescriptor { x: 1920, y: 0, width: 1280, height: 1024 },
    ]
}

#[test]
fn selection_on_second_monitor_resolves_to_it() {
    let sel = BoundingBox::new(2000, 100, 50, 50);
    assert_eq!(find_monitor_selected(&sel, &side_by_side()), Ok(1));
}

#[test]
fn selection_straddling_the_seam_resolves_to_the_first_monitor() {
    let sel = BoundingBox::new(1900, 100, 50, 50);
    assert_eq!(find_monitor_selected(&sel, &side_by_side()), Ok(0));
}

#[test]
fn selection_starting_on_the_seam_belongs_to_the_right_monitor() {
    let sel = BoundingBox::new(1920, 100, 50, 50);
    assert_eq!(find_monitor_selected(&sel, &side_by_side()), Ok(1));
}

#[test]
fn overlapping_monitors_resolve_to_the_first_listed() {
    let monitors = vec![
        MonitorDescriptor { x: 100, y: 0, width: 800, height: 600 },
        MonitorDescriptor { x: 0, y: 0, width: 800, height: 600 },
    ];
    let sel = BoundingBox::new(150, 10, 20, 20);
    assert_eq!(find_monitor_selected(&sel, &monitors), Ok(0));
    let left_only = BoundingBox::new(10, 10, 20, 20);
    assert_eq!(find_monitor_selected(&left_only, &monitors), Ok(1));
}

#[test]
fn off_screen_selection_finds_no_monitor() {
    let sel = BoundingBox::new(-500, -500, 100, 100);
    assert_eq!(find_monitor_selected(&sel, &side_by_side()), Err(ScanError::NoMonitorFound));
}

#[test]
fn empty_monitor_list_finds_no_monitor() {
    let sel = BoundingBox::new(0, 0, 10, 10);
    assert_eq!(find_monitor_selected(&sel, &Vec::new()), Err(ScanError::NoMonitorFound));
}

#[test]
fn monitor_bounding_box_spans_origin_and_size() {
    let m = MonitorDescriptor { x: -1280, y: 200, width: 1280, height: 720 };
    assert_eq!(m.bounding_box(), BoundingBox::new(-1280, 200, 1280, 720));
}
