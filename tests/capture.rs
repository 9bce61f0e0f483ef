use glide::capture::{find_display, find_window, DisplayInfo, ListTarget, WindowInfo};

fn display(index: usize, x: i32) -> DisplayInfo {
    DisplayInfo {
        index,
        width: 1920,
        height: 1080,
        x,
        y: 0,
        is_main: index == 0,
        scale_factor: 1000,
        display_string: ":0".to_string(),
    }
}

#[test]
fn finds_display_by_index() {
    let displays = vec![display(0, 0), display(1, 1920), display(1, 9999)];
    let d = find_display(&displays, 1).unwrap();
    assert_eq!((d.index, d.x, d.width, d.height), (1, 1920, 1920, 1080));
    assert_eq!(d.display_string, ":0");
    assert!(find_display(&displays, 7).is_none());
}

#[test]
fn finds_window_by_id() {
    let windows = vec![
        WindowInfo { id: 5, name: "a".to_string(), owner: "x".to_string(), bounds: (1, 2, 300, 200) },
        WindowInfo { id: 9, name: "b".to_string(), owner: "y".to_string(), bounds: (10, 20, 640, 480) },
    ];
    let w = find_window(&windows, 9, ":1".to_string()).unwrap();
    assert_eq!((w.window_id(), w.x, w.y, w.width, w.height), (9, 10, 20, 640, 480));
    assert_eq!(w.display_string, ":1");
    assert!(find_window(&windows, 3, ":1".to_string()).is_none());
    assert_ne!(ListTarget::Displays, ListTarget::Windows);
}
