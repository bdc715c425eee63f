use noull_pm::layout::{dialog_rows, halves, popup, screen_rows, Rect};

fn rect(x: u16, y: u16, width: u16, height: u16) -> Rect {
    Rect::new(x, y, width, height)
}

fn share(size: u16, percent: u16) -> u16 {
    ((size as u32 * percent as u32 + 50) / 100) as u16
}

fn within(a: Rect, b: Rect) -> bool {
    a.x >= b.x && a.y >= b.y && a.x + a.width <= b.x + b.width && a.y + a.height <= b.y + b.height
}

fn sizes() -> Vec<u16> {
    let mut all: Vec<u16> = (0..=300).collect();
    all.extend([999, 1000, 32767, 32768, 65000, 65534, 65535]);
    all
}

#[test]
fn rectangles_end_where_they_can_be_told() {
    assert_eq!(rect(65530, 3, 10, 65535), Rect { x: 65530, y: 3, width: 5, height: 65532 });
    assert_eq!(rect(1, 2, 3, 4), Rect { x: 1, y: 2, width: 3, height: 4 });
}

#[test]
fn the_screen_is_divided() {
    let rows = screen_rows(rect(0, 0, 120, 40));
    assert_eq!(
        rows,
        vec![rect(0, 0, 120, 35), rect(0, 35, 120, 1), rect(0, 36, 120, 3), rect(0, 39, 120, 1)]
    );
    for size in sizes() {
        let area = rect(0, 0, 80, size);
        let rows = screen_rows(area);
        assert_eq!(rows.len(), 4);
        for r in &rows {
            assert!(within(*r, area), "{size}");
            assert_eq!((r.x, r.width), (0, 80));
        }
        if size >= 8 {
            assert_eq!(rows[0], rect(0, 0, 80, size - 5));
            assert_eq!(rows[1], rect(0, size - 5, 80, 1));
            assert_eq!(rows[2], rect(0, size - 4, 80, 3));
            assert_eq!(rows[3], rect(0, size - 1, 80, 1));
        } else {
            assert_eq!(rows[0], rect(0, 0, 80, size.min(3)));
            for i in 1..4 {
                assert_eq!(rows[i].y, rows[i - 1].y + rows[i - 1].height);
            }
            assert!(rows[1].height <= 1 && rows[2].height <= 3 && rows[3].height <= 1);
            assert_eq!(rows[3].y + rows[3].height, size);
        }
    }
}

#[test]
fn a_dialog_is_divided() {
    for size in sizes() {
        for y in [0, 7] {
            let area = rect(3, y, 9, size);
            let rows = dialog_rows(area);
            assert_eq!(rows.len(), 2);
            for r in &rows {
                assert!(within(*r, area), "{size}");
            }
            if area.height >= 2 {
                assert_eq!(rows[0], rect(3, y, 9, area.height - 1));
                assert_eq!(rows[1], rect(3, y + area.height - 1, 9, 1));
            } else {
                assert_eq!(rows[0], area);
                assert_eq!(rows[1], rect(3, y + area.height, 9, 0));
            }
        }
    }
}

#[test]
fn columns_are_shared() {
    assert_eq!(halves(rect(0, 0, 100, 5), 42), (rect(0, 0, 42, 5), rect(42, 0, 58, 5)));
    for size in sizes() {
        for percent in [0, 42, 45, 50, 99, 100] {
            for x in [0, 5] {
                let area = rect(x, 1, size, 2);
                let at = share(area.width, percent);
                let (left, right) = halves(area, percent);
                assert_eq!(left, rect(x, 1, at, 2), "{size} {percent}");
                assert_eq!(right, rect(x + at, 1, area.width - at, 2), "{size} {percent}");
            }
        }
    }
}

#[test]
fn dialogs_stand_in_the_middle() {
    assert_eq!(popup(rect(0, 0, 100, 50), 62, 34), rect(19, 17, 62, 17));
    assert_eq!(popup(rect(0, 0, 80, 24), 82, 82), rect(7, 2, 66, 20));
    for size in sizes() {
        for percent in [0, 1, 14, 33, 34, 46, 62, 78, 82, 99, 100] {
            let side = (100 - percent) / 2;
            let area = rect(2, 3, size, size);
            let from = share(area.width, side);
            let to = share(area.width, side + percent);
            let top = share(area.height, side);
            let bottom = share(area.height, side + percent);
            assert_eq!(
                popup(area, percent, percent),
                rect(2 + from, 3 + top, to - from, bottom - top),
                "{size} {percent}"
            );
        }
    }
}
