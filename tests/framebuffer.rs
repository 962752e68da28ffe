use ectool::controller::launch_led_map;
use ectool::framebuffer::{FrameBuffer, Led};

fn launch_framebuffer() -> FrameBuffer {
    FrameBuffer::new(launch_led_map())
}

#[test]
fn launch_layout_dimensions() {
    let fb = launch_framebuffer();
    assert_eq!(fb.width(), 15);
    assert_eq!(fb.height(), 6);
    assert_eq!(fb.num_leds(), 84);
    assert_eq!(fb.flat_leds().len(), 84);
}

#[test]
fn every_mapped_cell_holds_its_led() {
    let map = launch_led_map();
    let fb = FrameBuffer::new(map.clone());
    for (row, cells) in map.iter().enumerate() {
        for (col, &idx) in cells.iter().enumerate() {
            let led = fb.get(row, col);
            if idx == 255 {
                assert!(led.is_none(), "cell {row},{col} should be empty");
            } else {
                let led = led.expect("mapped cell holds an LED");
                assert_eq!(led.index, idx);
                assert_eq!(led.color, (0, 0, 0));
                assert_eq!(led.sync_color, None);
            }
        }
    }
}

#[test]
fn absent_cell_in_row_keeps_its_position() {
    let fb = FrameBuffer::new(vec![vec![
        38, 37, 36, 35, 34, 33, 32, 31, 30, 29, 28, 27, 26, 255, 25,
    ]]);
    assert!(fb.get(0, 13).is_none());
    assert_eq!(fb.get(0, 14).unwrap().index, 25);
    assert_eq!(fb.num_leds(), 14);
    assert_eq!(fb.width(), 15);
    let launch = launch_framebuffer();
    assert!(launch.get(3, 13).is_none());
    assert_eq!(launch.get(3, 14).unwrap().index, 25);
}

#[test]
fn get_outside_grid_is_none() {
    let fb = launch_framebuffer();
    assert!(fb.get(6, 0).is_none());
    assert!(fb.get(0, 15).is_none());
    assert!(fb.get(usize::MAX, usize::MAX).is_none());
}

#[test]
fn set_on_absent_cell_changes_nothing() {
    let mut fb = launch_framebuffer();
    let before = fb.flat_leds();
    fb.set(3, 13, 1, 2, 3);
    fb.set(9, 9, 1, 2, 3);
    let after = fb.flat_leds();
    assert_eq!(before.len(), after.len());
    for (a, b) in before.iter().zip(after.iter()) {
        assert_eq!(a.index, b.index);
        assert_eq!(a.color, b.color);
        assert_eq!(a.sync_color, b.sync_color);
    }
}

#[test]
fn set_changes_one_led() {
    let mut fb = launch_framebuffer();
    fb.set(3, 14, 10, 20, 30);
    assert_eq!(fb.get(3, 14).unwrap().color, (10, 20, 30));
    assert_eq!(fb.get(3, 12).unwrap().color, (0, 0, 0));
    let changed = fb.flat_leds().iter().filter(|l| l.color != (0, 0, 0)).count();
    assert_eq!(changed, 1);
}

#[test]
fn fill_and_clear_cover_every_led() {
    let mut fb = launch_framebuffer();
    fb.fill(1, 2, 3);
    assert!(fb.flat_leds().iter().all(|l| l.color == (1, 2, 3)));
    fb.clear();
    assert!(fb.flat_leds().iter().all(|l| l.color == (0, 0, 0)));
    assert_eq!(fb.num_leds(), 84);
}

#[test]
fn flat_leds_follow_row_major_order() {
    let fb = FrameBuffer::new(vec![vec![5, 255, 7], vec![255], vec![], vec![9, 8]]);
    let order: Vec<u8> = fb.flat_leds().iter().map(|l| l.index).collect();
    assert_eq!(order, vec![5, 7, 9, 8]);
    assert_eq!(fb.height(), 4);
    assert_eq!(fb.width(), 3);
    assert_eq!(fb.num_leds(), 4);
}

#[test]
fn empty_map_gives_empty_framebuffer() {
    let fb = FrameBuffer::new(vec![]);
    assert_eq!(fb.width(), 0);
    assert_eq!(fb.height(), 0);
    assert_eq!(fb.num_leds(), 0);
    assert!(fb.get(0, 0).is_none());
}

#[test]
fn packed_color_splits_into_channels() {
    let led = Led::from_hex(4, 0xFF00A0);
    assert_eq!(led.color, (255, 0, 160));
    assert_eq!(led.index, 4);
    assert_eq!(led.sync_color, None);
    let mut by_hex = Led::new(4, 9, 9, 9);
    by_hex.set_color_hex(0xFF00A0);
    let mut by_rgb = Led::new(4, 9, 9, 9);
    by_rgb.set_color_rgb(255, 0, 160);
    assert_eq!(by_hex.color, by_rgb.color);
    assert_eq!(by_hex.sync_color, by_rgb.sync_color);
    let from_rgb = Led::from_rgb(4, (255, 0, 160));
    assert_eq!(from_rgb.color, led.color);
}

#[test]
fn packed_color_ignores_high_byte() {
    assert_eq!(Led::from_hex(0, 0xAB123456).color, (0x12, 0x34, 0x56));
}
