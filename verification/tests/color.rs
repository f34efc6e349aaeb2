use mandelbrot_zoom::color::{build_palette, color_from_iter, Rgb, BLACK};
use std::cell::Cell;

/// The level of the color wave at the count `iter` of `max_iter`: three sine
/// waves, three cycles over the budget, at the phases 0, 2 and 4.
fn wave_level(iter: u32, max_iter: u32) -> Rgb {
    let t = iter as f32 / max_iter as f32;
    let angle = 3.0 * t * 2.0 * std::f32::consts::PI;
    let r = (0.5 * (1.0 + (angle + 0.0).sin()) * 255.0) as u8;
    let g = (0.5 * (1.0 + (angle + 2.0).sin()) * 255.0) as u8;
    let b = (0.5 * (1.0 + (angle + 4.0).sin()) * 255.0) as u8;
    Rgb { r, g, b }
}

fn sine_palette(max_iter: u32) -> Vec<u32> {
    build_palette(max_iter, |iter: u32| wave_level(iter, max_iter))
}

fn sine_color(iter: u32, max_iter: u32) -> u32 {
    color_from_iter(iter, max_iter, |iter: u32| wave_level(iter, max_iter))
}

#[test]
fn pack_puts_red_highest() {
    assert_eq!(Rgb { r: 0x12, g: 0x34, b: 0x56 }.pack(), 0x123456);
    assert_eq!(Rgb { r: 1, g: 0, b: 0 }.pack(), 0x010000);
    assert_eq!(Rgb { r: 0, g: 1, b: 0 }.pack(), 0x000100);
    assert_eq!(Rgb { r: 0, g: 0, b: 1 }.pack(), 0x000001);
}

#[test]
fn pack_covers_the_whole_range() {
    assert_eq!(Rgb { r: 0, g: 0, b: 0 }.pack(), 0x000000);
    assert_eq!(Rgb { r: 255, g: 255, b: 255 }.pack(), 0xFFFFFF);
    assert_eq!(Rgb { r: 255, g: 0, b: 255 }.pack(), 0xFF00FF);
}

#[test]
fn escaped_count_has_the_packed_wave_level() {
    let wave = |iter: u32| Rgb { r: iter as u8, g: 243, b: 31 };
    assert_eq!(color_from_iter(0, 500, wave), 0x00F31F);
    assert_eq!(color_from_iter(127, 500, wave), 0x7FF31F);
    assert_eq!(color_from_iter(499, 500, |_iter: u32| Rgb { r: 1, g: 2, b: 3 }), 0x010203);
}

#[test]
fn interior_count_is_black_whatever_the_wave() {
    let wave = |_iter: u32| Rgb { r: 200, g: 100, b: 50 };
    assert_eq!(color_from_iter(500, 500, wave), BLACK);
    assert_eq!(color_from_iter(501, 500, wave), BLACK);
    assert_eq!(color_from_iter(u32::MAX, 500, wave), BLACK);
    assert_eq!(color_from_iter(50, 50, wave), 0x000000);
}

#[test]
fn wave_is_not_asked_for_an_interior_count() {
    let asked = Cell::new(0u32);
    let wave = |_iter: u32| {
        asked.set(asked.get() + 1);
        Rgb { r: 9, g: 9, b: 9 }
    };
    assert_eq!(color_from_iter(7, 7, &wave), BLACK);
    assert_eq!(asked.get(), 0);
    assert_eq!(color_from_iter(6, 7, &wave), 0x090909);
    assert_eq!(asked.get(), 1);
}

#[test]
fn no_budget_makes_every_count_black() {
    assert_eq!(sine_color(0, 0), BLACK);
    assert_eq!(sine_color(7, 0), BLACK);
    assert_eq!(sine_palette(0), vec![BLACK]);
}

#[test]
fn sine_wave_starts_at_its_known_level() {
    assert_eq!(wave_level(0, 500), Rgb { r: 127, g: 243, b: 31 });
    assert_eq!(sine_color(0, 500), 0x7FF31F);
    assert_eq!(sine_palette(500)[0], 0x7FF31F);
}

#[test]
fn palette_has_one_entry_more_than_the_budget() {
    assert_eq!(sine_palette(500).len(), 501);
    assert_eq!(sine_palette(1).len(), 2);
}

#[test]
fn palette_of_a_given_wave() {
    let palette = build_palette(2, |iter: u32| {
        [Rgb { r: 1, g: 2, b: 3 }, Rgb { r: 0xAA, g: 0xBB, b: 0xCC }][iter as usize]
    });
    assert_eq!(palette, vec![0x010203, 0xAABBCC, 0x000000]);
}

#[test]
fn palette_asks_the_wave_once_for_each_escaping_count() {
    let asked = std::cell::RefCell::new(Vec::new());
    let palette = build_palette(5, |iter: u32| {
        asked.borrow_mut().push(iter);
        Rgb { r: 0, g: 0, b: iter as u8 + 1 }
    });
    assert_eq!(palette, vec![1, 2, 3, 4, 5, 0]);
    assert_eq!(asked.into_inner(), vec![0, 1, 2, 3, 4]);
}

#[test]
fn palette_agrees_with_direct_mapping() {
    for max_iter in [0u32, 1, 50, 500] {
        let palette = sine_palette(max_iter);
        for iter in 0..=max_iter {
            assert_eq!(palette[iter as usize], sine_color(iter, max_iter));
        }
    }
}

#[test]
fn palette_ends_in_black() {
    for max_iter in [0u32, 1, 2, 50, 500] {
        let palette = sine_palette(max_iter);
        assert_eq!(palette[max_iter as usize], BLACK);
        assert_eq!(sine_color(max_iter, max_iter), BLACK);
    }
}

#[test]
fn palette_is_the_same_each_time() {
    let first = sine_palette(500);
    let second = sine_palette(500);
    assert_eq!(first, second);
}
