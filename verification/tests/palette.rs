use zeddy::palette::{cell_paints, cube_step, indexed, resolve, Paint, Slot, VtColor};

#[test]
fn default_means_something_different_in_each_slot() {
    assert_ne!(resolve(VtColor::Default, Slot::Foreground), resolve(VtColor::Default, Slot::Background));
}

#[test]
fn true_colour_is_passed_through_untouched() {
    assert_eq!(resolve(VtColor::Rgb(255, 0, 0), Slot::Foreground), Paint::Rgb(255, 0, 0));
}

#[test]
fn the_sixteen_ansi_slots_come_from_the_theme() {
    assert_eq!(resolve(VtColor::Indexed(1), Slot::Foreground), Paint::ThemeAnsi(1));
    assert_eq!(resolve(VtColor::Indexed(9), Slot::Foreground), Paint::ThemeAnsi(9));
    assert_eq!(indexed(15), Paint::ThemeAnsi(15));
}

#[test]
fn the_cube_follows_xterms_uneven_steps() {
    assert_eq!(resolve(VtColor::Indexed(16), Slot::Foreground), resolve(VtColor::Rgb(0, 0, 0), Slot::Foreground));
    assert_eq!(
        resolve(VtColor::Indexed(231), Slot::Foreground),
        resolve(VtColor::Rgb(255, 255, 255), Slot::Foreground)
    );
    assert_eq!(cube_step(0), 0);
    assert_eq!(cube_step(1), 95);
    assert_eq!(cube_step(2), 135);
    assert_eq!(cube_step(5), 255);
    // 196 is pure red: value 180 = 5 * 36.
    assert_eq!(indexed(196), Paint::Rgb(255, 0, 0));
    // 110 = 16 + 94: r = 2, g = 3, b = 4.
    assert_eq!(indexed(110), Paint::Rgb(135, 175, 215));
}

#[test]
fn the_greyscale_ramp_is_grey() {
    assert_eq!(indexed(240), Paint::Rgb(88, 88, 88));
    assert_eq!(indexed(232), Paint::Rgb(8, 8, 8));
    assert_eq!(indexed(255), Paint::Rgb(238, 238, 238));
}

#[test]
fn inverse_swaps_the_two_slots_and_not_merely_the_two_colours() {
    let plain = cell_paints(VtColor::Default, VtColor::Default, false);
    let inverted = cell_paints(VtColor::Default, VtColor::Default, true);
    assert_eq!(plain, (inverted.1, inverted.0));
    assert_eq!(inverted.0, Paint::ThemeDefault(Slot::Background));
    let mixed = cell_paints(VtColor::Indexed(2), VtColor::Rgb(1, 2, 3), true);
    assert_eq!(mixed, (Paint::Rgb(1, 2, 3), Paint::ThemeAnsi(2)));
}
