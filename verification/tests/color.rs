use skelanim::color::Color;
use skelanim::fixed::FX_ONE;

#[test]
fn setters_write_single_channels() {
    let mut c = Color::new_rgba(0, 0, 0, 0);
    c.set_r(FX_ONE);
    c.set_g(FX_ONE / 2);
    c.set_b(7);
    c.set_a(FX_ONE);
    assert_eq!(c, Color { r: FX_ONE, g: FX_ONE / 2, b: 7, a: FX_ONE });
}

#[test]
fn set_from_floats_clamps() {
    let mut c = Color::default();
    c.set_from_floats(2 * FX_ONE, -5, FX_ONE / 4, FX_ONE);
    assert_eq!(c, Color { r: FX_ONE, g: 0, b: FX_ONE / 4, a: FX_ONE });
}

#[test]
fn set_from_floats3_keeps_alpha() {
    let mut c = Color::new_rgba(0, 0, 0, FX_ONE / 2);
    c.set_from_floats3(FX_ONE, FX_ONE, 3 * FX_ONE);
    assert_eq!(c, Color { r: FX_ONE, g: FX_ONE, b: FX_ONE, a: FX_ONE / 2 });
}

#[test]
fn set_from_color_copies() {
    let src = Color::new_rgba(1, 2, 3, 4);
    let mut c = Color::new_rgba(9, 9, 9, 9);
    c.set_from_color(&src);
    assert_eq!(c, src);
    let mut d = Color::new_rgba(9, 9, 9, 9);
    d.set_from_color3(&src);
    assert_eq!(d, Color { r: 1, g: 2, b: 3, a: 9 });
}

#[test]
fn adds_saturate_at_one() {
    let mut c = Color::new_rgba(FX_ONE - 1, 0, 0, 0);
    c.add_floats(2, 5, 0, FX_ONE / 2);
    assert_eq!(c, Color { r: FX_ONE, g: 5, b: 0, a: FX_ONE / 2 });

    let mut d = Color::new_rgba(10, 20, 30, FX_ONE / 4);
    d.add_floats3(1, 2, 3);
    assert_eq!(d, Color { r: 11, g: 22, b: 33, a: FX_ONE / 4 });

    let mut e = Color::new_rgba(FX_ONE, 0, 0, FX_ONE);
    e.add_color(&Color::new_rgba(FX_ONE, FX_ONE / 2, 0, 0));
    assert_eq!(e, Color { r: FX_ONE, g: FX_ONE / 2, b: 0, a: FX_ONE });
}

#[test]
fn clamp_bounds_every_channel() {
    let mut c = Color::new_rgba(-3, 2 * FX_ONE, FX_ONE / 3, -1);
    c.clamp();
    assert_eq!(c, Color { r: 0, g: FX_ONE, b: FX_ONE / 3, a: 0 });
}

#[test]
fn premultiply_scales_by_alpha() {
    let mut c = Color::new_rgba(FX_ONE, FX_ONE / 2, 0, FX_ONE / 2);
    c.premultiply_alpha();
    assert_eq!(c, Color { r: FX_ONE / 2, g: FX_ONE / 4, b: 0, a: FX_ONE / 2 });
}

#[test]
fn channelwise_product() {
    let a = Color::new_rgba(FX_ONE, FX_ONE / 2, FX_ONE / 4, FX_ONE);
    let b = Color::new_rgba(FX_ONE / 2, FX_ONE / 2, FX_ONE, 0);
    assert_eq!(
        a.mul(b),
        Color { r: FX_ONE / 2, g: FX_ONE / 4, b: FX_ONE / 4, a: 0 }
    );
    let mut c = a;
    c.mul_assign(b);
    assert_eq!(c, a.mul(b));
}
