use fand::fan::FanPower;
use fand::text::{Alignment, FormatSpec};

#[test]
fn full_speed_is_the_top_level() {
    assert_eq!(FanPower::full_speed().value(), 255);
}

#[test]
fn duty_text_is_plain_decimal() {
    assert_eq!(FanPower::from(0).decimal(), b"0".to_vec());
    assert_eq!(FanPower::from(7).decimal(), b"7".to_vec());
    assert_eq!(FanPower::from(114).decimal(), b"114".to_vec());
    assert_eq!(FanPower::from(255).decimal(), b"255".to_vec());
}

#[test]
fn textual_form_is_a_percentage() {
    assert_eq!(FanPower::from(0).to_string(), "0.0%");
    assert_eq!(FanPower::from(127).to_string(), "49.8%");
    assert_eq!(FanPower::from(128).to_string(), "50.2%");
    assert_eq!(FanPower::from(255).to_string(), "100.0%");
}

#[test]
fn percentage_agrees_with_division_by_two_point_five_five() {
    for level in 0..=255u8 {
        for precision in 0..=3usize {
            let spec = FormatSpec { precision: Some(precision), ..FormatSpec::plain() };
            let expected = format!("{:.*}%", precision, (level as f32) / 2.55);
            assert_eq!(FanPower::from(level).format(&spec), expected);
        }
    }
}

#[test]
fn format_honours_width_alignment_and_fill() {
    let power = FanPower::from(127);
    let spec = FormatSpec { width: Some(7), precision: Some(2), ..FormatSpec::plain() };
    assert_eq!(power.format(&spec), " 49.80%");
    let left = FormatSpec { width: Some(8), align: Some(Alignment::Left), fill: '*', ..FormatSpec::plain() };
    assert_eq!(power.format(&left), "49.8%***");
    let center = FormatSpec { width: Some(8), align: Some(Alignment::Center), fill: '-', ..FormatSpec::plain() };
    assert_eq!(power.format(&center), "--49.8%-");
    let narrow = FormatSpec { width: Some(2), ..FormatSpec::plain() };
    assert_eq!(power.format(&narrow), "49.8%");
    let alternate = FormatSpec { alternate: true, width: Some(14), ..FormatSpec::plain() };
    assert_eq!(power.format(&alternate), " FanPower(127)");
}

#[test]
fn digits_past_the_fourteenth_are_zeros() {
    let spec = FormatSpec { precision: Some(16), ..FormatSpec::plain() };
    assert_eq!(FanPower::from(1).format(&spec), "0.3921568627451000%");
}
