use color_organ::color::Color;
use color_organ::color::HsluvColor;
use color_organ::unipolar::Unipolar;

#[test]
fn test_interpolation() {
    // Interpolating a color with itself keeps its hue and saturation — the
    // chroma point — at every scale factor.  (The blended lightness is the
    // additive combination, so only the chroma is compared here.)
    // The chroma point below is hue 0.3 of a turn at full saturation.
    let c = HsluvColor::new(-309, 951, Unipolar::new(300));

    assert_eq!(c.weighted_interpolation(&c.clone(), Unipolar::zero()).rect(), c.rect());
    assert_eq!(c.weighted_interpolation(&c.clone(), Unipolar::one()).rect(), c.rect());
    assert_eq!(c.weighted_interpolation(&c.clone(), Unipolar::new(500)).rect(), c.rect());
}

#[test]
/// Exact blend: lightness adds (the newer color's share attenuated), and
/// the chroma point lands on the share-weighted line between the two.
fn test_interpolation_exact() {
    let current = HsluvColor::new(1000, 0, Unipolar::new(400));
    let target = HsluvColor::new(0, 1000, Unipolar::new(500));
    let blended = current.weighted_interpolation(&target, Unipolar::new(500));
    // contributed = 500 * 500 / 1000 = 250; lightness = 400 + 250 = 650
    assert_eq!(blended.lightness(), Unipolar::new(650));
    // own share = 400 * 1000 / 650 = 615 thousandths
    assert_eq!(blended.rect(), (615, 385));
}

#[test]
/// The blend never attenuates the accumulated color's own lightness.
fn test_interpolation_additive() {
    let current = HsluvColor::new(1000, 0, Unipolar::new(400));
    let target = HsluvColor::new(0, 1000, Unipolar::new(900));
    let blended = current.weighted_interpolation(&target, Unipolar::one());
    // lightness = min(1000, 400 + 900)
    assert_eq!(blended.lightness(), Unipolar::one());
}

#[test]
/// Scaling by an envelope touches lightness only.
fn test_with_envelope() {
    let c = HsluvColor::new(600, -800, Unipolar::new(900));
    let dimmed = c.with_envelope(Unipolar::new(500));
    assert_eq!(dimmed.rect(), (600, -800));
    assert_eq!(dimmed.lightness(), Unipolar::new(450));
}

#[test]
/// A closed envelope contributes black; a live one scales.
fn test_enveloped() {
    let c = HsluvColor::new(200, 300, Unipolar::new(800));
    assert_eq!(c.enveloped(None), HsluvColor::default());
    assert_eq!(c.enveloped(Some(Unipolar::new(500))), c.with_envelope(Unipolar::new(500)));
}

#[test]
/// Black is zero lightness at full saturation, hue zero.
fn test_black() {
    let black = HsluvColor::black();
    assert_eq!(black.lightness(), Unipolar::zero());
    assert_eq!(black.rect(), (1000, 0));
    assert_eq!(black, HsluvColor::default());
}

#[test]
/// Construction clamps the chroma point into the unit box.
fn test_chroma_clamps() {
    let c = HsluvColor::new(5000, -5000, Unipolar::new(100));
    assert_eq!(c.rect(), (1000, -1000));
}
