use gyoretu::fluctus::{Figura, Fluctus, F32_ONE, F32_ZERO};

#[test]
fn fluctus_new_is_neutral() {
    let f = Fluctus::new();
    assert_eq!(f.figura, Figura::Constant);
    assert_eq!(f.cycle, 1.0f32.to_bits());
    assert_eq!(f.phase, 0.0f32.to_bits());
    assert_eq!(F32_ONE, 1.0f32.to_bits());
    assert_eq!(F32_ZERO, 0.0f32.to_bits());
}

#[test]
fn figura_display_labels() {
    assert_eq!(Figura::Constant.display(), "const");
    assert_eq!(Figura::Sin.display(), " sin ");
    assert_eq!(Figura::Square.display(), "squar");
    assert_eq!(Figura::Triangle.display(), "trian");
    assert_eq!(Figura::Sinln.display(), "sinln");
    assert_eq!(Figura::Delta.display(), "delta");
    assert_eq!(Figura::InverseTri.display(), "invtr");
    assert_eq!(Figura::Trifrom1.display(), "tri 1");
}

#[test]
fn figura_labels_are_five_wide() {
    for f in [
        Figura::Constant,
        Figura::Sin,
        Figura::Square,
        Figura::Triangle,
        Figura::Sinln,
        Figura::Delta,
        Figura::InverseTri,
        Figura::Trifrom1,
    ] {
        assert_eq!(f.display().chars().count(), 5);
    }
}
