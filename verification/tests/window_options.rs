use gamut::window_options::{
    parse_placement, parse_radius, parse_size, placement_label, radius_label, size_label,
    LauncherPlacement, LauncherSize, RadiusPreference,
};

#[test]
fn radius_labels_read_back() {
    assert_eq!(radius_label(RadiusPreference::Small), "Small");
    assert_eq!(radius_label(RadiusPreference::Medium), "Medium");
    assert_eq!(radius_label(RadiusPreference::Custom), "Medium");
    assert_eq!(radius_label(RadiusPreference::Large), "Large");
    for r in [RadiusPreference::Small, RadiusPreference::Medium, RadiusPreference::Large] {
        assert_eq!(parse_radius(radius_label(r)), r);
    }
    assert_eq!(parse_radius(radius_label(RadiusPreference::Custom)), RadiusPreference::Medium);
    assert_eq!(parse_radius("small"), RadiusPreference::Medium);
    assert_eq!(parse_radius(""), RadiusPreference::Medium);
}

#[test]
fn size_labels_read_back() {
    assert_eq!(size_label(LauncherSize::ExtraLarge), "Extra Large");
    for s in [LauncherSize::Small, LauncherSize::Medium, LauncherSize::Large, LauncherSize::ExtraLarge] {
        assert_eq!(parse_size(size_label(s)), s);
    }
    assert_eq!(parse_size("ExtraLarge"), LauncherSize::Medium);
    assert_eq!(parse_size("Large "), LauncherSize::Medium);
}

#[test]
fn placement_labels_read_back() {
    assert_eq!(placement_label(LauncherPlacement::Center), "Center");
    assert_eq!(placement_label(LauncherPlacement::RaisedCenter), "Above Center");
    assert_eq!(placement_label(LauncherPlacement::Custom), "Above Center");
    assert_eq!(parse_placement("Center"), LauncherPlacement::Center);
    assert_eq!(parse_placement("Above Center"), LauncherPlacement::RaisedCenter);
    assert_eq!(parse_placement("center"), LauncherPlacement::RaisedCenter);
}
