use pixelate::config::{
    MSG_CUSTOM_PALETTE, MSG_DIMENSIONS, MSG_GENERATION, MSG_HEIGHT, MSG_WIDTH,
};
use pixelate::Config;

#[test]
fn default_config_has_the_documented_values() {
    let config = Config::default();
    assert_eq!(config.number_of_colors, Some(8));
    assert_eq!(config.sample_factor, Some(10));
    assert_eq!(config.desired_width, Some(32));
    assert_eq!(config.desired_height, Some(32));
    assert!(!config.uniform_scale_by_width);
    assert!(!config.uniform_scale_by_height);
    assert!(!config.use_custom_palette);
    assert!(config.custom_palette.is_empty());
    assert!(config.is_valid());
    assert!(config.validate().is_empty());
}

#[test]
fn missing_generation_settings_are_reported() {
    let mut config = Config::default();
    config.number_of_colors = None;
    assert_eq!(config.validate(), vec![MSG_GENERATION.to_string()]);
    assert!(!config.is_valid());
    let mut config = Config::default();
    config.sample_factor = None;
    assert_eq!(config.validate(), vec![MSG_GENERATION.to_string()]);
}

#[test]
fn generation_settings_are_not_needed_with_a_custom_palette() {
    let mut config = Config::default();
    config.number_of_colors = None;
    config.sample_factor = None;
    config.use_custom_palette = true;
    config.custom_palette = vec![(0, 0, 0)];
    assert!(config.is_valid());
}

#[test]
fn empty_custom_palette_is_reported() {
    let mut config = Config::default();
    config.use_custom_palette = true;
    assert_eq!(config.validate(), vec![MSG_CUSTOM_PALETTE.to_string()]);
    assert_eq!(
        MSG_CUSTOM_PALETTE,
        "Warning: invalid configuration: custom_palette is empty."
    );
}

#[test]
fn missing_dimensions_are_reported_outside_the_uniform_modes() {
    let mut config = Config::default();
    config.desired_height = None;
    assert_eq!(config.validate(), vec![MSG_DIMENSIONS.to_string()]);
    let mut config = Config::default();
    config.desired_width = None;
    assert_eq!(config.validate(), vec![MSG_DIMENSIONS.to_string()]);
}

#[test]
fn a_uniform_mode_needs_only_its_own_dimension() {
    let mut config = Config::default();
    config.uniform_scale_by_width = true;
    config.desired_height = None;
    assert!(config.is_valid());
    config.desired_width = None;
    assert_eq!(config.validate(), vec![MSG_WIDTH.to_string()]);

    let mut config = Config::default();
    config.uniform_scale_by_height = true;
    config.desired_width = None;
    assert!(config.is_valid());
    config.desired_height = None;
    assert_eq!(config.validate(), vec![MSG_HEIGHT.to_string()]);
}

#[test]
fn warnings_come_in_the_order_of_the_rules() {
    let config = Config {
        number_of_colors: None,
        sample_factor: None,
        desired_width: None,
        desired_height: None,
        uniform_scale_by_width: true,
        uniform_scale_by_height: true,
        use_custom_palette: false,
        custom_palette: vec![],
    };
    assert_eq!(
        config.validate(),
        vec![MSG_GENERATION.to_string(), MSG_WIDTH.to_string(), MSG_HEIGHT.to_string()]
    );
    let config = Config {
        number_of_colors: None,
        sample_factor: None,
        desired_width: None,
        desired_height: None,
        uniform_scale_by_width: false,
        uniform_scale_by_height: false,
        use_custom_palette: true,
        custom_palette: vec![],
    };
    assert_eq!(
        config.validate(),
        vec![MSG_CUSTOM_PALETTE.to_string(), MSG_DIMENSIONS.to_string()]
    );
}
