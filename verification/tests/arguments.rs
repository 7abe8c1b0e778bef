use gameoflife::arguments::{
    check_dimension, check_file_name, check_iterations, check_state, format_path,
    gif_field_size, gif_output_path, resolve_settings, str_equal, table_from_counts, Algorithm,
    SettingsError,
};
use gameoflife::gameoflife::NeighborRule;
use std::str::FromStr;

#[test]
fn algorithm_names_ignore_case() {
    assert_eq!(Algorithm::parse("STD"), Ok(Algorithm::Std));
    assert_eq!(Algorithm::parse("Standard"), Ok(Algorithm::Std));
    assert_eq!(Algorithm::parse("conv"), Ok(Algorithm::Conv));
    assert_eq!(Algorithm::parse("CONVOLUTION"), Ok(Algorithm::Conv));
    assert_eq!(Algorithm::parse("fft"), Err(()));
    assert_eq!(Algorithm::from_str("Conv"), Ok(Algorithm::Conv));
    assert_eq!(Algorithm::from_lowercase("Std"), None);
    assert_eq!(Algorithm::Std.name(), "standard");
    assert_eq!(Algorithm::Conv.name(), "convolution");
}

#[test]
fn neighbor_rule_names_ignore_case() {
    assert_eq!(NeighborRule::parse("Moore"), Ok(NeighborRule::Moore));
    assert_eq!(NeighborRule::parse("VONNEUMANN"), Ok(NeighborRule::VonNeumann));
    assert_eq!(NeighborRule::parse("hex"), Err(()));
    assert_eq!(NeighborRule::from_str("vonneumann"), Ok(NeighborRule::VonNeumann));
    assert_eq!(NeighborRule::Moore.name(), "Moore");
    assert_eq!(NeighborRule::VonNeumann.name(), "VonNeumann");
}

#[test]
fn command_line_defaults() {
    let s = resolve_settings(None, None, None, None, None).ok().unwrap();
    assert_eq!(s.algorithm, Algorithm::Conv);
    assert_eq!(s.rule.neighbor(), NeighborRule::Moore);
    assert_eq!(s.rule.state(), 1);
    assert_eq!(s.iterations, 10);
    assert_eq!(s.time_per_iteration_ms, 500);
    assert_eq!(gif_field_size(None, None), (10, 10));
    assert_eq!(gif_field_size(Some(4), None), (4, 10));
}

#[test]
fn command_line_choices() {
    let s = resolve_settings(Some("Std"), Some("vonNeumann"), Some(4), Some(3), Some(120))
        .ok()
        .unwrap();
    assert_eq!(s.algorithm, Algorithm::Std);
    assert_eq!(s.rule.neighbor(), NeighborRule::VonNeumann);
    assert_eq!(s.rule.state(), 4);
    assert_eq!(s.iterations, 3);
    assert_eq!(s.time_per_iteration_ms, 120);
}

#[test]
fn command_line_errors() {
    assert!(matches!(
        resolve_settings(Some("fast"), None, None, None, None),
        Err(SettingsError::InvalidAlgorithm)
    ));
    assert!(matches!(
        resolve_settings(Some("fast"), Some("hex"), None, None, None),
        Err(SettingsError::InvalidAlgorithm)
    ));
    assert!(matches!(
        resolve_settings(Some("conv"), Some("hex"), None, None, None),
        Err(SettingsError::InvalidNeighbor)
    ));
    assert!(matches!(
        resolve_settings(None, None, Some(0), None, None),
        Err(SettingsError::InvalidState)
    ));
    assert!(matches!(
        resolve_settings(None, Some("hex"), Some(0), None, None),
        Err(SettingsError::InvalidNeighbor)
    ));
}

#[test]
fn dialogue_checks() {
    assert_eq!(check_iterations(0), Some("Iteration number has to be greater than 0"));
    assert_eq!(check_iterations(1), None);
    assert_eq!(check_dimension(0), Some("Has to be greater than 0"));
    assert_eq!(check_dimension(30), None);
    assert_eq!(check_state(0), Some("Has to be greater than 0"));
    assert_eq!(check_state(2), None);
}

#[test]
fn tables_from_neighbor_counts() {
    assert_eq!(
        table_from_counts(&vec![2, 3]),
        [false, false, true, true, false, false, false, false, false]
    );
    assert_eq!(table_from_counts(&vec![]), [false; 9]);
    assert_eq!(
        table_from_counts(&vec![8, 0, 8]),
        [true, false, false, false, false, false, false, false, true]
    );
}

#[test]
fn file_names() {
    assert_eq!(check_file_name("life.gif"), None);
    assert_eq!(check_file_name("life"), None);
    assert_eq!(
        check_file_name("life.png"),
        Some("Field must be saved as a \".gif\" file")
    );
    assert_eq!(format_path("out"), "out.gif");
    assert_eq!(format_path("out.png"), "out.gif");
    assert_eq!(format_path("dir/out.gif"), "dir/out.gif");
    assert_eq!(gif_output_path("out"), Some("out.gif".to_string()));
    assert_eq!(gif_output_path("dir/out.gif"), Some("dir/out.gif".to_string()));
    assert_eq!(gif_output_path("out.png"), None);
}

#[test]
fn strings_compare_by_characters() {
    assert!(str_equal("▒▒", "▒▒"));
    assert!(!str_equal("ab", "abc"));
    assert!(!str_equal("ab", "ac"));
    assert!(str_equal("", ""));
}

#[test]
fn shown_names_read_back() {
    for a in [Algorithm::Std, Algorithm::Conv] {
        assert_eq!(Algorithm::from_str(a.name()), Ok(a));
        assert_eq!(Algorithm::from_str(&a.name().to_uppercase()), Ok(a));
    }
    for n in [NeighborRule::Moore, NeighborRule::VonNeumann] {
        assert_eq!(NeighborRule::from_str(n.name()), Ok(n));
        assert_eq!(NeighborRule::from_str(&n.name().to_uppercase()), Ok(n));
    }
}
