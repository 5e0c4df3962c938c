use rivus::output_layer::{
    rvs_eq_ignore_ascii_case, rvs_layer_identity, rvs_output_layer_first_step, rvs_output_layer_next_step,
    LayerIdentity, OutputLayerStep,
};

#[test]
fn test_names_equal_up_to_ascii_case() {
    assert!(rvs_eq_ignore_ascii_case(".caps", ".CAPS"));
    assert!(rvs_eq_ignore_ascii_case("Caps", "cAPS"));
    assert!(!rvs_eq_ignore_ascii_case("caps", "cap"));
    assert!(!rvs_eq_ignore_ascii_case("caps", "capz"));
    assert!(!rvs_eq_ignore_ascii_case("é", "É"));
}

#[test]
fn test_alias_of_the_caps_directory_is_refused() {
    let step = rvs_output_layer_first_step(false, Some(".CAPS"), Some(".caps"), true, true, Some("std.caps"));
    assert_eq!(step, OutputLayerStep::AliasesCapsDir);
    let step = rvs_output_layer_first_step(false, Some(".CAPS"), Some(".caps"), false, true, Some("std.caps"));
    assert_eq!(step, OutputLayerStep::AskParentIsDir);
}

#[test]
fn test_without_caps_directory_the_target_decides() {
    let step = rvs_output_layer_first_step(true, Some(".caps"), Some(".caps"), true, false, Some("std.caps"));
    assert_eq!(step, OutputLayerStep::Layer(Some("std.caps".to_string())));
    let step = rvs_output_layer_first_step(false, Some("out"), Some(".caps"), true, false, Some("std.caps"));
    assert_eq!(step, OutputLayerStep::Layer(None));
}

#[test]
fn test_existing_caps_directory_asks_in_order() {
    let s = rvs_output_layer_next_step(OutputLayerStep::AskParentIsDir, true, Some("std.caps"));
    assert_eq!(s, OutputLayerStep::AskParentIsCapsDir);
    let s = rvs_output_layer_next_step(OutputLayerStep::AskParentIsDir, false, Some("std.caps"));
    assert_eq!(s, OutputLayerStep::Layer(None));
    let s = rvs_output_layer_next_step(OutputLayerStep::AskParentIsCapsDir, false, Some("std.caps"));
    assert_eq!(s, OutputLayerStep::Layer(None));
    let s = rvs_output_layer_next_step(OutputLayerStep::AskParentIsCapsDir, true, Some("std.caps"));
    assert_eq!(s, OutputLayerStep::AskOutputIsFile);
    let s = rvs_output_layer_next_step(OutputLayerStep::AskOutputIsFile, false, Some("std.caps"));
    assert_eq!(s, OutputLayerStep::Layer(Some("std.caps".to_string())));
    let s = rvs_output_layer_next_step(OutputLayerStep::AskOutputIsFile, true, Some("std.caps"));
    assert_eq!(s, OutputLayerStep::ListIdentities);
}

#[test]
fn test_identity_needs_exactly_one_match() {
    assert_eq!(rvs_layer_identity(1), LayerIdentity::One);
    assert_eq!(rvs_layer_identity(0), LayerIdentity::NoMatch);
    assert_eq!(rvs_layer_identity(2), LayerIdentity::Several);
}
