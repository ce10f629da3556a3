use bricklayer::num::Dec;
use bricklayer::transform::{process, GcodeError};

fn one() -> Dec {
    Dec::parse("1.0").unwrap()
}

#[test]
fn scenario_two_internal_blocks() {
    let input = "; layer_height = 0.2\nG1 Z0.2\n;TYPE:Perimeter\nG1 X1 Y1 E1.0\nG1 X2 Y2 E1.0\nG1 X3 Y3 F1200\nG1 X4 Y4 E2.0";
    let out = process(input, &one()).unwrap();
    let expected = "; layer_height = 0.2\nG1 Z0.2\n;TYPE:Perimeter\nG1 Z0.300 ; Shifted Z for block #1\nG1 X1 Y1 E1.00000 ; Adjusted E for extrusionMultiplier, block #1\nG1 X2 Y2 E1.00000 ; Adjusted E for extrusionMultiplier, block #1\nG1 X3 Y3 F1200\nG1 Z0.200 ; Reset Z for block #2\nG1 X4 Y4 E2.0";
    assert_eq!(out, expected);
}

#[test]
fn first_layer_rule() {
    let input = "; layer_height = 0.2\nG1 Z0.0\n;TYPE:Inner wall\nG1 X1 Y1 E2.0";
    let out = process(input, &one()).unwrap();
    let expected = "; layer_height = 0.2\nG1 Z0.0\n;TYPE:Inner wall\nG1 Z0.100 ; Shifted Z for block #1\nG1 X1 Y1 E3.00000 ; Adjusted E for first layer, block #1";
    assert_eq!(out, expected);
}

#[test]
fn last_layer_rule() {
    let input = "; layer_height = 0.2\nG1 Z0.2\n;TYPE:Perimeter\nG1 X0 Y0 E1.0\nG1 Z0.4";
    let out = process(input, &one()).unwrap();
    let expected = "; layer_height = 0.2\nG1 Z0.2\n;TYPE:Perimeter\nG1 Z0.300 ; Shifted Z for block #1\nG1 X0 Y0 E0.50000 ; Adjusted E for last layer, block #1\nG1 Z0.4";
    assert_eq!(out, expected);
}

#[test]
fn external_only_round_trip() {
    let input = "; layer_height = 0.2\nG1 Z0.2\n;TYPE:External perimeter\nG1 X1 Y1 E1.0\nG1 X2 Y2 E2.0\nM104 S200";
    let out = process(input, &one()).unwrap();
    assert_eq!(out, input);
}

#[test]
fn other_wall_types_untouched() {
    let input = "; layer_height = 0.2\nG1 Z0.2\n;TYPE:Ironing\nG1 X1 Y1 E1.0\n;TYPE:Outer wall\nG1 X2 Y2 E2.0";
    let out = process(input, &one()).unwrap();
    assert_eq!(out, input);
}

#[test]
fn unmatched_lines_pass_through() {
    let input = "; layer_height = 0.2\n; random comment\nM420 S1\nG90";
    let out = process(input, &one()).unwrap();
    assert_eq!(out, input);
}

#[test]
fn missing_layer_height() {
    assert_eq!(process("G1 X0 Y0\nG1 Z0.2", &one()), Err(GcodeError::MissingLayerHeight));
}

#[test]
fn invalid_layer_height_text() {
    assert_eq!(
        process("; layer_height = abc\nG1 Z0.2", &one()),
        Err(GcodeError::InvalidLayerHeight)
    );
}

#[test]
fn zero_layer_height_accepted() {
    let input = "; layer_height = 0\n;TYPE:Perimeter\nG1 X0 Y0 E1.0";
    let out = process(input, &one()).unwrap();
    let expected = "; layer_height = 0\n;TYPE:Perimeter\nG1 Z0.000 ; Shifted Z for block #1\nG1 X0 Y0 E1.50000 ; Adjusted E for first layer, block #1";
    assert_eq!(out, expected);
}

#[test]
fn negative_layer_height_accepted() {
    let input = "; layer_height = -0.2\n;TYPE:Perimeter\nG1 X0 Y0 E1.0";
    let out = process(input, &one()).unwrap();
    let expected = "; layer_height = -0.2\n;TYPE:Perimeter\nG1 Z-0.100 ; Shifted Z for block #1\nG1 X0 Y0 E1.50000 ; Adjusted E for first layer, block #1";
    assert_eq!(out, expected);
}

#[test]
fn unparsable_extrusion_left_untouched() {
    let input = "; layer_height = 0.2\n;TYPE:Perimeter\nG1 X1 Y1 E1..2";
    let out = process(input, &one()).unwrap();
    let expected = "; layer_height = 0.2\n;TYPE:Perimeter\nG1 Z0.100 ; Shifted Z for block #1\nG1 X1 Y1 E1..2";
    assert_eq!(out, expected);
}

#[test]
fn trailing_newline_dropped_by_join() {
    let input = "; layer_height = 0.2\nG90\n";
    let out = process(input, &one()).unwrap();
    assert_eq!(out, "; layer_height = 0.2\nG90");
}

#[test]
fn carriage_returns_stripped() {
    let input = "; layer_height = 0.2\r\nM107\r\nG90";
    let out = process(input, &one()).unwrap();
    assert_eq!(out, "; layer_height = 0.2\nM107\nG90");
}

#[test]
fn configured_multiplier_and_negative_extrusion() {
    let input = "; layer_height = 0.2\nG1 Z0.2\n;TYPE:Perimeter\nG1 X1 Y1 E-1.0";
    let m = Dec::parse("2.5").unwrap();
    let out = process(input, &m).unwrap();
    let expected = "; layer_height = 0.2\nG1 Z0.2\n;TYPE:Perimeter\nG1 Z0.300 ; Shifted Z for block #1\nG1 X1 Y1 E-2.50000 ; Adjusted E for extrusionMultiplier, block #1";
    assert_eq!(out, expected);
}

#[test]
fn rounding_ties_to_even() {
    let input = "; layer_height = 0.2\nG1 Z0.2\n;TYPE:Perimeter\nG1 X1 Y1 E1.000005\nG1 X2 Y2 E1.000015";
    let out = process(input, &one()).unwrap();
    let expected = "; layer_height = 0.2\nG1 Z0.2\n;TYPE:Perimeter\nG1 Z0.300 ; Shifted Z for block #1\nG1 X1 Y1 E1.00000 ; Adjusted E for extrusionMultiplier, block #1\nG1 X2 Y2 E1.00002 ; Adjusted E for extrusionMultiplier, block #1";
    assert_eq!(out, expected);
}

#[test]
fn layer_change_resets_blocks_but_not_block_membership() {
    let input = "; layer_height = 0.2\n;TYPE:Perimeter\nG1 X1 Y1 E1.0\nG1 Z0.2\nG1 X2 Y2 E1.0\nG1 X3 Y3 F1\nG1 X4 Y4 E1.0";
    let out = process(input, &one()).unwrap();
    let expected = "; layer_height = 0.2\n;TYPE:Perimeter\nG1 Z0.100 ; Shifted Z for block #1\nG1 X1 Y1 E1.50000 ; Adjusted E for first layer, block #1\nG1 Z0.2\nG1 X2 Y2 E1.00000 ; Adjusted E for extrusionMultiplier, block #0\nG1 X3 Y3 F1\nG1 Z0.300 ; Shifted Z for block #1\nG1 X4 Y4 E1.00000 ; Adjusted E for extrusionMultiplier, block #1";
    assert_eq!(out, expected);
}

#[test]
fn leftmost_height_field_wins() {
    let input = "; layer_height = 0.2\nG1 Zx Z1.0\n;TYPE:Perimeter\nG1 X0 Y0 E1.0";
    let out = process(input, &one()).unwrap();
    let expected = "; layer_height = 0.2\nG1 Zx Z1.0\n;TYPE:Perimeter\nG1 Z1.100 ; Shifted Z for block #1\nG1 X0 Y0 E1.00000 ; Adjusted E for extrusionMultiplier, block #1";
    assert_eq!(out, expected);
}

#[test]
fn every_extrusion_field_replaced_and_trailing_space_trimmed() {
    let input = "; layer_height = 0.2\n;TYPE:Inner wall\nG1 X1 Y1 E1.0 E2.0 ";
    let out = process(input, &one()).unwrap();
    let expected = "; layer_height = 0.2\n;TYPE:Inner wall\nG1 Z0.100 ; Shifted Z for block #1\nG1 X1 Y1 E1.50000 E1.50000 ; Adjusted E for first layer, block #1";
    assert_eq!(out, expected);
}

#[test]
fn decimal_parse_grammar() {
    assert!(Dec::parse("3.14").is_some());
    assert!(Dec::parse("-3.14").is_some());
    assert!(Dec::parse("5.").is_some());
    assert!(Dec::parse(".5").is_some());
    assert!(Dec::parse("").is_none());
    assert!(Dec::parse("-").is_none());
    assert!(Dec::parse(".").is_none());
    assert!(Dec::parse("1..2").is_none());
    assert!(Dec::parse("1-2").is_none());
    assert!(Dec::parse("1e3").is_none());
    assert!(Dec::parse("0.2").unwrap().is_positive());
    assert!(!Dec::parse("-0.2").unwrap().is_positive());
    assert!(!Dec::parse("0.0").unwrap().is_positive());
}

#[test]
fn negative_height_clamps_layer_to_zero() {
    let input = "; layer_height = 0.2\nG1 Z-1.0\n;TYPE:Perimeter\nG1 X0 Y0 E1.0";
    let out = process(input, &one()).unwrap();
    let expected = "; layer_height = 0.2\nG1 Z-1.0\n;TYPE:Perimeter\nG1 Z-0.900 ; Shifted Z for block #1\nG1 X0 Y0 E1.50000 ; Adjusted E for first layer, block #1";
    assert_eq!(out, expected);
}

#[test]
fn unparsable_height_leaves_state_unchanged() {
    let input = "; layer_height = 0.2\nG1 Zabc\n;TYPE:Perimeter\nG1 X0 Y0 E1.0";
    let out = process(input, &one()).unwrap();
    let expected = "; layer_height = 0.2\nG1 Zabc\n;TYPE:Perimeter\nG1 Z0.100 ; Shifted Z for block #1\nG1 X0 Y0 E1.50000 ; Adjusted E for first layer, block #1";
    assert_eq!(out, expected);
}

#[test]
fn external_marker_takes_priority() {
    let input = "; layer_height = 0.2\nx ;TYPE:Perimeter ;TYPE:Outer wall\nG1 X0 Y0 E1.0";
    let out = process(input, &one()).unwrap();
    assert_eq!(out, input);
}

#[test]
fn unicode_whitespace_trimmed_after_rescale() {
    let input = "; layer_height = 0.2\n;TYPE:Perimeter\nG1 X1 Y1 E1.0\u{a0}\t";
    let out = process(input, &one()).unwrap();
    let expected = "; layer_height = 0.2\n;TYPE:Perimeter\nG1 Z0.100 ; Shifted Z for block #1\nG1 X1 Y1 E1.50000 ; Adjusted E for first layer, block #1";
    assert_eq!(out, expected);
}
