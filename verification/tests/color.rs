use mojiq::parse_color;

#[test]
fn hex_red() {
    assert_eq!(parse_color(b"#ff0000"), (255, 0, 0));
}

#[test]
fn hex_mixed_case() {
    assert_eq!(parse_color(b"#0AfF10"), (10, 255, 16));
}

#[test]
fn rgb_with_spaces() {
    assert_eq!(parse_color(b"rgb(10, 20, 30)"), (10, 20, 30));
}

#[test]
fn rgb_tight() {
    assert_eq!(parse_color(b"rgb(1,2,3)"), (1, 2, 3));
}

#[test]
fn not_a_color_is_black() {
    assert_eq!(parse_color(b"notacolor"), (0, 0, 0));
}

#[test]
fn empty_is_black() {
    assert_eq!(parse_color(b""), (0, 0, 0));
}

#[test]
fn hex_malformed_channel_defaults_alone() {
    // The malformed first channel defaults to 0; the rest parse normally.
    assert_eq!(parse_color(b"#zz0000"), (0, 0, 0));
    assert_eq!(parse_color(b"#zzff10"), (0, 255, 16));
    assert_eq!(parse_color(b"#ffzz10"), (255, 0, 16));
}

#[test]
fn hex_channel_needs_two_hex_digits() {
    // A sign is not a hex digit: the channel defaults to 0.
    assert_eq!(parse_color(b"#+f0000"), (0, 0, 0));
    assert_eq!(parse_color(b"#00+f00"), (0, 0, 0));
}

#[test]
fn hex_wrong_length_is_black() {
    assert_eq!(parse_color(b"#ff000"), (0, 0, 0));
    assert_eq!(parse_color(b"#ff00000"), (0, 0, 0));
}

#[test]
fn rgb_channel_out_of_range_defaults() {
    assert_eq!(parse_color(b"rgb(300, 20, 30)"), (0, 20, 30));
}

#[test]
fn rgb_negative_channel_defaults() {
    assert_eq!(parse_color(b"rgb(-1, 20, 30)"), (0, 20, 30));
}

#[test]
fn rgb_wrong_arity_is_black() {
    assert_eq!(parse_color(b"rgb(1,2)"), (0, 0, 0));
    assert_eq!(parse_color(b"rgb(1,2,3,4)"), (0, 0, 0));
}

#[test]
fn rgb_plus_sign_parses() {
    // u8 decimal parsing accepts a leading plus.
    assert_eq!(parse_color(b"rgb(+10, 20, 30)"), (10, 20, 30));
}

#[test]
fn rgb_repeated_prefix_and_parens_strip() {
    // Prefix stripping removes every leading "rgb(" and every trailing ")".
    assert_eq!(parse_color(b"rgb(rgb(1,2,3))"), (1, 2, 3));
}
