use tile_download_tool::tile_list_format::{
    compile_tile_format, line_pattern_of, LineCaptures, TileFormatError,
};

#[test]
fn letters_become_named_groups_of_digits() {
    assert_eq!(line_pattern_of("z/x/y"), r"^(?<z>\d+)/(?<x>\d+)/(?<y>\d+)$");
    assert_eq!(line_pattern_of("z x y"), r"^(?<z>\d+) (?<x>\d+) (?<y>\d+)$");
    assert_eq!(line_pattern_of(""), "^$");
    assert_eq!(line_pattern_of("tile"), "^tile$");
    assert_eq!(line_pattern_of("zz"), r"^(?<z>\d+)(?<z>\d+)$");
}

#[test]
fn captures_hold_the_three_texts() {
    let format = compile_tile_format("z/x/y").unwrap();
    assert_eq!(
        format.captures("12/3638/1612"),
        Some(LineCaptures {
            z: Some("12".to_string()),
            x: Some("3638".to_string()),
            y: Some("1612".to_string()),
        })
    );
    assert_eq!(format.captures("12/3638"), None);
    assert_eq!(format.captures("12/3638/1612/"), None);
    assert_eq!(format.captures(" 12/3638/1612"), None);
    assert_eq!(format.captures("a/b/c"), None);
    assert_eq!(format.captures(""), None);
}

#[test]
fn a_format_may_order_the_letters_as_it_likes() {
    let format = compile_tile_format("y,x@z").unwrap();
    assert_eq!(
        format.captures("5,4@3"),
        Some(LineCaptures {
            z: Some("3".to_string()),
            x: Some("4".to_string()),
            y: Some("5".to_string()),
        })
    );
}

#[test]
fn a_group_that_the_format_lacks_is_missing() {
    let format = compile_tile_format("z/x").unwrap();
    assert_eq!(
        format.captures("3/4"),
        Some(LineCaptures { z: Some("3".to_string()), x: Some("4".to_string()), y: None })
    );
}

#[test]
fn the_rest_of_a_format_is_a_regular_expression() {
    let format = compile_tile_format(r"z\s+x\s+y").unwrap();
    assert!(format.captures("1 \t 0   1").is_some());
    assert!(format.captures("1,0,1").is_none());
}

#[test]
fn a_format_that_is_no_regular_expression_is_refused() {
    assert!(matches!(compile_tile_format("(z/x/y"), Err(TileFormatError::Syntax(_))));
    // the same letter twice gives two groups of one name
    assert!(matches!(compile_tile_format("z/z/y"), Err(TileFormatError::Syntax(_))));
    assert!(compile_tile_format("z/x/y").is_ok());
}
