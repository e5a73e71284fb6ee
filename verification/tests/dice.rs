use broguelike::dice::parse_dice_string;

#[test]
fn plain_dice_strings_parse() {
    assert_eq!(parse_dice_string("1d4"), (1, 4, 0));
    assert_eq!(parse_dice_string("3d6"), (3, 6, 0));
    assert_eq!(parse_dice_string("10d12"), (10, 12, 0));
}

#[test]
fn bonus_dice_strings_parse() {
    assert_eq!(parse_dice_string("1d8+2"), (1, 8, 2));
    assert_eq!(parse_dice_string("3d6+1"), (3, 6, 1));
    assert_eq!(parse_dice_string("2d10-4"), (2, 10, -4));
}

#[test]
fn embedded_dice_strings_parse() {
    // the expression is found anywhere in the string
    assert_eq!(parse_dice_string("x3d6"), (3, 6, 0));
    assert_eq!(parse_dice_string("3d6+2x"), (3, 6, 2));
    assert_eq!(parse_dice_string("attack 2d8-1!"), (2, 8, -1));
    // a dangling sign is not a bonus group
    assert_eq!(parse_dice_string("3d6+"), (3, 6, 0));
    assert_eq!(parse_dice_string("3d6*2"), (3, 6, 0));
    // of several expressions the leftmost wins
    assert_eq!(parse_dice_string("1d4 2d6"), (1, 4, 0));
}

#[test]
fn malformed_dice_strings_default() {
    assert_eq!(parse_dice_string(""), (1, 4, 0));
    assert_eq!(parse_dice_string("d6"), (1, 4, 0));
    assert_eq!(parse_dice_string("3d"), (1, 4, 0));
    assert_eq!(parse_dice_string("3x6"), (1, 4, 0));
    assert_eq!(parse_dice_string("axe"), (1, 4, 0));
    assert_eq!(parse_dice_string("12"), (1, 4, 0));
}
