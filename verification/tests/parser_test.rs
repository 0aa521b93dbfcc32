use mirage::{split_command_vector, ChainCommands, OpKind, ParseError, Rotation};

fn tokens(chain: &str) -> Vec<String> {
    chain.split_whitespace().map(String::from).collect()
}

#[test]
fn empty_token_stream_is_an_empty_chain() {
    assert_eq!(split_command_vector(&Vec::new()), Ok(Vec::new()));
}

#[test]
fn delimiters_alone_are_an_empty_chain() {
    assert_eq!(split_command_vector(&tokens("/ / /")), Ok(Vec::new()));
}

#[test]
fn parse_is_deterministic_across_calls() {
    let commands = tokens("blur / brighten 10 / rotate 270");
    let first = split_command_vector(&commands);
    let second = split_command_vector(&commands);
    assert_eq!(first, second);
}

#[test]
fn repeated_and_boundary_delimiters_are_ignored() {
    let plain = split_command_vector(&tokens("blur / rotate 90"));
    assert_eq!(split_command_vector(&tokens("blur / / rotate 90")), plain);
    assert_eq!(split_command_vector(&tokens("/ blur / rotate 90 /")), plain);
    let expected = vec![
        ChainCommands::Blur {},
        ChainCommands::Rotate { rotation: Rotation::Ninety },
    ];
    assert_eq!(plain, Ok(expected));
}

#[test]
fn rotate_with_no_operand_fails_with_its_usage_hint() {
    let result = split_command_vector(&tokens("rotate"));
    assert_eq!(result, Err(ParseError::WrongArity { op: OpKind::Rotate }));
    assert_eq!(result.unwrap_err().message(), "Rotate <rotation (90, 180, 270)>");
}

#[test]
fn crop_with_three_operands_fails_with_its_usage_hint() {
    let result = split_command_vector(&tokens("crop 1 2 3"));
    assert_eq!(result, Err(ParseError::WrongArity { op: OpKind::Crop }));
    assert_eq!(result.unwrap_err().message(), "Crop <x> <y> <width> <height>");
}

#[test]
fn rotate_with_an_extra_operand_fails_on_arity() {
    let result = split_command_vector(&tokens("rotate 90 extra"));
    assert_eq!(result, Err(ParseError::WrongArity { op: OpKind::Rotate }));
}

#[test]
fn rotation_out_of_domain_fails_distinctly_from_arity() {
    let result = split_command_vector(&tokens("rotate 45"));
    assert_eq!(result, Err(ParseError::InvalidRotation));
    assert_ne!(result, Err(ParseError::WrongArity { op: OpKind::Rotate }));
    assert_eq!(result.unwrap_err().message(), "Invalid value for rotation");
}

#[test]
fn unknown_operation_name_fails_globally() {
    let result = split_command_vector(&tokens("blur / flip"));
    assert_eq!(result, Err(ParseError::UnknownOperation));
}

#[test]
fn zero_operand_operations_reject_extra_operands() {
    let result = split_command_vector(&tokens("blur 2.5"));
    assert_eq!(result, Err(ParseError::WrongArity { op: OpKind::Blur }));
    assert_eq!(result.unwrap_err().message(), "Blur <no operands>");
}

#[test]
fn brighten_takes_signed_operands() {
    assert_eq!(
        split_command_vector(&tokens("brighten -10")),
        Ok(vec![ChainCommands::Brighten { brightness: -10 }])
    );
    assert_eq!(
        split_command_vector(&tokens("brighten +25")),
        Ok(vec![ChainCommands::Brighten { brightness: 25 }])
    );
}

#[test]
fn brighten_rejects_a_word_operand() {
    let result = split_command_vector(&tokens("brighten much"));
    assert_eq!(result, Err(ParseError::NotANumber { op: OpKind::Brighten }));
    assert_eq!(result.unwrap_err().message(), "Brighten: argument must be a number");
}

#[test]
fn crop_takes_four_unsigned_operands() {
    assert_eq!(
        split_command_vector(&tokens("crop 1 2 30 40")),
        Ok(vec![ChainCommands::Crop { x: 1, y: 2, width: 30, height: 40 }])
    );
}

#[test]
fn crop_rejects_a_negative_operand() {
    let result = split_command_vector(&tokens("crop 1 -2 30 40"));
    assert_eq!(result, Err(ParseError::NotANumber { op: OpKind::Crop }));
}

#[test]
fn square_takes_three_byte_operands() {
    assert_eq!(
        split_command_vector(&tokens("square 10 20 30")),
        Ok(vec![ChainCommands::Square { red: 10, green: 20, blue: 30 }])
    );
}

#[test]
fn square_rejects_an_operand_over_byte_range() {
    let result = split_command_vector(&tokens("square 10 20 256"));
    assert_eq!(result, Err(ParseError::NotANumber { op: OpKind::Square }));
}

#[test]
fn a_full_chain_parses_in_textual_order() {
    let commands = tokens(
        "blur / brighten 10 / crop 0 0 10 10 / rotate 180 / invert / grayscale / fractal / square 1 2 3",
    );
    let expected = vec![
        ChainCommands::Blur {},
        ChainCommands::Brighten { brightness: 10 },
        ChainCommands::Crop { x: 0, y: 0, width: 10, height: 10 },
        ChainCommands::Rotate { rotation: Rotation::OneEighty },
        ChainCommands::Invert {},
        ChainCommands::Grayscale {},
        ChainCommands::Fractal {},
        ChainCommands::Square { red: 1, green: 2, blue: 3 },
    ];
    assert_eq!(split_command_vector(&commands), Ok(expected));
}

#[test]
fn the_first_malformed_group_aborts_the_parse() {
    let result = split_command_vector(&tokens("blur / rotate 45 / crop 1 2 3"));
    assert_eq!(result, Err(ParseError::InvalidRotation));
}
