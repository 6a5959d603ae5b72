use rcxtool::argparse::{parse_args, Args, ArgsError, BrickType, PoweredUpMode, RcxMode};

fn words(s: &str) -> Vec<String> {
    s.split_whitespace().map(|w| w.to_string()).collect()
}

#[test]
fn program_command_reads_slot_and_file() {
    assert_eq!(
        parse_args(&words("rcx program 3 prog.rcx")),
        Ok(Args {
            brick_type: BrickType::Rcx { mode: RcxMode::Program { slot: 3, file: "prog.rcx".to_string() } }
        })
    );
    assert_eq!(
        parse_args(&words("rcx program 255 a")).unwrap().brick_type,
        BrickType::Rcx { mode: RcxMode::Program { slot: 255, file: "a".to_string() } }
    );
}

#[test]
fn slot_must_be_a_small_decimal() {
    assert_eq!(parse_args(&words("rcx program 256 a")), Err(ArgsError::InvalidSlot));
    assert_eq!(parse_args(&words("rcx program x1 a")), Err(ArgsError::InvalidSlot));
    assert_eq!(parse_args(&words("rcx program 99999999999999999999 a")), Err(ArgsError::InvalidSlot));
}

#[test]
fn other_commands_parse() {
    assert_eq!(parse_args(&words("rcx ping")).unwrap().brick_type, BrickType::Rcx { mode: RcxMode::Ping });
    assert_eq!(parse_args(&words("rcx version")).unwrap().brick_type, BrickType::Rcx { mode: RcxMode::Version });
    assert_eq!(
        parse_args(&words("rcx compile a.nqc")).unwrap().brick_type,
        BrickType::Rcx { mode: RcxMode::Compile { file: "a.nqc".to_string() } }
    );
    assert_eq!(
        parse_args(&words("rcx disasm a.rcx")).unwrap().brick_type,
        BrickType::Rcx { mode: RcxMode::Disasm { file: "a.rcx".to_string() } }
    );
    assert_eq!(parse_args(&words("pup scan")).unwrap().brick_type, BrickType::Pup { mode: PoweredUpMode::Scan });
    assert_eq!(parse_args(&words("pup flash")).unwrap().brick_type, BrickType::Pup { mode: PoweredUpMode::Flash });
    assert_eq!(parse_args(&words("ev3")).unwrap().brick_type, BrickType::Ev3);
    assert_eq!(parse_args(&words("nxt")).unwrap().brick_type, BrickType::Nxt);
}

#[test]
fn malformed_command_lines_are_rejected() {
    assert_eq!(parse_args(&words("")), Err(ArgsError::MissingCommand));
    assert_eq!(parse_args(&words("rcx")), Err(ArgsError::MissingCommand));
    assert_eq!(parse_args(&words("pup")), Err(ArgsError::MissingCommand));
    assert_eq!(parse_args(&words("spike")), Err(ArgsError::UnknownCommand));
    assert_eq!(parse_args(&words("pup fly")), Err(ArgsError::UnknownCommand));
    assert_eq!(parse_args(&words("rcx fly")), Err(ArgsError::UnknownCommand));
    assert_eq!(parse_args(&words("rcx compile")), Err(ArgsError::MissingArgument));
    assert_eq!(parse_args(&words("rcx program 1")), Err(ArgsError::MissingArgument));
    assert_eq!(parse_args(&words("ev3 extra")), Err(ArgsError::UnexpectedArgument));
    assert_eq!(parse_args(&words("rcx ping extra")), Err(ArgsError::UnexpectedArgument));
    assert_eq!(parse_args(&words("rcx program 1 a b")), Err(ArgsError::UnexpectedArgument));
}
