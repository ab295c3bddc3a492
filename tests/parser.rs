use vm_translator::ast::Command::{Add, Goto, IfGoto, Label, Neg, Pop, Push};
use vm_translator::ast::Segment::{Argument, Constant, Local, Pointer, Static, Temp, That};
use vm_translator::parser::{branching, parse, pop, prim, push, ParseError};

#[test]
fn test_push() {
    assert_eq!(push("push  pointer  32"), Ok(("", Push(Pointer, 32))));
}

#[test]
fn test_prim() {
    assert_eq!(prim("neg"), Ok(("", Neg)));
}

#[test]
fn parse_push_with_wide_spacing() {
    assert_eq!(parse("push  pointer  32"), Ok(vec![Push(Pointer, 32)]));
}

#[test]
fn prefix_readers_leave_the_rest() {
    assert_eq!(push("push constant 7 x"), Ok((" x", Push(Constant, 7))));
    assert_eq!(pop("pop that 2"), Ok(("", Pop(That, 2))));
    assert_eq!(prim("addx"), Ok(("x", Add)));
    assert_eq!(branching("goto END"), Ok(("", Goto("END".to_string()))));
    assert_eq!(push("pop local 1"), Err(ParseError::Invalid("pop local 1".to_string())));
}

#[test]
fn pop_constant_is_rejected() {
    assert_eq!(
        parse("pop constant 3"),
        Err(ParseError::Invalid("pop constant 3".to_string()))
    );
    assert_eq!(pop("pop constant 3"), Err(ParseError::Invalid("pop constant 3".to_string())));
}

#[test]
fn trailing_text_is_extra_content() {
    assert_eq!(
        parse("add extra"),
        Err(ParseError::ExtraContent("add extra".to_string(), " extra".to_string()))
    );
    assert_eq!(
        parse("label a-b"),
        Err(ParseError::ExtraContent("label a-b".to_string(), "-b".to_string()))
    );
}

#[test]
fn comments_blank_lines_and_whitespace() {
    let src = "// header\n\n  push local 2 // load\r\n\tadd\t\r\nif-goto LOOP.1\n   \n";
    assert_eq!(
        parse(src),
        Ok(vec![Push(Local, 2), Add, IfGoto("LOOP.1".to_string())])
    );
}

#[test]
fn tabs_separate_arguments() {
    assert_eq!(parse("pop\targument\t4"), Ok(vec![Pop(Argument, 4)]));
}

#[test]
fn numbers_must_fit_sixteen_bits() {
    assert_eq!(parse("push constant 65535"), Ok(vec![Push(Constant, 65535)]));
    assert_eq!(parse("push temp 007"), Ok(vec![Push(Temp, 7)]));
    assert_eq!(
        parse("push constant 65536"),
        Err(ParseError::Invalid("push constant 65536".to_string()))
    );
}

#[test]
fn symbols_do_not_start_with_a_digit() {
    assert_eq!(parse("label 1x"), Err(ParseError::Invalid("label 1x".to_string())));
    assert_eq!(
        parse("label a_1:$.b"),
        Ok(vec![Label("a_1:$.b".to_string())])
    );
}

#[test]
fn first_bad_line_wins() {
    assert_eq!(
        parse("push static 1\nfoo\nadd extra"),
        Err(ParseError::Invalid("foo".to_string()))
    );
    assert_eq!(parse("push static 1"), Ok(vec![Push(Static, 1)]));
}

#[test]
fn empty_text_has_no_commands() {
    assert_eq!(parse(""), Ok(vec![]));
    assert_eq!(parse("// only a comment\n\n"), Ok(vec![]));
}
