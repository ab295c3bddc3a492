use vm_translator::ast::Command::{self, Add, Goto, Gt, IfGoto, Label, Lt, Not, Pop, Push};
use vm_translator::ast::Segment::{Constant, Local, Pointer, Static, Temp, This};
use vm_translator::translator::{TranslateError, Translator};

fn lines(unit: &str, cmds: Vec<Command>) -> Vec<String> {
    Translator::new(unit).translate(&cmds).unwrap()
}

#[test]
fn push_constant_lines() {
    assert_eq!(
        lines("Foo", vec![Push(Constant, 17)]),
        vec!["// push constant 17", "@17", "D=A", "@SP", "A=M", "M=D", "@SP", "M=M+1"]
    );
}

#[test]
fn push_local_lines() {
    assert_eq!(
        lines("Foo", vec![Push(Local, 3)]),
        vec!["// push local 3", "@LCL", "D=M", "@3", "A=A+D", "D=M", "@SP", "M=M+1", "A=M-1", "M=D"]
    );
}

#[test]
fn pop_this_lines() {
    assert_eq!(
        lines("Foo", vec![Pop(This, 120)]),
        vec![
            "// pop this 120", "@THIS", "D=M", "@120", "D=A+D", "@R13", "M=D", "@SP", "AM=M-1",
            "D=M", "@R13", "A=M", "M=D"
        ]
    );
}

#[test]
fn direct_segments() {
    assert_eq!(
        lines("Foo", vec![Pop(Temp, 3)]),
        vec!["// pop temp 3", "@SP", "AM=M-1", "D=M", "@R8", "M=D"]
    );
    assert_eq!(
        lines("Foo", vec![Push(Pointer, 1)]),
        vec!["// push pointer 1", "@THAT", "D=M", "@SP", "M=M+1", "A=M-1", "M=D"]
    );
    assert_eq!(lines("Foo", vec![Push(Static, 5)])[1], "@Foo.5");
}

#[test]
fn primitives() {
    assert_eq!(lines("Foo", vec![Not]), vec!["// not", "@SP", "A=M-1", "M=!M"]);
    assert_eq!(
        lines("Foo", vec![Add]),
        vec!["// add", "@SP", "AM=M-1", "D=M", "A=A-1", "M=M+D"]
    );
}

#[test]
fn comparisons_draw_fresh_labels() {
    let out = lines("Foo", vec![Command::Eq, Command::Eq, Lt]);
    assert_eq!(out.len(), 51);
    assert_eq!(out[0], "// eq");
    assert_eq!(out[6], "@Foo:CMP_0");
    assert_eq!(out[7], "D;JEQ");
    assert_eq!(out[9], "@Foo:ENDCMP_0");
    assert_eq!(out[11], "(Foo:CMP_0)");
    assert_eq!(out[13], "(Foo:ENDCMP_0)");
    assert_eq!(out[17 + 11], "(Foo:CMP_1)");
    assert_eq!(out[34 + 7], "D;JLT");
    assert_eq!(out[34 + 11], "(Foo:CMP_2)");
}

#[test]
fn counter_carries_over_calls() {
    let mut t = Translator::new("Foo");
    t.translate(&vec![Gt]).unwrap();
    let out = t.translate(&vec![Gt]).unwrap();
    assert_eq!(out[6], "@Foo:CMP_1");
}

#[test]
fn forward_goto_names_the_label() {
    let out = lines("Foo", vec![Goto("END".to_string()), Label("END".to_string())]);
    assert_eq!(out, vec!["// goto END", "@Foo:LABEL_END", "0;JMP", "// label END", "(Foo:LABEL_END)"]);
}

#[test]
fn if_goto_jumps_on_nonzero() {
    assert_eq!(
        lines("Foo", vec![IfGoto("L".to_string())]),
        vec!["// if-goto L", "@SP", "AM=M-1", "D=M", "@Foo:LABEL_L", "D;JNE"]
    );
}

#[test]
fn invalid_pointer_fails_without_output() {
    let mut t = Translator::new("Foo");
    assert_eq!(t.translate(&vec![Push(Pointer, 2)]), Err(TranslateError::InvalidPointer(2)));
    assert_eq!(
        t.translate(&vec![Push(Constant, 1), Pop(Pointer, 7)]),
        Err(TranslateError::InvalidPointer(7))
    );
}

#[test]
fn temp_index_outside_window_fails() {
    assert_eq!(
        Translator::new("Foo").translate(&vec![Push(Temp, 8)]),
        Err(TranslateError::InvalidTemp(8))
    );
    assert_eq!(
        Translator::new("Foo").translate(&vec![Pop(Temp, 65535)]),
        Err(TranslateError::InvalidTemp(65535))
    );
    assert_eq!(lines("Foo", vec![Push(Temp, 7)])[1], "@R12");
}

#[test]
fn pop_constant_fails() {
    assert_eq!(
        Translator::new("Foo").translate(&vec![Pop(Constant, 0)]),
        Err(TranslateError::PopConstant)
    );
}

#[test]
fn statics_are_private_to_a_unit() {
    let a = lines("A", vec![Push(Static, 0)]);
    let b = lines("B", vec![Push(Static, 0)]);
    assert_eq!(a[1], "@A.0");
    assert_eq!(b[1], "@B.0");
    assert_ne!(a[1], b[1]);
}

#[test]
fn empty_program_has_no_lines() {
    assert_eq!(lines("Foo", vec![]), Vec::<String>::new());
}
