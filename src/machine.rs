use vstd::prelude::*;

use crate::ast::{segment_name, CommandView, Segment};
use crate::text::decimal;
use crate::translator::{
    at_line, base_register, based_pop_lines, based_push_lines, binary_lines, constant_push_lines,
    direct_pop_lines, direct_push_lines, is_based, is_comparison, push_lines, pop_lines, stack_comment,
    static_symbol, temp_symbol, translation, command_lines, compare_lines, compare_symbol,
    end_compare_symbol, if_goto_lines, label_def, label_symbol, unary_lines, TranslateError,
};

verus! {

/// The registers of the target machine that the translator addresses by name.
pub enum Register {
    Sp,
    Lcl,
    Arg,
    This,
    That,
    R13,
}

/// The name the assembler knows a register by.
pub open spec fn register_name(r: Register) -> Seq<char> {
    match r {
        Register::Sp => "SP"@,
        Register::Lcl => "LCL"@,
        Register::Arg => "ARG"@,
        Register::This => "THIS"@,
        Register::That => "THAT"@,
        Register::R13 => "R13"@,
    }
}

/// The memory cell of a register.
pub open spec fn register_address(r: Register) -> int {
    match r {
        Register::Sp => 0,
        Register::Lcl => 1,
        Register::Arg => 2,
        Register::This => 3,
        Register::That => 4,
        Register::R13 => 13,
    }
}

/// The straight-line instructions of the target assembly that push, pop and the
/// arithmetic and logical primitives are made of.
pub enum Asm {
    /// A comment line; it does nothing.
    Comment(Seq<char>),
    /// `@n`: loads the number `n` into A.
    AtNumber(nat),
    /// `@REG`: loads the address of a named register into A.
    AtRegister(Register),
    /// `@Rn`: loads `n` into A.
    AtR(nat),
    /// `@sym` for a variable symbol: loads the address the assembler gave it.
    AtSymbol(Seq<char>),
    /// `D=M`
    DFromM,
    /// `D=A`
    DFromA,
    /// `A=M`
    AFromM,
    /// `M=D`
    MFromD,
    /// `M=M+1`
    IncM,
    /// `A=M-1`
    AFromMDec,
    /// `AM=M-1`
    AmFromMDec,
    /// `A=A-1`
    AFromADec,
    /// `A=A+D`
    AFromAPlusD,
    /// `D=A+D`
    DFromAPlusD,
    /// `M=M+D`
    MPlusD,
    /// `M=M-D`
    MMinusD,
    /// `M=M&D`
    MAndD,
    /// `M=M|D`
    MOrD,
    /// `M=!M`
    NotM,
    /// `M=-M`
    NegM,
    /// `D=M-D`
    DFromMMinusD,
    /// `D=0`
    DZero,
    /// `D=-1`
    DMinusOne,
}

/// An instruction of a program that may jump.
pub enum Instr {
    /// An instruction that does not jump.
    Op(Asm),
    /// `(sym)`: defines a label; it does nothing.
    LabelDef(Seq<char>),
    /// `@sym` for a label symbol: loads the position of the label's definition.
    AtLabel(Seq<char>),
    /// `D;Jc`: jumps to the position in A when D passes the test `c`.
    JumpIf(Jump),
    /// `0;JMP`: jumps to the position in A.
    Goto,
}

/// The tests of a conditional jump on D.
pub enum Jump {
    Eq,
    Gt,
    Lt,
    Ne,
}

/// The mnemonic suffix of a jump test.
pub open spec fn jump_name(j: Jump) -> Seq<char> {
    match j {
        Jump::Eq => "EQ"@,
        Jump::Gt => "GT"@,
        Jump::Lt => "LT"@,
        Jump::Ne => "NE"@,
    }
}

/// A word read as a two's-complement signed number.
pub open spec fn signed(x: int) -> int {
    if x >= 0x8000 {
        x - 0x10000
    } else {
        x
    }
}

/// Whether the word `d` passes the test `j`.
pub open spec fn jump_holds(j: Jump, d: int) -> bool {
    match j {
        Jump::Eq => signed(d) == 0,
        Jump::Gt => signed(d) > 0,
        Jump::Lt => signed(d) < 0,
        Jump::Ne => signed(d) != 0,
    }
}

/// The line of assembly text of an instruction.
pub open spec fn asm_text(i: Asm) -> Seq<char> {
    match i {
        Asm::Comment(t) => t,
        Asm::AtNumber(n) => at_line(decimal(n)),
        Asm::AtRegister(r) => at_line(register_name(r)),
        Asm::AtR(n) => at_line("R"@ + decimal(n)),
        Asm::AtSymbol(s) => at_line(s),
        Asm::DFromM => "D=M"@,
        Asm::DFromA => "D=A"@,
        Asm::AFromM => "A=M"@,
        Asm::MFromD => "M=D"@,
        Asm::IncM => "M=M+1"@,
        Asm::AFromMDec => "A=M-1"@,
        Asm::AmFromMDec => "AM=M-1"@,
        Asm::AFromADec => "A=A-1"@,
        Asm::AFromAPlusD => "A=A+D"@,
        Asm::DFromAPlusD => "D=A+D"@,
        Asm::MPlusD => "M=M+D"@,
        Asm::MMinusD => "M=M-D"@,
        Asm::MAndD => "M=M&D"@,
        Asm::MOrD => "M=M|D"@,
        Asm::NotM => "M=!M"@,
        Asm::NegM => "M=-M"@,
        Asm::DFromMMinusD => "D=M-D"@,
        Asm::DZero => "D=0"@,
        Asm::DMinusOne => "D=-1"@,
    }
}

/// The line of assembly text of an instruction that may jump.
pub open spec fn instr_text(i: Instr) -> Seq<char> {
    match i {
        Instr::Op(a) => asm_text(a),
        Instr::LabelDef(sym) => label_def(sym),
        Instr::AtLabel(sym) => at_line(sym),
        Instr::JumpIf(j) => "D;J"@ + jump_name(j),
        Instr::Goto => "0;JMP"@,
    }
}

/// The lines of a program that may jump.
pub open spec fn render_instrs(p: Seq<Instr>) -> Seq<Seq<char>> {
    p.map_values(|i: Instr| instr_text(i))
}

/// The lines of a program.
pub open spec fn render(p: Seq<Asm>) -> Seq<Seq<char>> {
    p.map_values(|i: Asm| asm_text(i))
}

/// The machine's registers A and D and its memory, each holding a 16-bit word.
pub struct Hack {
    pub a: int,
    pub d: int,
    pub ram: Map<int, int>,
}

/// A value cut to a 16-bit word.
pub open spec fn w16(x: int) -> int {
    x % 0x10000
}

/// The word with all bits of `x` flipped.
pub open spec fn bit_not(x: int) -> int {
    (!(x as u16)) as int
}

/// The bitwise and of two words.
pub open spec fn bit_and(x: int, y: int) -> int {
    ((x as u16) & (y as u16)) as int
}

/// The bitwise or of two words.
pub open spec fn bit_or(x: int, y: int) -> int {
    ((x as u16) | (y as u16)) as int
}

/// The state after one instruction; `vars` holds the addresses of variable symbols.
pub open spec fn step(s: Hack, i: Asm, vars: Map<Seq<char>, int>) -> Hack {
    let m = s.ram[s.a];
    match i {
        Asm::Comment(_) => s,
        Asm::AtNumber(n) => Hack { a: n as int, ..s },
        Asm::AtRegister(r) => Hack { a: register_address(r), ..s },
        Asm::AtR(n) => Hack { a: n as int, ..s },
        Asm::AtSymbol(sym) => Hack { a: vars[sym], ..s },
        Asm::DFromM => Hack { d: m, ..s },
        Asm::DFromA => Hack { d: s.a, ..s },
        Asm::AFromM => Hack { a: m, ..s },
        Asm::MFromD => Hack { ram: s.ram.insert(s.a, s.d), ..s },
        Asm::IncM => Hack { ram: s.ram.insert(s.a, w16(m + 1)), ..s },
        Asm::AFromMDec => Hack { a: w16(m - 1), ..s },
        Asm::AmFromMDec => Hack { a: w16(m - 1), d: s.d, ram: s.ram.insert(s.a, w16(m - 1)) },
        Asm::AFromADec => Hack { a: w16(s.a - 1), ..s },
        Asm::AFromAPlusD => Hack { a: w16(s.a + s.d), ..s },
        Asm::DFromAPlusD => Hack { d: w16(s.a + s.d), ..s },
        Asm::MPlusD => Hack { ram: s.ram.insert(s.a, w16(m + s.d)), ..s },
        Asm::MMinusD => Hack { ram: s.ram.insert(s.a, w16(m - s.d)), ..s },
        Asm::MAndD => Hack { ram: s.ram.insert(s.a, bit_and(m, s.d)), ..s },
        Asm::MOrD => Hack { ram: s.ram.insert(s.a, bit_or(m, s.d)), ..s },
        Asm::NotM => Hack { ram: s.ram.insert(s.a, bit_not(m)), ..s },
        Asm::NegM => Hack { ram: s.ram.insert(s.a, w16(-m)), ..s },
        Asm::DFromMMinusD => Hack { d: w16(m - s.d), ..s },
        Asm::DZero => Hack { d: 0, ..s },
        Asm::DMinusOne => Hack { d: 0xFFFF, ..s },
    }
}

/// The state after running the instructions of `p` from position `k` on.
pub open spec fn run_from(p: Seq<Asm>, k: int, s: Hack, vars: Map<Seq<char>, int>) -> Hack
    decreases p.len() - k,
{
    if k < 0 || k >= p.len() {
        s
    } else {
        run_from(p, k + 1, step(s, p[k], vars), vars)
    }
}

/// The state after running a program from its first instruction to its last.
pub open spec fn run(p: Seq<Asm>, s: Hack, vars: Map<Seq<char>, int>) -> Hack {
    run_from(p, 0, s, vars)
}

proof fn lemma_run_from_concat(
    p: Seq<Asm>,
    q: Seq<Asm>,
    k: int,
    s: Hack,
    vars: Map<Seq<char>, int>,
)
    requires
        0 <= k <= p.len(),
    ensures
        run_from(p + q, k, s, vars) == run(q, run_from(p, k, s, vars), vars),
    decreases p.len() - k,
{
    if k < p.len() {
        lemma_run_from_concat(p, q, k + 1, step(s, p[k], vars), vars);
    } else {
        lemma_run_from_shift(p, q, 0, s, vars);
    }
}

proof fn lemma_run_from_shift(p: Seq<Asm>, q: Seq<Asm>, j: int, s: Hack, vars: Map<Seq<char>, int>)
    requires
        0 <= j <= q.len(),
    ensures
        run_from(p + q, p.len() + j, s, vars) == run_from(q, j, s, vars),
    decreases q.len() - j,
{
    if j < q.len() {
        lemma_run_from_shift(p, q, j + 1, step(s, q[j], vars), vars);
    }
}

proof fn lemma_run_concat(p: Seq<Asm>, q: Seq<Asm>, s: Hack, vars: Map<Seq<char>, int>)
    ensures
        run(p + q, s, vars) == run(q, run(p, s, vars), vars),
{
    lemma_run_from_concat(p, q, 0, s, vars);
}


/// The instructions of `push constant i`.
pub open spec fn constant_push_code(i: nat) -> Seq<Asm> {
    seq![
        Asm::Comment(stack_comment("push"@, "constant"@, i)),
        Asm::AtNumber(i),
        Asm::DFromA,
        Asm::AtRegister(Register::Sp),
        Asm::AFromM,
        Asm::MFromD,
        Asm::AtRegister(Register::Sp),
        Asm::IncM,
    ]
}

/// The instruction that combines the top two words for a two-operand primitive.
pub open spec fn binary_instr(c: CommandView) -> Asm {
    match c {
        CommandView::Add => Asm::MPlusD,
        CommandView::Sub => Asm::MMinusD,
        CommandView::And => Asm::MAndD,
        _ => Asm::MOrD,
    }
}

/// The instructions of a two-operand primitive.
pub open spec fn binary_code(c: CommandView) -> Seq<Asm> {
    seq![
        Asm::Comment("// "@ + binary_name(c)),
        Asm::AtRegister(Register::Sp),
        Asm::AmFromMDec,
        Asm::DFromM,
        Asm::AFromADec,
        binary_instr(c),
    ]
}

/// The keyword of a two-operand primitive.
pub open spec fn binary_name(c: CommandView) -> Seq<char> {
    match c {
        CommandView::Add => "add"@,
        CommandView::Sub => "sub"@,
        CommandView::And => "and"@,
        _ => "or"@,
    }
}

/// The operator sign of a two-operand primitive.
pub open spec fn binary_sign(c: CommandView) -> Seq<char> {
    match c {
        CommandView::Add => "+"@,
        CommandView::Sub => "-"@,
        CommandView::And => "&"@,
        _ => "|"@,
    }
}

/// What a two-operand primitive computes from the words `x` (below) and `y` (on top).
pub open spec fn binary_value(c: CommandView, x: int, y: int) -> int {
    match c {
        CommandView::Add => w16(x + y),
        CommandView::Sub => w16(x - y),
        CommandView::And => bit_and(x, y),
        _ => bit_or(x, y),
    }
}

/// The four two-operand primitives that need no label.
pub open spec fn is_binary(c: CommandView) -> bool {
    c is Add || c is Sub || c is And || c is Or
}

proof fn lemma_render_constant_push(i: nat)
    ensures
        render(constant_push_code(i)) == constant_push_lines(i),
{
    reveal_strlit("@SP");
    reveal_strlit("@");
    reveal_strlit("SP");
    assert(at_line(register_name(Register::Sp)) =~= "@SP"@);
    assert(render(constant_push_code(i)) =~= constant_push_lines(i));
}

proof fn lemma_render_binary(c: CommandView)
    requires
        is_binary(c),
    ensures
        render(binary_code(c)) == binary_lines(binary_name(c), binary_sign(c)),
{
    reveal_strlit("@SP");
    reveal_strlit("@");
    reveal_strlit("SP");
    reveal_strlit("M=M");
    reveal_strlit("D");
    reveal_strlit("+");
    reveal_strlit("-");
    reveal_strlit("&");
    reveal_strlit("|");
    reveal_strlit("M=M+D");
    reveal_strlit("M=M-D");
    reveal_strlit("M=M&D");
    reveal_strlit("M=M|D");
    assert(at_line(register_name(Register::Sp)) =~= "@SP"@);
    assert("M=M"@ + binary_sign(c) + "D"@ =~= asm_text(binary_instr(c)));
    assert(render(binary_code(c)) =~= binary_lines(binary_name(c), binary_sign(c)));
}

/// A stack pointer with room to push two words and no register cell under the stack.
pub open spec fn stack_ready(s: Hack) -> bool {
    16 <= s.ram[0] && s.ram[0] + 2 < 0x10000
}

#[verifier::rlimit(100)]
#[verifier::spinoff_prover]
proof fn lemma_run_constant_push(i: nat, s: Hack, vars: Map<Seq<char>, int>)
    requires
        16 <= s.ram[0] && s.ram[0] + 1 < 0x10000,
    ensures
        run(constant_push_code(i), s, vars).ram == s.ram.insert(s.ram[0], i as int).insert(
            0,
            s.ram[0] + 1,
        ),
{
    let p = constant_push_code(i);
    let sp = s.ram[0];
    let s1 = step(s, p[0], vars);
    let s2 = step(s1, p[1], vars);
    let s3 = step(s2, p[2], vars);
    let s4 = step(s3, p[3], vars);
    let s5 = step(s4, p[4], vars);
    let s6 = step(s5, p[5], vars);
    let s7 = step(s6, p[6], vars);
    let s8 = step(s7, p[7], vars);
    assert(w16(sp + 1) == sp + 1);
    assert(s3.d == i);
    assert(s5.a == sp);
    assert(s6.ram == s.ram.insert(sp, i as int));
    assert(s6.ram[0] == sp);
    assert(s8.ram == s6.ram.insert(0, sp + 1));
    assert(run_from(p, 8, s8, vars) == s8);
    assert(run_from(p, 7, s7, vars) == s8);
    assert(run_from(p, 6, s6, vars) == s8);
    assert(run_from(p, 5, s5, vars) == s8);
    assert(run_from(p, 4, s4, vars) == s8);
    assert(run_from(p, 3, s3, vars) == s8);
    assert(run_from(p, 2, s2, vars) == s8);
    assert(run_from(p, 1, s1, vars) == s8);
    assert(run_from(p, 0, s, vars) == s8);
}

#[verifier::rlimit(100)]
#[verifier::spinoff_prover]
proof fn lemma_run_binary(c: CommandView, s: Hack, vars: Map<Seq<char>, int>)
    requires
        18 <= s.ram[0] < 0x10000,
    ensures
        run(binary_code(c), s, vars).ram == s.ram.insert(0, s.ram[0] - 1).insert(
            s.ram[0] - 2,
            binary_value(c, s.ram[s.ram[0] - 2], s.ram[s.ram[0] - 1]),
        ),
{
    let p = binary_code(c);
    let sp = s.ram[0];
    let s1 = step(s, p[0], vars);
    let s2 = step(s1, p[1], vars);
    let s3 = step(s2, p[2], vars);
    let s4 = step(s3, p[3], vars);
    let s5 = step(s4, p[4], vars);
    let s6 = step(s5, p[5], vars);
    assert(w16(sp - 1) == sp - 1);
    assert(w16(sp - 1 - 1) == sp - 2);
    assert(s3.a == sp - 1);
    assert(s3.ram == s.ram.insert(0, sp - 1));
    assert(s4.d == s.ram[sp - 1]);
    assert(s5.a == sp - 2);
    assert(s5.ram[sp - 2] == s.ram[sp - 2]);
    assert(s6.ram == s3.ram.insert(sp - 2, binary_value(c, s.ram[sp - 2], s.ram[sp - 1])));
    assert(run_from(p, 6, s6, vars) == s6);
    assert(run_from(p, 5, s5, vars) == s6);
    assert(run_from(p, 4, s4, vars) == s6);
    assert(run_from(p, 3, s3, vars) == s6);
    assert(run_from(p, 2, s2, vars) == s6);
    assert(run_from(p, 1, s1, vars) == s6);
    assert(run_from(p, 0, s, vars) == s6);
}


/// The instructions of `push constant a; push constant b` followed by the primitive `c`.
pub open spec fn constants_then_code(a: u16, b: u16, c: CommandView) -> Seq<Asm> {
    constant_push_code(a as nat) + constant_push_code(b as nat) + binary_code(c)
}

proof fn lemma_render_concat(p: Seq<Asm>, q: Seq<Asm>)
    ensures
        render(p + q) == render(p) + render(q),
{
    assert(render(p + q) =~= render(p) + render(q));
}

proof fn lemma_translate_constants_then(unit: Seq<char>, n: nat, a: u16, b: u16, c: CommandView)
    requires
        is_binary(c),
    ensures
        translation(
            unit,
            n,
            seq![
                CommandView::Push(Segment::Constant, a),
                CommandView::Push(Segment::Constant, b),
                c,
            ],
        ) == (Ok::<Seq<Seq<char>>, TranslateError>(render(constants_then_code(a, b, c))), n),
{
    let ca = CommandView::Push(Segment::Constant, a);
    let cb = CommandView::Push(Segment::Constant, b);
    let cmds = seq![ca, cb, c];
    assert(cmds.drop_last() =~= seq![ca, cb]);
    assert(seq![ca, cb].drop_last() =~= seq![ca]);
    assert(seq![ca].drop_last() =~= Seq::<CommandView>::empty());
    let la = constant_push_lines(a as nat);
    let lb = constant_push_lines(b as nat);
    let lc = binary_lines(binary_name(c), binary_sign(c));
    assert(translation(unit, n, Seq::<CommandView>::empty()) == (Ok::<Seq<Seq<char>>, TranslateError>(Seq::empty()), n));
    assert(Seq::<Seq<char>>::empty() + la =~= la);
    assert(translation(unit, n, seq![ca]) == (Ok::<Seq<Seq<char>>, TranslateError>(la), n));
    assert(translation(unit, n, seq![ca, cb]) == (Ok::<Seq<Seq<char>>, TranslateError>(la + lb), n));
    assert(command_lines(unit, n, c) == Ok::<Seq<Seq<char>>, TranslateError>(lc));
    let pa = constant_push_code(a as nat);
    let pb = constant_push_code(b as nat);
    let pc = binary_code(c);
    lemma_render_constant_push(a as nat);
    lemma_render_constant_push(b as nat);
    lemma_render_binary(c);
    lemma_render_concat(pa, pb);
    lemma_render_concat(pa + pb, pc);
}

proof fn lemma_run_constants_then(a: u16, b: u16, c: CommandView, s: Hack, vars: Map<Seq<char>, int>)
    requires
        stack_ready(s),
    ensures
        run(constants_then_code(a, b, c), s, vars).ram[0] == s.ram[0] + 1,
        run(constants_then_code(a, b, c), s, vars).ram[s.ram[0]] == binary_value(
            c,
            a as int,
            b as int,
        ),
{
    let pa = constant_push_code(a as nat);
    let pb = constant_push_code(b as nat);
    let pc = binary_code(c);
    let sp = s.ram[0];
    lemma_run_concat(pa + pb, pc, s, vars);
    lemma_run_concat(pa, pb, s, vars);
    let s1 = run(pa, s, vars);
    lemma_run_constant_push(a as nat, s, vars);
    assert(s1.ram[0] == sp + 1);
    assert(s1.ram[sp] == a);
    let s2 = run(pb, s1, vars);
    lemma_run_constant_push(b as nat, s1, vars);
    assert(s2.ram[0] == sp + 2);
    assert(s2.ram[sp] == a);
    assert(s2.ram[sp + 1] == b);
    lemma_run_binary(c, s2, vars);
}

/// `push constant a; push constant b` and then `add`, `sub`, `and` or `or` translates to a
/// program that, run on any stack with room, leaves the 16-bit result of the operation
/// on `a` and `b` on top of the stack, one slot above where the stack started.
pub proof fn binary_primitive_computes(
    unit: Seq<char>,
    n: nat,
    a: u16,
    b: u16,
    c: CommandView,
    s: Hack,
    vars: Map<Seq<char>, int>,
)
    requires
        is_binary(c),
        stack_ready(s),
    ensures
        translation(
            unit,
            n,
            seq![
                CommandView::Push(Segment::Constant, a),
                CommandView::Push(Segment::Constant, b),
                c,
            ],
        ) == (Ok::<Seq<Seq<char>>, TranslateError>(render(constants_then_code(a, b, c))), n),
        run(constants_then_code(a, b, c), s, vars).ram[0] == s.ram[0] + 1,
        run(constants_then_code(a, b, c), s, vars).ram[s.ram[0]] == binary_value(
            c,
            a as int,
            b as int,
        ),
{
    lemma_translate_constants_then(unit, n, a, b, c);
    lemma_run_constants_then(a, b, c, s, vars);
}


/// The instruction that rewrites the top word for a one-operand primitive.
pub open spec fn unary_instr(c: CommandView) -> Asm {
    if c is Neg {
        Asm::NegM
    } else {
        Asm::NotM
    }
}

/// The keyword of a one-operand primitive.
pub open spec fn unary_name(c: CommandView) -> Seq<char> {
    if c is Neg {
        "neg"@
    } else {
        "not"@
    }
}

/// The operator sign of a one-operand primitive.
pub open spec fn unary_sign(c: CommandView) -> Seq<char> {
    if c is Neg {
        "-"@
    } else {
        "!"@
    }
}

/// What a one-operand primitive computes from the word `x`.
pub open spec fn unary_value(c: CommandView, x: int) -> int {
    if c is Neg {
        w16(-x)
    } else {
        bit_not(x)
    }
}

/// The instructions of a one-operand primitive.
pub open spec fn unary_code(c: CommandView) -> Seq<Asm> {
    seq![
        Asm::Comment("// "@ + unary_name(c)),
        Asm::AtRegister(Register::Sp),
        Asm::AFromMDec,
        unary_instr(c),
    ]
}

proof fn lemma_render_unary(c: CommandView)
    ensures
        render(unary_code(c)) == unary_lines(unary_name(c), unary_sign(c)),
{
    reveal_strlit("@SP");
    reveal_strlit("@");
    reveal_strlit("SP");
    reveal_strlit("M=");
    reveal_strlit("M");
    reveal_strlit("-");
    reveal_strlit("!");
    reveal_strlit("M=-M");
    reveal_strlit("M=!M");
    assert(at_line(register_name(Register::Sp)) =~= "@SP"@);
    assert("M="@ + unary_sign(c) + "M"@ =~= asm_text(unary_instr(c)));
    assert(render(unary_code(c)) =~= unary_lines(unary_name(c), unary_sign(c)));
}

#[verifier::rlimit(100)]
#[verifier::spinoff_prover]
proof fn lemma_run_unary(c: CommandView, s: Hack, vars: Map<Seq<char>, int>)
    requires
        17 <= s.ram[0] < 0x10000,
    ensures
        run(unary_code(c), s, vars).ram == s.ram.insert(
            s.ram[0] - 1,
            unary_value(c, s.ram[s.ram[0] - 1]),
        ),
{
    let p = unary_code(c);
    let sp = s.ram[0];
    let s1 = step(s, p[0], vars);
    let s2 = step(s1, p[1], vars);
    let s3 = step(s2, p[2], vars);
    let s4 = step(s3, p[3], vars);
    assert(w16(sp - 1) == sp - 1);
    assert(s3.a == sp - 1);
    assert(s4.ram == s.ram.insert(sp - 1, unary_value(c, s.ram[sp - 1])));
    assert(run_from(p, 4, s4, vars) == s4);
    assert(run_from(p, 3, s3, vars) == s4);
    assert(run_from(p, 2, s2, vars) == s4);
    assert(run_from(p, 1, s1, vars) == s4);
    assert(run_from(p, 0, s, vars) == s4);
}

proof fn lemma_unary_involution(c: CommandView, x: int)
    requires
        c is Neg || c is Not,
        0 <= x < 0x10000,
    ensures
        unary_value(c, unary_value(c, x)) == x,
{
    if c is Neg {
        if x == 0 {
            assert(w16(-x) == 0);
        } else {
            assert(w16(-x) == 0x10000 - x);
            assert(w16(-(0x10000 - x)) == x);
        }
    } else {
        let y = x as u16;
        assert(!(!y) == y) by (bit_vector);
    }
}

proof fn lemma_translate_unary_twice(unit: Seq<char>, n: nat, c: CommandView)
    requires
        c is Neg || c is Not,
    ensures
        translation(unit, n, seq![c, c]) == (Ok::<Seq<Seq<char>>, TranslateError>(
            render(unary_code(c) + unary_code(c)),
        ), n),
{
    assert(seq![c, c].drop_last() =~= seq![c]);
    assert(seq![c].drop_last() =~= Seq::<CommandView>::empty());
    let l = unary_lines(unary_name(c), unary_sign(c));
    assert(Seq::<Seq<char>>::empty() + l =~= l);
    assert(command_lines(unit, n, c) == Ok::<Seq<Seq<char>>, TranslateError>(l));
    assert(translation(unit, n, Seq::<CommandView>::empty()) == (Ok::<Seq<Seq<char>>, TranslateError>(Seq::empty()), n));
    assert(translation(unit, n, seq![c]) == (Ok::<Seq<Seq<char>>, TranslateError>(l), n));
    lemma_render_unary(c);
    lemma_render_concat(unary_code(c), unary_code(c));
}

proof fn lemma_run_unary_twice(c: CommandView, s: Hack, vars: Map<Seq<char>, int>)
    requires
        c is Neg || c is Not,
        17 <= s.ram[0] < 0x10000,
        0 <= s.ram[s.ram[0] - 1] < 0x10000,
    ensures
        forall|x: int| #[trigger] run(unary_code(c) + unary_code(c), s, vars).ram[x] == s.ram[x],
{
    let sp = s.ram[0];
    let x = s.ram[sp - 1];
    lemma_run_concat(unary_code(c), unary_code(c), s, vars);
    lemma_run_unary(c, s, vars);
    let s1 = run(unary_code(c), s, vars);
    assert(s1.ram[0] == sp);
    lemma_run_unary(c, s1, vars);
    lemma_unary_involution(c, x);
    assert forall|y: int| #[trigger] run(unary_code(c), s1, vars).ram[y] == s.ram[y] by {
        if y != sp - 1 {
            assert(s1.ram[y] == s.ram[y]);
        }
    };
}

/// `neg; neg` and `not; not` each translate to a program that, run on a stack that holds
/// a word, leaves every memory cell as it found it.
pub proof fn unary_twice_restores(
    unit: Seq<char>,
    n: nat,
    c: CommandView,
    s: Hack,
    vars: Map<Seq<char>, int>,
)
    requires
        c is Neg || c is Not,
        17 <= s.ram[0] < 0x10000,
        0 <= s.ram[s.ram[0] - 1] < 0x10000,
    ensures
        translation(unit, n, seq![c, c]) == (Ok::<Seq<Seq<char>>, TranslateError>(
            render(unary_code(c) + unary_code(c)),
        ), n),
        forall|x: int| #[trigger] run(unary_code(c) + unary_code(c), s, vars).ram[x] == s.ram[x],
{
    lemma_translate_unary_twice(unit, n, c);
    lemma_run_unary_twice(c, s, vars);
}


/// The base register of a based segment.
pub open spec fn segment_register(seg: Segment) -> Register {
    match seg {
        Segment::Local => Register::Lcl,
        Segment::Argument => Register::Arg,
        Segment::This => Register::This,
        _ => Register::That,
    }
}

/// The address instruction of `seg i` for a directly addressed segment.
pub open spec fn direct_at(unit: Seq<char>, seg: Segment, i: nat) -> Asm {
    match seg {
        Segment::Static => Asm::AtSymbol(static_symbol(unit, i)),
        Segment::Temp => Asm::AtR(i + 5),
        _ => if i == 0 {
            Asm::AtRegister(Register::This)
        } else {
            Asm::AtRegister(Register::That)
        },
    }
}

/// The cell that `seg i` names in state `s`, for every segment but `constant`.
pub open spec fn location(s: Hack, unit: Seq<char>, seg: Segment, i: nat, vars: Map<Seq<char>, int>) -> int {
    if is_based(seg) {
        w16(i as int + s.ram[register_address(segment_register(seg))])
    } else {
        step(s, direct_at(unit, seg, i), vars).a
    }
}

/// The instructions of `push seg i` for a segment other than `constant`.
pub open spec fn push_code(unit: Seq<char>, seg: Segment, i: nat) -> Seq<Asm> {
    if is_based(seg) {
        based_push_code(seg, i)
    } else {
        direct_push_code(unit, seg, i)
    }
}

/// The instructions of `push seg i` for a based segment.
pub open spec fn based_push_code(seg: Segment, i: nat) -> Seq<Asm> {
    seq![
        Asm::Comment(stack_comment("push"@, segment_name(seg), i)),
        Asm::AtRegister(segment_register(seg)),
        Asm::DFromM,
        Asm::AtNumber(i),
        Asm::AFromAPlusD,
        Asm::DFromM,
        Asm::AtRegister(Register::Sp),
        Asm::IncM,
        Asm::AFromMDec,
        Asm::MFromD,
    ]
}

/// The instructions of `push seg i` for a directly addressed segment.
pub open spec fn direct_push_code(unit: Seq<char>, seg: Segment, i: nat) -> Seq<Asm> {
    seq![
        Asm::Comment(stack_comment("push"@, segment_name(seg), i)),
        direct_at(unit, seg, i),
        Asm::DFromM,
        Asm::AtRegister(Register::Sp),
        Asm::IncM,
        Asm::AFromMDec,
        Asm::MFromD,
    ]
}

/// The instructions of `pop seg i` for a segment other than `constant`.
pub open spec fn pop_code(unit: Seq<char>, seg: Segment, i: nat) -> Seq<Asm> {
    if is_based(seg) {
        based_pop_code(seg, i)
    } else {
        direct_pop_code(unit, seg, i)
    }
}

/// The instructions of `pop seg i` for a based segment.
pub open spec fn based_pop_code(seg: Segment, i: nat) -> Seq<Asm> {
    seq![
        Asm::Comment(stack_comment("pop"@, segment_name(seg), i)),
        Asm::AtRegister(segment_register(seg)),
        Asm::DFromM,
        Asm::AtNumber(i),
        Asm::DFromAPlusD,
        Asm::AtRegister(Register::R13),
        Asm::MFromD,
        Asm::AtRegister(Register::Sp),
        Asm::AmFromMDec,
        Asm::DFromM,
        Asm::AtRegister(Register::R13),
        Asm::AFromM,
        Asm::MFromD,
    ]
}

/// The instructions of `pop seg i` for a directly addressed segment.
pub open spec fn direct_pop_code(unit: Seq<char>, seg: Segment, i: nat) -> Seq<Asm> {
    seq![
        Asm::Comment(stack_comment("pop"@, segment_name(seg), i)),
        Asm::AtRegister(Register::Sp),
        Asm::AmFromMDec,
        Asm::DFromM,
        direct_at(unit, seg, i),
        Asm::MFromD,
    ]
}

/// A segment and index that push and pop accept.
pub open spec fn addressable(seg: Segment, i: u16) -> bool {
    seg != Segment::Constant && (seg == Segment::Pointer ==> i <= 1) && (seg == Segment::Temp ==> i
        <= 7)
}

proof fn lemma_render_push_pop(unit: Seq<char>, seg: Segment, i: u16)
    requires
        addressable(seg, i),
    ensures
        push_lines(unit, seg, i) == Ok::<Seq<Seq<char>>, TranslateError>(render(push_code(unit, seg, i as nat))),
        pop_lines(unit, seg, i) == Ok::<Seq<Seq<char>>, TranslateError>(render(pop_code(unit, seg, i as nat))),
{
    reveal_strlit("@SP");
    reveal_strlit("@R13");
    reveal_strlit("@");
    reveal_strlit("SP");
    reveal_strlit("R13");
    assert(at_line(register_name(Register::Sp)) =~= "@SP"@);
    assert(at_line(register_name(Register::R13)) =~= "@R13"@);
    let n = i as nat;
    if is_based(seg) {
        assert(render(push_code(unit, seg, n)) =~= based_push_lines(segment_name(seg), base_register(seg), n));
        assert(render(pop_code(unit, seg, n)) =~= based_pop_lines(segment_name(seg), base_register(seg), n));
    } else {
        let sym = asm_text(direct_at(unit, seg, n)).skip(1);
        assert(asm_text(direct_at(unit, seg, n)) =~= at_line(sym));
        assert(render(push_code(unit, seg, n)) =~= direct_push_lines(segment_name(seg), n, sym));
        assert(render(pop_code(unit, seg, n)) =~= direct_pop_lines(segment_name(seg), n, sym));
    }
}



#[verifier::rlimit(100)]
#[verifier::spinoff_prover]
proof fn lemma_run_based_push(seg: Segment, i: nat, s: Hack, vars: Map<Seq<char>, int>)
    requires
        is_based(seg),
        16 <= s.ram[0] && s.ram[0] + 1 < 0x10000,
    ensures
        ({
            let x = s.ram[w16(i as int + s.ram[register_address(segment_register(seg))])];
            run(based_push_code(seg, i), s, vars).ram == s.ram.insert(0, s.ram[0] + 1).insert(s.ram[0], x)
        }),
{
    let p = based_push_code(seg, i);
    let sp = s.ram[0];
    let x = s.ram[w16(i as int + s.ram[register_address(segment_register(seg))])];
    let s1 = step(s, p[0], vars);
    let s2 = step(s1, p[1], vars);
    let s3 = step(s2, p[2], vars);
    let s4 = step(s3, p[3], vars);
    let s5 = step(s4, p[4], vars);
    let s6 = step(s5, p[5], vars);
    let s7 = step(s6, p[6], vars);
    let s8 = step(s7, p[7], vars);
    let s9 = step(s8, p[8], vars);
    let s10 = step(s9, p[9], vars);
    let base = register_address(segment_register(seg));
    assert(s1 == s);
    assert(s2.a == base && s2.ram == s.ram);
    assert(s3.d == s.ram[base] && s3.ram == s.ram);
    assert(s4.a == i && s4.d == s.ram[base] && s4.ram == s.ram);
    assert(s5.a == w16(i as int + s.ram[base]) && s5.ram == s.ram);
    assert(s6.d == x && s6.ram == s.ram);
    assert(s7.a == 0 && s7.d == x && s7.ram == s.ram);
    assert(w16(sp + 1) == sp + 1);
    assert(w16(sp + 1 - 1) == sp);
    assert(s8.ram == s.ram.insert(0, sp + 1));
    assert(s9.a == sp);
    assert(run_from(p, 10, s10, vars) == s10);
    assert(run_from(p, 9, s9, vars) == s10);
    assert(run_from(p, 8, s8, vars) == s10);
    assert(run_from(p, 7, s7, vars) == s10);
    assert(run_from(p, 6, s6, vars) == s10);
    assert(run_from(p, 5, s5, vars) == s10);
    assert(run_from(p, 4, s4, vars) == s10);
    assert(run_from(p, 3, s3, vars) == s10);
    assert(run_from(p, 2, s2, vars) == s10);
    assert(run_from(p, 1, s1, vars) == s10);
}

#[verifier::rlimit(100)]
#[verifier::spinoff_prover]
proof fn lemma_run_direct_push(unit: Seq<char>, seg: Segment, i: nat, s: Hack, vars: Map<Seq<char>, int>)
    requires
        16 <= s.ram[0] && s.ram[0] + 1 < 0x10000,
    ensures
        ({
            let x = s.ram[step(s, direct_at(unit, seg, i), vars).a];
            run(direct_push_code(unit, seg, i), s, vars).ram == s.ram.insert(0, s.ram[0] + 1).insert(s.ram[0], x)
        }),
{
    let p = direct_push_code(unit, seg, i);
    let sp = s.ram[0];
    let s1 = step(s, p[0], vars);
    let s2 = step(s1, p[1], vars);
    let s3 = step(s2, p[2], vars);
    let s4 = step(s3, p[3], vars);
    let s5 = step(s4, p[4], vars);
    let s6 = step(s5, p[5], vars);
    let s7 = step(s6, p[6], vars);
    let addr = step(s, direct_at(unit, seg, i), vars).a;
    assert(s1 == s);
    assert(s2.a == addr && s2.ram == s.ram);
    assert(s4.a == 0 && s4.ram == s.ram);
    assert(w16(sp + 1) == sp + 1);
    assert(w16(sp + 1 - 1) == sp);
    assert(s3.d == s.ram[step(s, direct_at(unit, seg, i), vars).a]);
    assert(s5.ram == s.ram.insert(0, sp + 1));
    assert(s6.a == sp);
    assert(run_from(p, 7, s7, vars) == s7);
    assert(run_from(p, 6, s6, vars) == s7);
    assert(run_from(p, 5, s5, vars) == s7);
    assert(run_from(p, 4, s4, vars) == s7);
    assert(run_from(p, 3, s3, vars) == s7);
    assert(run_from(p, 2, s2, vars) == s7);
    assert(run_from(p, 1, s1, vars) == s7);
}

#[verifier::rlimit(100)]
#[verifier::spinoff_prover]
proof fn lemma_run_based_pop(seg: Segment, i: nat, s: Hack, vars: Map<Seq<char>, int>)
    requires
        is_based(seg),
        17 <= s.ram[0] < 0x10000,
    ensures
        ({
            let addr = w16(i as int + s.ram[register_address(segment_register(seg))]);
            run(based_pop_code(seg, i), s, vars).ram == s.ram.insert(13, addr).insert(0, s.ram[0] - 1).insert(
                addr,
                s.ram[s.ram[0] - 1],
            )
        }),
{
    let p = based_pop_code(seg, i);
    let sp = s.ram[0] - 1;
    let addr = w16(i as int + s.ram[register_address(segment_register(seg))]);
    let x = s.ram[sp];
    let s1 = step(s, p[0], vars);
    let s2 = step(s1, p[1], vars);
    let s3 = step(s2, p[2], vars);
    let s4 = step(s3, p[3], vars);
    let s5 = step(s4, p[4], vars);
    let s6 = step(s5, p[5], vars);
    let s7 = step(s6, p[6], vars);
    let s8 = step(s7, p[7], vars);
    let s9 = step(s8, p[8], vars);
    let s10 = step(s9, p[9], vars);
    let s11 = step(s10, p[10], vars);
    let s12 = step(s11, p[11], vars);
    let s13 = step(s12, p[12], vars);
    assert(w16(sp + 1 - 1) == sp);
    assert(s5.d == addr);
    assert(s7.ram == s.ram.insert(13, addr));
    assert(s9.ram == s.ram.insert(13, addr).insert(0, sp));
    assert(s9.a == sp);
    assert(s10.d == x);
    assert(s12.a == addr);
    assert(run_from(p, 13, s13, vars) == s13);
    assert(run_from(p, 12, s12, vars) == s13);
    assert(run_from(p, 11, s11, vars) == s13);
    assert(run_from(p, 10, s10, vars) == s13);
    assert(run_from(p, 9, s9, vars) == s13);
    assert(run_from(p, 8, s8, vars) == s13);
    assert(run_from(p, 7, s7, vars) == s13);
    assert(run_from(p, 6, s6, vars) == s13);
    assert(run_from(p, 5, s5, vars) == s13);
    assert(run_from(p, 4, s4, vars) == s13);
    assert(run_from(p, 3, s3, vars) == s13);
    assert(run_from(p, 2, s2, vars) == s13);
    assert(run_from(p, 1, s1, vars) == s13);
}

#[verifier::rlimit(100)]
#[verifier::spinoff_prover]
proof fn lemma_run_direct_pop(unit: Seq<char>, seg: Segment, i: nat, s: Hack, vars: Map<Seq<char>, int>)
    requires
        17 <= s.ram[0] < 0x10000,
    ensures
        ({
            let addr = step(s, direct_at(unit, seg, i), vars).a;
            run(direct_pop_code(unit, seg, i), s, vars).ram == s.ram.insert(0, s.ram[0] - 1).insert(
                addr,
                s.ram[s.ram[0] - 1],
            )
        }),
{
    let p = direct_pop_code(unit, seg, i);
    let sp = s.ram[0] - 1;
    let addr = step(s, direct_at(unit, seg, i), vars).a;
    let s1 = step(s, p[0], vars);
    let s2 = step(s1, p[1], vars);
    let s3 = step(s2, p[2], vars);
    let s4 = step(s3, p[3], vars);
    let s5 = step(s4, p[4], vars);
    let s6 = step(s5, p[5], vars);
    assert(w16(sp + 1 - 1) == sp);
    assert(s3.ram == s.ram.insert(0, sp));
    assert(s3.a == sp);
    assert(s4.d == s.ram[sp]);
    assert(s5.a == addr);
    assert(run_from(p, 6, s6, vars) == s6);
    assert(run_from(p, 5, s5, vars) == s6);
    assert(run_from(p, 4, s4, vars) == s6);
    assert(run_from(p, 3, s3, vars) == s6);
    assert(run_from(p, 2, s2, vars) == s6);
    assert(run_from(p, 1, s1, vars) == s6);
}


proof fn lemma_translate_push_pop(unit: Seq<char>, n: nat, seg: Segment, i: u16)
    requires
        addressable(seg, i),
    ensures
        translation(unit, n, seq![CommandView::Push(seg, i), CommandView::Pop(seg, i)]) == (Ok::<
            Seq<Seq<char>>,
            TranslateError,
        >(render(push_code(unit, seg, i as nat) + pop_code(unit, seg, i as nat))), n),
{
    let cu = CommandView::Push(seg, i);
    let co = CommandView::Pop(seg, i);
    assert(seq![cu, co].drop_last() =~= seq![cu]);
    assert(seq![cu].drop_last() =~= Seq::<CommandView>::empty());
    lemma_render_push_pop(unit, seg, i);
    let l = render(push_code(unit, seg, i as nat));
    assert(Seq::<Seq<char>>::empty() + l =~= l);
    assert(translation(unit, n, Seq::<CommandView>::empty()) == (Ok::<Seq<Seq<char>>, TranslateError>(Seq::empty()), n));
    assert(translation(unit, n, seq![cu]) == (Ok::<Seq<Seq<char>>, TranslateError>(l), n));
    lemma_render_concat(push_code(unit, seg, i as nat), pop_code(unit, seg, i as nat));
}

proof fn lemma_run_push_pop(unit: Seq<char>, seg: Segment, i: nat, s: Hack, vars: Map<Seq<char>, int>)
    requires
        seg != Segment::Constant,
        16 <= s.ram[0] && s.ram[0] + 1 < 0x10000,
    ensures
        ({
            let t = run(push_code(unit, seg, i) + pop_code(unit, seg, i), s, vars);
            let addr = location(s, unit, seg, i, vars);
            &&& t.ram[0] == s.ram[0]
            &&& t.ram[addr] == s.ram[addr]
            &&& forall|c: int| c != s.ram[0] && c != 13 ==> #[trigger] t.ram[c] == s.ram[c]
        }),
{
    let sp = s.ram[0];
    let addr = location(s, unit, seg, i, vars);
    let x = s.ram[addr];
    lemma_run_concat(push_code(unit, seg, i), pop_code(unit, seg, i), s, vars);
    let s1 = run(push_code(unit, seg, i), s, vars);
    let t = run(pop_code(unit, seg, i), s1, vars);
    if is_based(seg) {
        lemma_run_based_push(seg, i, s, vars);
        let base = register_address(segment_register(seg));
        assert(s1.ram[base] == s.ram[base]);
        assert(s1.ram[0] == sp + 1);
        assert(s1.ram[sp] == x);
        lemma_run_based_pop(seg, i, s1, vars);
        assert(t.ram == s1.ram.insert(13, addr).insert(0, sp).insert(addr, x));
    } else {
        lemma_run_direct_push(unit, seg, i, s, vars);
        assert(step(s1, direct_at(unit, seg, i), vars).a == addr);
        assert(s1.ram[0] == sp + 1);
        assert(s1.ram[sp] == x);
        lemma_run_direct_pop(unit, seg, i, s1, vars);
        assert(t.ram == s1.ram.insert(0, sp).insert(addr, x));
    }
    if addr == 0 {
        assert(x == sp);
    }
}

/// `push seg i` followed by `pop seg i`, for any segment but `constant` and any index
/// that the segment accepts, translates to a program that, run on a stack with room,
/// leaves the stack pointer where it was, the addressed cell holding the value it held
/// before, and every cell but the stack slot above the top and the scratch register R13
/// as it found it.
pub proof fn push_then_pop_preserves(
    unit: Seq<char>,
    n: nat,
    seg: Segment,
    i: u16,
    s: Hack,
    vars: Map<Seq<char>, int>,
)
    requires
        addressable(seg, i),
        16 <= s.ram[0] && s.ram[0] + 1 < 0x10000,
    ensures
        translation(unit, n, seq![CommandView::Push(seg, i), CommandView::Pop(seg, i)]) == (Ok::<
            Seq<Seq<char>>,
            TranslateError,
        >(render(push_code(unit, seg, i as nat) + pop_code(unit, seg, i as nat))), n),
        ({
            let t = run(push_code(unit, seg, i as nat) + pop_code(unit, seg, i as nat), s, vars);
            let addr = location(s, unit, seg, i as nat, vars);
            &&& t.ram[0] == s.ram[0]
            &&& t.ram[addr] == s.ram[addr]
            &&& forall|c: int| c != s.ram[0] && c != 13 ==> #[trigger] t.ram[c] == s.ram[c]
        }),
{
    lemma_translate_push_pop(unit, n, seg, i);
    lemma_run_push_pop(unit, seg, i as nat, s, vars);
}


/// The position of the first definition of label `sym` in `p` from `k` on, or the
/// length of `p` when there is none.
pub open spec fn label_at(p: Seq<Instr>, sym: Seq<char>, k: int) -> int
    decreases p.len() - k,
{
    if k < 0 || k >= p.len() {
        p.len() as int
    } else if p[k] == Instr::LabelDef(sym) {
        k
    } else {
        label_at(p, sym, k + 1)
    }
}

/// Runs `p` from position `pc` for at most `fuel` instructions, following jumps; gives the
/// state and the position reached. A jump target is a position in `p`.
pub open spec fn exec(p: Seq<Instr>, pc: int, s: Hack, vars: Map<Seq<char>, int>, fuel: nat) -> (
    Hack,
    int,
)
    decreases fuel,
{
    if fuel == 0 || pc < 0 || pc >= p.len() {
        (s, pc)
    } else {
        match p[pc] {
            Instr::AtLabel(sym) => exec(p, pc + 1, Hack { a: label_at(p, sym, 0), ..s }, vars, (fuel - 1) as nat),
            Instr::JumpIf(j) => exec(
                p,
                if jump_holds(j, s.d) {
                    s.a
                } else {
                    pc + 1
                },
                s,
                vars,
                (fuel - 1) as nat,
            ),
            Instr::Goto => exec(p, s.a, s, vars, (fuel - 1) as nat),
            Instr::LabelDef(_) => exec(p, pc + 1, s, vars, (fuel - 1) as nat),
            Instr::Op(i) => exec(p, pc + 1, step(s, i, vars), vars, (fuel - 1) as nat),
        }
    }
}

/// The instructions of a comparison numbered `n` that jumps on test `j`.
pub open spec fn compare_code(unit: Seq<char>, name: Seq<char>, j: Jump, n: nat) -> Seq<Instr> {
    seq![
        Instr::Op(Asm::Comment("// "@ + name)),
        Instr::Op(Asm::AtRegister(Register::Sp)),
        Instr::Op(Asm::AmFromMDec),
        Instr::Op(Asm::DFromM),
        Instr::Op(Asm::AFromADec),
        Instr::Op(Asm::DFromMMinusD),
        Instr::AtLabel(compare_symbol(unit, n)),
        Instr::JumpIf(j),
        Instr::Op(Asm::DZero),
        Instr::AtLabel(end_compare_symbol(unit, n)),
        Instr::Goto,
        Instr::LabelDef(compare_symbol(unit, n)),
        Instr::Op(Asm::DMinusOne),
        Instr::LabelDef(end_compare_symbol(unit, n)),
        Instr::Op(Asm::AtRegister(Register::Sp)),
        Instr::Op(Asm::AFromMDec),
        Instr::Op(Asm::MFromD),
    ]
}

/// The instructions of `if-goto name`.
pub open spec fn if_goto_code(unit: Seq<char>, name: Seq<char>) -> Seq<Instr> {
    seq![
        Instr::Op(Asm::Comment("// if-goto "@ + name)),
        Instr::Op(Asm::AtRegister(Register::Sp)),
        Instr::Op(Asm::AmFromMDec),
        Instr::Op(Asm::DFromM),
        Instr::AtLabel(label_symbol(unit, name)),
        Instr::JumpIf(Jump::Ne),
    ]
}

proof fn lemma_render_compare(unit: Seq<char>, name: Seq<char>, j: Jump, n: nat)
    ensures
        render_instrs(compare_code(unit, name, j, n)) == compare_lines(unit, name, jump_name(j), n),
{
    reveal_strlit("@SP");
    reveal_strlit("@");
    reveal_strlit("SP");
    assert(at_line(register_name(Register::Sp)) =~= "@SP"@);
    assert(render_instrs(compare_code(unit, name, j, n)) =~= compare_lines(unit, name, jump_name(j), n));
}

proof fn lemma_render_if_goto(unit: Seq<char>, name: Seq<char>)
    ensures
        render_instrs(if_goto_code(unit, name)) == if_goto_lines(unit, name),
{
    reveal_strlit("@SP");
    reveal_strlit("@");
    reveal_strlit("SP");
    reveal_strlit("D;J");
    reveal_strlit("NE");
    reveal_strlit("D;JNE");
    assert(at_line(register_name(Register::Sp)) =~= "@SP"@);
    assert("D;J"@ + jump_name(Jump::Ne) =~= "D;JNE"@);
    assert(render_instrs(if_goto_code(unit, name)) =~= if_goto_lines(unit, name));
}


/// The jump test of a comparison.
pub open spec fn compare_jump(c: CommandView) -> Jump {
    if c is Eq {
        Jump::Eq
    } else if c is Gt {
        Jump::Gt
    } else {
        Jump::Lt
    }
}

/// The keyword of a comparison.
pub open spec fn compare_name(c: CommandView) -> Seq<char> {
    if c is Eq {
        "eq"@
    } else if c is Gt {
        "gt"@
    } else {
        "lt"@
    }
}

/// Whether the comparison `c` holds of the numbers `x` and `y`.
pub open spec fn compare_holds(c: CommandView, x: int, y: int) -> bool {
    if c is Eq {
        x == y
    } else if c is Gt {
        x > y
    } else {
        x < y
    }
}

proof fn lemma_compare_labels(unit: Seq<char>, name: Seq<char>, j: Jump, n: nat)
    ensures
        label_at(compare_code(unit, name, j, n), compare_symbol(unit, n), 0) == 11,
        label_at(compare_code(unit, name, j, n), end_compare_symbol(unit, n), 0) == 13,
{
    let p = compare_code(unit, name, j, n);
    let c = compare_symbol(unit, n);
    let e = end_compare_symbol(unit, n);
    crate::translator::lemma_compare_tags_differ(unit, n, n);
    assert(label_at(p, c, 11) == 11);
    assert(label_at(p, c, 10) == 11);
    assert(label_at(p, c, 9) == 11);
    assert(label_at(p, c, 8) == 11);
    assert(label_at(p, c, 7) == 11);
    assert(label_at(p, c, 6) == 11);
    assert(label_at(p, c, 5) == 11);
    assert(label_at(p, c, 4) == 11);
    assert(label_at(p, c, 3) == 11);
    assert(label_at(p, c, 2) == 11);
    assert(label_at(p, c, 1) == 11);
    assert(label_at(p, e, 13) == 13);
    assert(label_at(p, e, 12) == 13);
    assert(label_at(p, e, 11) == 13);
    assert(label_at(p, e, 10) == 13);
    assert(label_at(p, e, 9) == 13);
    assert(label_at(p, e, 8) == 13);
    assert(label_at(p, e, 7) == 13);
    assert(label_at(p, e, 6) == 13);
    assert(label_at(p, e, 5) == 13);
    assert(label_at(p, e, 4) == 13);
    assert(label_at(p, e, 3) == 13);
    assert(label_at(p, e, 2) == 13);
    assert(label_at(p, e, 1) == 13);
}

#[verifier::rlimit(100)]
#[verifier::spinoff_prover]
proof fn lemma_exec_compare(
    unit: Seq<char>,
    name: Seq<char>,
    j: Jump,
    n: nat,
    s: Hack,
    vars: Map<Seq<char>, int>,
)
    requires
        18 <= s.ram[0] < 0x10000,
    ensures
        ({
            let sp = s.ram[0];
            let d = w16(s.ram[sp - 2] - s.ram[sp - 1]);
            let v = if jump_holds(j, d) {
                0xFFFF
            } else {
                0
            };
            exec(compare_code(unit, name, j, n), 0, s, vars, 17) == (Hack {
                a: sp - 2,
                d: v,
                ram: s.ram.insert(0, sp - 1).insert(sp - 2, v),
            }, 17int)
        }),
{
    let p = compare_code(unit, name, j, n);
    lemma_compare_labels(unit, name, j, n);
    let sp = s.ram[0];
    let x = s.ram[sp - 2];
    let y = s.ram[sp - 1];
    let d = w16(x - y);
    let r1 = s.ram.insert(0, sp - 1);
    assert(w16(sp - 1) == sp - 1);
    assert(w16(sp - 1 - 1) == sp - 2);
    let s6 = Hack { a: sp - 2, d, ram: r1 };
    assert(exec(p, 0, s, vars, 17) == exec(p, 1, s, vars, 16));
    assert(exec(p, 1, s, vars, 16) == exec(p, 2, Hack { a: 0, ..s }, vars, 15));
    assert(exec(p, 2, Hack { a: 0, ..s }, vars, 15) == exec(p, 3, Hack { a: sp - 1, d: s.d, ram: r1 }, vars, 14));
    assert(exec(p, 3, Hack { a: sp - 1, d: s.d, ram: r1 }, vars, 14) == exec(p, 4, Hack { a: sp - 1, d: y, ram: r1 }, vars, 13));
    assert(exec(p, 4, Hack { a: sp - 1, d: y, ram: r1 }, vars, 13) == exec(p, 5, Hack { a: sp - 2, d: y, ram: r1 }, vars, 12));
    assert(exec(p, 5, Hack { a: sp - 2, d: y, ram: r1 }, vars, 12) == exec(p, 6, s6, vars, 11));
    let s7 = Hack { a: 11, ..s6 };
    assert(exec(p, 6, s6, vars, 11) == exec(p, 7, s7, vars, 10));
    let v = if jump_holds(j, d) { 0xFFFF } else { 0 };
    let last = Hack { a: sp - 2, d: v, ram: r1.insert(sp - 2, v) };
    if jump_holds(j, d) {
        assert(exec(p, 7, s7, vars, 10) == exec(p, 11, s7, vars, 9));
        assert(exec(p, 11, s7, vars, 9) == exec(p, 12, s7, vars, 8));
        let t = Hack { d: 0xFFFF, ..s7 };
        assert(exec(p, 12, s7, vars, 8) == exec(p, 13, t, vars, 7));
        assert(exec(p, 13, t, vars, 7) == exec(p, 14, t, vars, 6));
        assert(exec(p, 14, t, vars, 6) == exec(p, 15, Hack { a: 0, ..t }, vars, 5));
        assert(exec(p, 15, Hack { a: 0, ..t }, vars, 5) == exec(p, 16, Hack { a: sp - 2, ..t }, vars, 4));
        assert(exec(p, 16, Hack { a: sp - 2, ..t }, vars, 4) == exec(p, 17, last, vars, 3));
    } else {
        assert(exec(p, 7, s7, vars, 10) == exec(p, 8, s7, vars, 9));
        let t = Hack { d: 0, ..s7 };
        assert(exec(p, 8, s7, vars, 9) == exec(p, 9, t, vars, 8));
        let t2 = Hack { a: 13, ..t };
        assert(exec(p, 9, t, vars, 8) == exec(p, 10, t2, vars, 7));
        assert(exec(p, 10, t2, vars, 7) == exec(p, 13, t2, vars, 6));
        assert(exec(p, 13, t2, vars, 6) == exec(p, 14, t2, vars, 5));
        assert(exec(p, 14, t2, vars, 5) == exec(p, 15, Hack { a: 0, ..t2 }, vars, 4));
        assert(exec(p, 15, Hack { a: 0, ..t2 }, vars, 4) == exec(p, 16, Hack { a: sp - 2, ..t2 }, vars, 3));
        assert(exec(p, 16, Hack { a: sp - 2, ..t2 }, vars, 3) == exec(p, 17, last, vars, 2));
    }
}


proof fn lemma_signed_difference(c: CommandView, x: int, y: int)
    requires
        is_comparison(c),
        0 <= x < 0x10000,
        0 <= y < 0x10000,
        -0x8000 <= signed(x) - signed(y) < 0x8000,
    ensures
        jump_holds(compare_jump(c), w16(x - y)) == compare_holds(c, signed(x), signed(y)),
{
    let diff = signed(x) - signed(y);
    assert(x - y == diff || x - y == diff + 0x10000 || x - y == diff - 0x10000);
    if diff >= 0 {
        assert(w16(x - y) == diff);
    } else {
        assert(w16(x - y) == diff + 0x10000);
    }
    assert(signed(w16(x - y)) == diff);
}

/// `eq`, `gt` and `lt` each translate to a program that, run on a stack of at least two
/// words, pops both and pushes -1 (all bits set) when the test holds of the 16-bit
/// difference of the lower word `x` and the top word `y`, and 0 otherwise, never any other
/// word, and leaves every other cell as it found it. `eq` pushes -1 exactly when the two
/// words are equal; where the difference does not overflow, `gt` and `lt` are exactly
/// `x > y` and `x < y` on the words read as signed numbers.
pub proof fn comparison_pushes_truth(
    unit: Seq<char>,
    n: nat,
    c: CommandView,
    s: Hack,
    vars: Map<Seq<char>, int>,
)
    requires
        is_comparison(c),
        18 <= s.ram[0] < 0x10000,
        0 <= s.ram[s.ram[0] - 2] < 0x10000,
        0 <= s.ram[s.ram[0] - 1] < 0x10000,
    ensures
        command_lines(unit, n, c) == Ok::<Seq<Seq<char>>, TranslateError>(
            render_instrs(compare_code(unit, compare_name(c), compare_jump(c), n)),
        ),
        ({
            let sp = s.ram[0];
            let x = s.ram[sp - 2];
            let y = s.ram[sp - 1];
            let (t, pc) = exec(compare_code(unit, compare_name(c), compare_jump(c), n), 0, s, vars, 17);
            &&& pc == 17
            &&& t.ram[0] == sp - 1
            &&& t.ram[sp - 2] == 0xFFFF || t.ram[sp - 2] == 0
            &&& t.ram[sp - 2] == 0xFFFF <==> jump_holds(compare_jump(c), w16(x - y))
            &&& -0x8000 <= signed(x) - signed(y) < 0x8000 ==> (t.ram[sp - 2] == 0xFFFF
                <==> compare_holds(c, signed(x), signed(y)))
            &&& c is Eq ==> (t.ram[sp - 2] == 0xFFFF <==> x == y)
            &&& forall|k: int| k != 0 && k != sp - 2 ==> #[trigger] t.ram[k] == s.ram[k]
        }),
{
    let j = compare_jump(c);
    lemma_render_compare(unit, compare_name(c), j, n);
    reveal_strlit("EQ");
    reveal_strlit("GT");
    reveal_strlit("LT");
    lemma_exec_compare(unit, compare_name(c), j, n, s, vars);
    let sp = s.ram[0];
    let x = s.ram[sp - 2];
    let y = s.ram[sp - 1];
    if -0x8000 <= signed(x) - signed(y) < 0x8000 {
        lemma_signed_difference(c, x, y);
    }
    if x == y {
        assert(w16(x - y) == 0);
    } else if x > y {
        assert(w16(x - y) == x - y);
    } else {
        assert(w16(x - y) == x - y + 0x10000);
    }
}

/// `if-goto name`, wherever it stands in a program, pops the top word and then goes on at
/// the definition of the label `name` when that word is not zero, whatever its bits, and
/// at the next instruction when it is zero.
pub proof fn if_goto_branches_on_nonzero(
    unit: Seq<char>,
    name: Seq<char>,
    n: nat,
    before: Seq<Instr>,
    after: Seq<Instr>,
    s: Hack,
    vars: Map<Seq<char>, int>,
)
    requires
        17 <= s.ram[0] < 0x10000,
        0 <= s.ram[s.ram[0] - 1] < 0x10000,
    ensures
        command_lines(unit, n, CommandView::IfGoto(name)) == Ok::<Seq<Seq<char>>, TranslateError>(
            render_instrs(if_goto_code(unit, name)),
        ),
        ({
            let p = before + if_goto_code(unit, name) + after;
            let (t, pc) = exec(p, before.len() as int, s, vars, 6);
            &&& t.ram[0] == s.ram[0] - 1
            &&& pc == if s.ram[s.ram[0] - 1] != 0 {
                label_at(p, label_symbol(unit, name), 0)
            } else {
                before.len() as int + 6
            }
        }),
{
    lemma_render_if_goto(unit, name);
    let p = before + if_goto_code(unit, name) + after;
    let k = before.len() as int;
    let code = if_goto_code(unit, name);
    assert forall|i: int| 0 <= i < 6 implies p[k + i] == code[i] by {};
    let sp = s.ram[0];
    let x = s.ram[sp - 1];
    assert(w16(sp - 1) == sp - 1);
    let r1 = s.ram.insert(0, sp - 1);
    let target = label_at(p, label_symbol(unit, name), 0);
    assert(exec(p, k, s, vars, 6) == exec(p, k + 1, s, vars, 5));
    assert(exec(p, k + 1, s, vars, 5) == exec(p, k + 2, Hack { a: 0, ..s }, vars, 4));
    assert(exec(p, k + 2, Hack { a: 0, ..s }, vars, 4) == exec(p, k + 3, Hack { a: sp - 1, d: s.d, ram: r1 }, vars, 3));
    assert(exec(p, k + 3, Hack { a: sp - 1, d: s.d, ram: r1 }, vars, 3) == exec(p, k + 4, Hack { a: sp - 1, d: x, ram: r1 }, vars, 2));
    let t = Hack { a: target, d: x, ram: r1 };
    assert(exec(p, k + 4, Hack { a: sp - 1, d: x, ram: r1 }, vars, 2) == exec(p, k + 5, t, vars, 1));
    assert(jump_holds(Jump::Ne, x) == (x != 0));
    if x != 0 {
        assert(exec(p, k + 5, t, vars, 1) == exec(p, target, t, vars, 0));
    } else {
        assert(exec(p, k + 5, t, vars, 1) == exec(p, k + 6, t, vars, 0));
    }
}


/// `add`, `sub`, `and` and `or` each translate to a program that, run on any stack of at
/// least two words, pops the top word `y` and the word `x` below it and pushes the 16-bit
/// result of the operation on `x` and `y`, leaving every other cell as it found it.
pub proof fn binary_primitive_on_stack(
    unit: Seq<char>,
    n: nat,
    c: CommandView,
    s: Hack,
    vars: Map<Seq<char>, int>,
)
    requires
        is_binary(c),
        18 <= s.ram[0] < 0x10000,
    ensures
        command_lines(unit, n, c) == Ok::<Seq<Seq<char>>, TranslateError>(render(binary_code(c))),
        ({
            let sp = s.ram[0];
            let t = run(binary_code(c), s, vars);
            &&& t.ram[0] == sp - 1
            &&& t.ram[sp - 2] == binary_value(c, s.ram[sp - 2], s.ram[sp - 1])
            &&& forall|k: int| k != 0 && k != sp - 2 ==> #[trigger] t.ram[k] == s.ram[k]
        }),
{
    lemma_render_binary(c);
    lemma_run_binary(c, s, vars);
}

} // verus!
