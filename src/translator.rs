use vstd::prelude::*;

use crate::ast::{commands_view, segment_name, strings_view, Command, CommandView, Segment};
use crate::text::{decimal, decimal_string, join2, join3, lemma_decimal_injective};

verus! {

/// Why a command could not be translated.
#[derive(Debug, PartialEq, Eq, Clone, Copy, Structural)]
pub enum TranslateError {
    /// `pointer` takes only the indices 0 and 1.
    InvalidPointer(u16),
    /// `temp` takes only the indices 0 to 7.
    InvalidTemp(u16),
    /// A constant cannot be the target of a `pop`.
    PopConstant,
}

/// The register holding the base address of a based segment.
pub open spec fn base_register(seg: Segment) -> Seq<char> {
    match seg {
        Segment::Local => "LCL"@,
        Segment::Argument => "ARG"@,
        Segment::This => "THIS"@,
        _ => "THAT"@,
    }
}

/// Whether a segment is addressed relative to a base register.
pub open spec fn is_based(seg: Segment) -> bool {
    seg == Segment::Local || seg == Segment::Argument || seg == Segment::This || seg
        == Segment::That
}

/// The address line `@sym`.
pub open spec fn at_line(sym: Seq<char>) -> Seq<char> {
    "@"@ + sym
}

/// The line that defines the label `sym`.
pub open spec fn label_def(sym: Seq<char>) -> Seq<char> {
    "("@ + sym + ")"@
}

/// The storage symbol of `static i` in unit `unit`.
pub open spec fn static_symbol(unit: Seq<char>, i: nat) -> Seq<char> {
    unit + "."@ + decimal(i)
}

/// The register that holds `temp i`, for the indices 0 to 7 of the temp window.
pub open spec fn temp_symbol(i: nat) -> Seq<char> {
    "R"@ + decimal(i + 5)
}

/// The register that `pointer i` names, for the two valid indices.
pub open spec fn pointer_symbol(i: nat) -> Option<Seq<char>> {
    if i == 0 {
        Some("THIS"@)
    } else if i == 1 {
        Some("THAT"@)
    } else {
        None
    }
}

/// The symbol of the user label `name` in unit `unit`.
pub open spec fn label_symbol(unit: Seq<char>, name: Seq<char>) -> Seq<char> {
    unit + ":LABEL_"@ + name
}

/// The label a comparison numbered `n` jumps to when its test holds.
pub open spec fn compare_symbol(unit: Seq<char>, n: nat) -> Seq<char> {
    unit + ":CMP_"@ + decimal(n)
}

/// The label that ends the comparison numbered `n`.
pub open spec fn end_compare_symbol(unit: Seq<char>, n: nat) -> Seq<char> {
    unit + ":ENDCMP_"@ + decimal(n)
}

/// The comment line `// <op> <segment> <i>`.
pub open spec fn stack_comment(op: Seq<char>, name: Seq<char>, i: nat) -> Seq<char> {
    "// "@ + op + " "@ + name + " "@ + decimal(i)
}

/// `push constant i`.
pub open spec fn constant_push_lines(i: nat) -> Seq<Seq<char>> {
    seq![
        stack_comment("push"@, "constant"@, i),
        at_line(decimal(i)),
        "D=A"@,
        "@SP"@,
        "A=M"@,
        "M=D"@,
        "@SP"@,
        "M=M+1"@,
    ]
}

/// Push of a based segment whose base register is `base`.
pub open spec fn based_push_lines(name: Seq<char>, base: Seq<char>, i: nat) -> Seq<Seq<char>> {
    seq![
        stack_comment("push"@, name, i),
        at_line(base),
        "D=M"@,
        at_line(decimal(i)),
        "A=A+D"@,
        "D=M"@,
        "@SP"@,
        "M=M+1"@,
        "A=M-1"@,
        "M=D"@,
    ]
}

/// Push of the cell named `sym`.
pub open spec fn direct_push_lines(name: Seq<char>, i: nat, sym: Seq<char>) -> Seq<Seq<char>> {
    seq![
        stack_comment("push"@, name, i),
        at_line(sym),
        "D=M"@,
        "@SP"@,
        "M=M+1"@,
        "A=M-1"@,
        "M=D"@,
    ]
}

/// Pop into a based segment whose base register is `base`.
pub open spec fn based_pop_lines(name: Seq<char>, base: Seq<char>, i: nat) -> Seq<Seq<char>> {
    seq![
        stack_comment("pop"@, name, i),
        at_line(base),
        "D=M"@,
        at_line(decimal(i)),
        "D=A+D"@,
        "@R13"@,
        "M=D"@,
        "@SP"@,
        "AM=M-1"@,
        "D=M"@,
        "@R13"@,
        "A=M"@,
        "M=D"@,
    ]
}

/// Pop into the cell named `sym`.
pub open spec fn direct_pop_lines(name: Seq<char>, i: nat, sym: Seq<char>) -> Seq<Seq<char>> {
    seq![
        stack_comment("pop"@, name, i),
        "@SP"@,
        "AM=M-1"@,
        "D=M"@,
        at_line(sym),
        "M=D"@,
    ]
}

/// The lines of `push seg i` in unit `unit`.
pub open spec fn push_lines(unit: Seq<char>, seg: Segment, i: u16) -> Result<
    Seq<Seq<char>>,
    TranslateError,
> {
    let n = i as nat;
    match seg {
        Segment::Constant => Ok(constant_push_lines(n)),
        Segment::Static => Ok(direct_push_lines(segment_name(seg), n, static_symbol(unit, n))),
        Segment::Temp => if n <= 7 {
            Ok(direct_push_lines(segment_name(seg), n, temp_symbol(n)))
        } else {
            Err(TranslateError::InvalidTemp(i))
        },
        Segment::Pointer => match pointer_symbol(n) {
            Some(sym) => Ok(direct_push_lines(segment_name(seg), n, sym)),
            None => Err(TranslateError::InvalidPointer(i)),
        },
        _ => Ok(based_push_lines(segment_name(seg), base_register(seg), n)),
    }
}

/// The lines of `pop seg i` in unit `unit`.
pub open spec fn pop_lines(unit: Seq<char>, seg: Segment, i: u16) -> Result<
    Seq<Seq<char>>,
    TranslateError,
> {
    let n = i as nat;
    match seg {
        Segment::Constant => Err(TranslateError::PopConstant),
        Segment::Static => Ok(direct_pop_lines(segment_name(seg), n, static_symbol(unit, n))),
        Segment::Temp => if n <= 7 {
            Ok(direct_pop_lines(segment_name(seg), n, temp_symbol(n)))
        } else {
            Err(TranslateError::InvalidTemp(i))
        },
        Segment::Pointer => match pointer_symbol(n) {
            Some(sym) => Ok(direct_pop_lines(segment_name(seg), n, sym)),
            None => Err(TranslateError::InvalidPointer(i)),
        },
        _ => Ok(based_pop_lines(segment_name(seg), base_register(seg), n)),
    }
}

/// A one-operand primitive that rewrites the top slot with `op` applied.
pub open spec fn unary_lines(name: Seq<char>, op: Seq<char>) -> Seq<Seq<char>> {
    seq!["// "@ + name, "@SP"@, "A=M-1"@, "M="@ + op + "M"@]
}

/// A two-operand primitive that combines the top two slots with `op`.
pub open spec fn binary_lines(name: Seq<char>, op: Seq<char>) -> Seq<Seq<char>> {
    seq!["// "@ + name, "@SP"@, "AM=M-1"@, "D=M"@, "A=A-1"@, "M=M"@ + op + "D"@]
}

/// The comparison numbered `n`, pushing -1 when `jump` holds of the difference and 0 otherwise.
pub open spec fn compare_lines(unit: Seq<char>, name: Seq<char>, jump: Seq<char>, n: nat) -> Seq<
    Seq<char>,
> {
    seq![
        "// "@ + name,
        "@SP"@,
        "AM=M-1"@,
        "D=M"@,
        "A=A-1"@,
        "D=M-D"@,
        at_line(compare_symbol(unit, n)),
        "D;J"@ + jump,
        "D=0"@,
        at_line(end_compare_symbol(unit, n)),
        "0;JMP"@,
        label_def(compare_symbol(unit, n)),
        "D=-1"@,
        label_def(end_compare_symbol(unit, n)),
        "@SP"@,
        "A=M-1"@,
        "M=D"@,
    ]
}

/// `label name`.
pub open spec fn label_lines(unit: Seq<char>, name: Seq<char>) -> Seq<Seq<char>> {
    seq!["// label "@ + name, label_def(label_symbol(unit, name))]
}

/// `goto name`.
pub open spec fn goto_lines(unit: Seq<char>, name: Seq<char>) -> Seq<Seq<char>> {
    seq!["// goto "@ + name, at_line(label_symbol(unit, name)), "0;JMP"@]
}

/// `if-goto name`: pops the top slot and jumps when it is not zero.
pub open spec fn if_goto_lines(unit: Seq<char>, name: Seq<char>) -> Seq<Seq<char>> {
    seq![
        "// if-goto "@ + name,
        "@SP"@,
        "AM=M-1"@,
        "D=M"@,
        at_line(label_symbol(unit, name)),
        "D;JNE"@,
    ]
}

/// Whether a command draws a fresh pair of comparison labels.
pub open spec fn is_comparison(c: CommandView) -> bool {
    c is Eq || c is Gt || c is Lt
}

/// How far a command advances the label counter.
pub open spec fn counter_step(c: CommandView) -> nat {
    if is_comparison(c) {
        1
    } else {
        0
    }
}

/// The lines of one command, translated in unit `unit` with the label counter at `n`.
pub open spec fn command_lines(unit: Seq<char>, n: nat, c: CommandView) -> Result<
    Seq<Seq<char>>,
    TranslateError,
> {
    match c {
        CommandView::Push(seg, i) => push_lines(unit, seg, i),
        CommandView::Pop(seg, i) => pop_lines(unit, seg, i),
        CommandView::Not => Ok(unary_lines("not"@, "!"@)),
        CommandView::Neg => Ok(unary_lines("neg"@, "-"@)),
        CommandView::Add => Ok(binary_lines("add"@, "+"@)),
        CommandView::Sub => Ok(binary_lines("sub"@, "-"@)),
        CommandView::And => Ok(binary_lines("and"@, "&"@)),
        CommandView::Or => Ok(binary_lines("or"@, "|"@)),
        CommandView::Eq => Ok(compare_lines(unit, "eq"@, "EQ"@, n)),
        CommandView::Gt => Ok(compare_lines(unit, "gt"@, "GT"@, n)),
        CommandView::Lt => Ok(compare_lines(unit, "lt"@, "LT"@, n)),
        CommandView::Label(name) => Ok(label_lines(unit, name)),
        CommandView::Goto(name) => Ok(goto_lines(unit, name)),
        CommandView::IfGoto(name) => Ok(if_goto_lines(unit, name)),
    }
}

/// Translation of `cmds` in order, in unit `unit`, with the label counter starting at `n`:
/// the lines of every block one after another, or the error of the first command that
/// fails; beside it, the counter after the commands translated.
pub open spec fn translation(unit: Seq<char>, n: nat, cmds: Seq<CommandView>) -> (
    Result<Seq<Seq<char>>, TranslateError>,
    nat,
)
    decreases cmds.len(),
{
    if cmds.len() == 0 {
        (Ok(Seq::empty()), n)
    } else {
        let (prev, m) = translation(unit, n, cmds.drop_last());
        match prev {
            Err(e) => (Err(e), m),
            Ok(lines) => match command_lines(unit, m, cmds.last()) {
                Ok(block) => (Ok(lines + block), m + counter_step(cmds.last())),
                Err(e) => (Err(e), m),
            },
        }
    }
}

/// The lines that a `Result` of strings holds, seen as character sequences.
pub open spec fn lines_result(r: Result<Vec<String>, TranslateError>) -> Result<
    Seq<Seq<char>>,
    TranslateError,
> {
    match r {
        Ok(v) => Ok(strings_view(v@)),
        Err(e) => Err(e),
    }
}


fn at_c(arg: u16) -> (r: String)
    ensures
        r@ == at_line(decimal(arg as nat)),
{
    let d = decimal_string(arg as u64);
    join2("@", d.as_str())
}

fn at_s(arg: &str) -> (r: String)
    ensures
        r@ == at_line(arg@),
{
    join2("@", arg)
}

fn pointer_arg(arg: u16) -> (r: Result<String, TranslateError>)
    ensures
        match pointer_symbol(arg as nat) {
            Some(sym) => r matches Ok(s) && s@ == sym,
            None => r == Err::<String, TranslateError>(TranslateError::InvalidPointer(arg)),
        },
{
    if arg == 0 {
        Ok(String::from_str("THIS"))
    } else if arg == 1 {
        Ok(String::from_str("THAT"))
    } else {
        Err(TranslateError::InvalidPointer(arg))
    }
}

fn stack_comment_line(op: &str, seg_name: &str, arg: u16) -> (r: String)
    ensures
        r@ == stack_comment(op@, seg_name@, arg as nat),
{
    let d = decimal_string(arg as u64);
    let s = join3("// ", op, " ");
    let s = s.concat(seg_name);
    let s = s.concat(" ");
    s.concat(d.as_str())
}

/// Push microcode for the based segments.
fn seg_push(seg_name: &str, seg: &str, arg: u16) -> (r: Vec<String>)
    ensures
        strings_view(r@) == based_push_lines(seg_name@, seg@, arg as nat),
{
    let r = vec![
        stack_comment_line("push", seg_name, arg),
        at_s(seg),
        String::from_str("D=M"),
        at_c(arg),
        String::from_str("A=A+D"),
        String::from_str("D=M"),
        String::from_str("@SP"),
        String::from_str("M=M+1"),
        String::from_str("A=M-1"),
        String::from_str("M=D"),
    ];
    assert(strings_view(r@) =~= based_push_lines(seg_name@, seg@, arg as nat));
    r
}

fn seg_push_direct(seg_name: &str, arg: u16, label: String) -> (r: Vec<String>)
    ensures
        strings_view(r@) == direct_push_lines(seg_name@, arg as nat, label@),
{
    let r = vec![
        stack_comment_line("push", seg_name, arg),
        at_s(label.as_str()),
        String::from_str("D=M"),
        String::from_str("@SP"),
        String::from_str("M=M+1"),
        String::from_str("A=M-1"),
        String::from_str("M=D"),
    ];
    assert(strings_view(r@) =~= direct_push_lines(seg_name@, arg as nat, label@));
    r
}

fn seg_pop(seg_name: &str, seg: &str, arg: u16) -> (r: Vec<String>)
    ensures
        strings_view(r@) == based_pop_lines(seg_name@, seg@, arg as nat),
{
    let r = vec![
        stack_comment_line("pop", seg_name, arg),
        at_s(seg),
        String::from_str("D=M"),
        at_c(arg),
        String::from_str("D=A+D"),
        String::from_str("@R13"),
        String::from_str("M=D"),
        String::from_str("@SP"),
        String::from_str("AM=M-1"),
        String::from_str("D=M"),
        String::from_str("@R13"),
        String::from_str("A=M"),
        String::from_str("M=D"),
    ];
    assert(strings_view(r@) =~= based_pop_lines(seg_name@, seg@, arg as nat));
    r
}

fn seg_pop_direct(seg_name: &str, arg: u16, label: String) -> (r: Vec<String>)
    ensures
        strings_view(r@) == direct_pop_lines(seg_name@, arg as nat, label@),
{
    let r = vec![
        stack_comment_line("pop", seg_name, arg),
        String::from_str("@SP"),
        String::from_str("AM=M-1"),
        String::from_str("D=M"),
        at_s(label.as_str()),
        String::from_str("M=D"),
    ];
    assert(strings_view(r@) =~= direct_pop_lines(seg_name@, arg as nat, label@));
    r
}

fn simple_un_op(name: &str, op: &str) -> (r: Vec<String>)
    ensures
        strings_view(r@) == unary_lines(name@, op@),
{
    let r = vec![join2("// ", name), String::from_str("@SP"), String::from_str("A=M-1"), join3("M=", op, "M")];
    assert(strings_view(r@) =~= unary_lines(name@, op@));
    r
}

/// A primitive with no condition or jump: pop, combine, overwrite.
fn simple_bin_op(name: &str, op: &str) -> (r: Vec<String>)
    ensures
        strings_view(r@) == binary_lines(name@, op@),
{
    let r = vec![
        join2("// ", name),
        String::from_str("@SP"),
        String::from_str("AM=M-1"),
        String::from_str("D=M"),
        String::from_str("A=A-1"),
        join3("M=M", op, "D"),
    ];
    assert(strings_view(r@) =~= binary_lines(name@, op@));
    r
}

fn static_label(unit: &str, arg: u16) -> (r: String)
    ensures
        r@ == static_symbol(unit@, arg as nat),
{
    let d = decimal_string(arg as u64);
    join3(unit, ".", d.as_str())
}

fn temp_label(arg: u16) -> (r: String)
    ensures
        r@ == temp_symbol(arg as nat),
{
    let d = decimal_string(arg as u64 + 5);
    join2("R", d.as_str())
}


fn segment_keyword(seg: Segment) -> (r: &'static str)
    ensures
        r@ == segment_name(seg),
{
    match seg {
        Segment::Constant => "constant",
        Segment::Local => "local",
        Segment::Static => "static",
        Segment::Argument => "argument",
        Segment::This => "this",
        Segment::That => "that",
        Segment::Pointer => "pointer",
        Segment::Temp => "temp",
    }
}

/// Translates commands of one unit into assembly lines. The unit's name
/// namespaces its static cells and labels; a counter numbers the label pairs
/// of comparisons so that no two of them collide.
pub struct Translator<'a> {
    assembly: &'a str,
    gen_sym: usize,
}

impl<'a> Translator<'a> {
    /// The name of the unit being translated.
    pub closed spec fn unit(&self) -> Seq<char> {
        self.assembly@
    }

    /// The number of comparison label pairs drawn so far.
    pub closed spec fn counter(&self) -> nat {
        self.gen_sym as nat
    }

    pub fn new(assembly: &'a str) -> (r: Self)
        ensures
            r.unit() == assembly@,
            r.counter() == 0,
    {
        Translator { assembly, gen_sym: 0 }
    }

    fn next_gen_sym(&mut self) -> (r: usize)
        requires
            old(self).counter() < usize::MAX,
        ensures
            r as nat == old(self).counter(),
            final(self).counter() == old(self).counter() + 1,
            final(self).unit() == old(self).unit(),
    {
        let tmp = self.gen_sym;
        self.gen_sym = self.gen_sym + 1;
        tmp
    }

    fn push(&self, segment: Segment, arg: u16) -> (r: Result<Vec<String>, TranslateError>)
        ensures
            lines_result(r) == push_lines(self.unit(), segment, arg),
    {
        let name = segment_keyword(segment);
        match segment {
            Segment::Constant => {
                let r = vec![
                    stack_comment_line("push", name, arg),
                    at_c(arg),
                    String::from_str("D=A"),
                    String::from_str("@SP"),
                    String::from_str("A=M"),
                    String::from_str("M=D"),
                    String::from_str("@SP"),
                    String::from_str("M=M+1"),
                ];
                assert(strings_view(r@) =~= constant_push_lines(arg as nat));
                Ok(r)
            },
            Segment::Local => Ok(seg_push(name, "LCL", arg)),
            Segment::Argument => Ok(seg_push(name, "ARG", arg)),
            Segment::This => Ok(seg_push(name, "THIS", arg)),
            Segment::That => Ok(seg_push(name, "THAT", arg)),
            Segment::Static => Ok(seg_push_direct(name, arg, static_label(self.assembly, arg))),
            Segment::Temp => if arg <= 7 {
                Ok(seg_push_direct(name, arg, temp_label(arg)))
            } else {
                Err(TranslateError::InvalidTemp(arg))
            },
            Segment::Pointer => match pointer_arg(arg) {
                Ok(sym) => Ok(seg_push_direct(name, arg, sym)),
                Err(e) => Err(e),
            },
        }
    }

    fn pop(&self, segment: Segment, arg: u16) -> (r: Result<Vec<String>, TranslateError>)
        ensures
            lines_result(r) == pop_lines(self.unit(), segment, arg),
    {
        let name = segment_keyword(segment);
        match segment {
            Segment::Constant => Err(TranslateError::PopConstant),
            Segment::Local => Ok(seg_pop(name, "LCL", arg)),
            Segment::Argument => Ok(seg_pop(name, "ARG", arg)),
            Segment::This => Ok(seg_pop(name, "THIS", arg)),
            Segment::That => Ok(seg_pop(name, "THAT", arg)),
            Segment::Static => Ok(seg_pop_direct(name, arg, static_label(self.assembly, arg))),
            Segment::Temp => if arg <= 7 {
                Ok(seg_pop_direct(name, arg, temp_label(arg)))
            } else {
                Err(TranslateError::InvalidTemp(arg))
            },
            Segment::Pointer => match pointer_arg(arg) {
                Ok(sym) => Ok(seg_pop_direct(name, arg, sym)),
                Err(e) => Err(e),
            },
        }
    }

    fn compare(&mut self, cmp_name: &str, jump: &str) -> (r: Vec<String>)
        requires
            old(self).counter() < usize::MAX,
        ensures
            strings_view(r@) == compare_lines(old(self).unit(), cmp_name@, jump@, old(self).counter()),
            final(self).counter() == old(self).counter() + 1,
            final(self).unit() == old(self).unit(),
    {
        let sym = self.next_gen_sym();
        let d = decimal_string(sym as u64);
        let cmp_sym = join3(self.assembly, ":CMP_", d.as_str());
        let end_sym = join3(self.assembly, ":ENDCMP_", d.as_str());
        let r = vec![
            join2("// ", cmp_name),
            String::from_str("@SP"),
            String::from_str("AM=M-1"),
            String::from_str("D=M"),
            String::from_str("A=A-1"),
            String::from_str("D=M-D"),
            at_s(cmp_sym.as_str()),
            join2("D;J", jump),
            String::from_str("D=0"),
            at_s(end_sym.as_str()),
            String::from_str("0;JMP"),
            join3("(", cmp_sym.as_str(), ")"),
            String::from_str("D=-1"),
            join3("(", end_sym.as_str(), ")"),
            String::from_str("@SP"),
            String::from_str("A=M-1"),
            String::from_str("M=D"),
        ];
        assert(strings_view(r@) =~= compare_lines(self.unit(), cmp_name@, jump@, sym as nat));
        r
    }

    /// The assembly symbol of a label, shared by every instruction that names it.
    fn label_to_sym(&self, label: &str) -> (r: String)
        ensures
            r@ == label_symbol(self.unit(), label@),
    {
        join3(self.assembly, ":LABEL_", label)
    }

    fn label(&self, label: &str) -> (r: Vec<String>)
        ensures
            strings_view(r@) == label_lines(self.unit(), label@),
    {
        let sym = self.label_to_sym(label);
        let r = vec![join2("// label ", label), join3("(", sym.as_str(), ")")];
        assert(strings_view(r@) =~= label_lines(self.unit(), label@));
        r
    }

    fn goto(&self, label: &str) -> (r: Vec<String>)
        ensures
            strings_view(r@) == goto_lines(self.unit(), label@),
    {
        let sym = self.label_to_sym(label);
        let r = vec![join2("// goto ", label), at_s(sym.as_str()), String::from_str("0;JMP")];
        assert(strings_view(r@) =~= goto_lines(self.unit(), label@));
        r
    }

    fn if_goto(&self, label: &str) -> (r: Vec<String>)
        ensures
            strings_view(r@) == if_goto_lines(self.unit(), label@),
    {
        let sym = self.label_to_sym(label);
        let r = vec![
            join2("// if-goto ", label),
            String::from_str("@SP"),
            String::from_str("AM=M-1"),
            String::from_str("D=M"),
            at_s(sym.as_str()),
            String::from_str("D;JNE"),
        ];
        assert(strings_view(r@) =~= if_goto_lines(self.unit(), label@));
        r
    }

    /// Translates one command.
    fn command(&mut self, command: &Command) -> (r: Result<Vec<String>, TranslateError>)
        requires
            old(self).counter() < usize::MAX,
        ensures
            lines_result(r) == command_lines(old(self).unit(), old(self).counter(), command@),
            final(self).unit() == old(self).unit(),
            final(self).counter() == old(self).counter() + match r {
                Ok(_) => counter_step(command@),
                Err(_) => 0,
            },
    {
        match command {
            Command::Push(seg, arg) => self.push(*seg, *arg),
            Command::Pop(seg, arg) => self.pop(*seg, *arg),
            Command::Not => Ok(simple_un_op("not", "!")),
            Command::Neg => Ok(simple_un_op("neg", "-")),
            Command::Add => Ok(simple_bin_op("add", "+")),
            Command::Sub => Ok(simple_bin_op("sub", "-")),
            Command::And => Ok(simple_bin_op("and", "&")),
            Command::Or => Ok(simple_bin_op("or", "|")),
            Command::Eq => Ok(self.compare("eq", "EQ")),
            Command::Gt => Ok(self.compare("gt", "GT")),
            Command::Lt => Ok(self.compare("lt", "LT")),
            Command::Label(sym) => Ok(self.label(sym.as_str())),
            Command::Goto(sym) => Ok(self.goto(sym.as_str())),
            Command::IfGoto(sym) => Ok(self.if_goto(sym.as_str())),
        }
    }

    /// Translates `commands` in order: the lines of every command, each block
    /// opened by a comment that restates it, or the error of the first command
    /// that cannot be translated, with no lines at all.
    pub fn translate(&mut self, commands: &Vec<Command>) -> (r: Result<Vec<String>, TranslateError>)
        requires
            old(self).counter() + commands.len() <= usize::MAX,
        ensures
            (lines_result(r), final(self).counter()) == translation(
                old(self).unit(),
                old(self).counter(),
                commands_view(commands@),
            ),
            final(self).unit() == old(self).unit(),
    {
        let ghost n0 = self.counter();
        let ghost cmds = commands_view(commands@);
        let mut instructions: Vec<String> = Vec::new();
        let mut i: usize = 0;
        assert(cmds.take(0) =~= Seq::<CommandView>::empty());
        assert(strings_view(instructions@) =~= Seq::<Seq<char>>::empty());
        while i < commands.len()
            invariant
                i <= commands.len(),
                cmds == commands_view(commands@),
                self.unit() == old(self).unit(),
                self.counter() <= n0 + i,
                n0 == old(self).counter(),
                n0 + commands.len() <= usize::MAX,
                (Ok::<Seq<Seq<char>>, TranslateError>(strings_view(instructions@)), self.counter())
                    == translation(self.unit(), n0, cmds.take(i as int)),
            decreases commands.len() - i,
        {
            let ghost before = instructions@;
            assert(cmds.take(i as int + 1).drop_last() =~= cmds.take(i as int));
            match self.command(&commands[i]) {
                Ok(mut translated) => {
                    let ghost block = translated@;
                    instructions.append(&mut translated);
                    assert(strings_view(instructions@) =~= strings_view(before) + strings_view(
                        block,
                    ));
                },
                Err(e) => {
                    proof {
                        lemma_translation_error_persists(self.unit(), n0, cmds, i as int + 1);
                    }
                    return Err(e);
                },
            }
            i = i + 1;
        }
        assert(cmds.take(i as int) =~= cmds);
        Ok(instructions)
    }
}

/// Once a prefix of the commands fails, every longer prefix fails with the same error.
proof fn lemma_translation_error_persists(unit: Seq<char>, n: nat, cmds: Seq<CommandView>, k: int)
    requires
        0 <= k <= cmds.len(),
        translation(unit, n, cmds.take(k)).0 is Err,
    ensures
        translation(unit, n, cmds) == translation(unit, n, cmds.take(k)),
    decreases cmds.len() - k,
{
    if k < cmds.len() {
        assert(cmds.take(k + 1).drop_last() =~= cmds.take(k));
        lemma_translation_error_persists(unit, n, cmds, k + 1);
    } else {
        assert(cmds.take(k) =~= cmds);
    }
}


/// The label counter when the command at position `k` of `cmds` is translated.
pub open spec fn counter_at(unit: Seq<char>, n: nat, cmds: Seq<CommandView>, k: int) -> nat {
    translation(unit, n, cmds.take(k)).1
}

/// Where a whole sequence translates, each of its prefixes translates, and the command
/// at position `k` advances the counter by its own step.
proof fn lemma_translation_step(unit: Seq<char>, n: nat, cmds: Seq<CommandView>, k: int)
    requires
        0 <= k < cmds.len(),
        translation(unit, n, cmds).0 is Ok,
    ensures
        translation(unit, n, cmds.take(k)).0 is Ok,
        command_lines(unit, counter_at(unit, n, cmds, k), cmds[k]) is Ok,
        counter_at(unit, n, cmds, k + 1) == counter_at(unit, n, cmds, k) + counter_step(cmds[k]),
{
    assert(cmds.take(k + 1).drop_last() =~= cmds.take(k));
    if translation(unit, n, cmds.take(k)).0 is Err {
        lemma_translation_error_persists(unit, n, cmds, k);
    }
    if translation(unit, n, cmds.take(k + 1)).0 is Err {
        lemma_translation_error_persists(unit, n, cmds, k + 1);
    }
}

/// The counter never goes back along a sequence that translates, and passes each comparison.
proof fn lemma_counter_grows(unit: Seq<char>, n: nat, cmds: Seq<CommandView>, k: int, j: int)
    requires
        0 <= k < j <= cmds.len(),
        translation(unit, n, cmds).0 is Ok,
    ensures
        counter_at(unit, n, cmds, k) + counter_step(cmds[k]) <= counter_at(unit, n, cmds, j),
    decreases j - k,
{
    lemma_translation_step(unit, n, cmds, k);
    if k + 1 < j {
        lemma_counter_grows(unit, n, cmds, k + 1, j);
    }
}

proof fn lemma_prefixed_decimal(unit: Seq<char>, tag: Seq<char>, a: nat, b: nat)
    requires
        unit + tag + decimal(a) == unit + tag + decimal(b),
    ensures
        a == b,
{
    let p = (unit.len() + tag.len()) as int;
    assert((unit + tag + decimal(a)).skip(p) =~= decimal(a));
    assert((unit + tag + decimal(b)).skip(p) =~= decimal(b));
    lemma_decimal_injective(a, b);
}

pub(crate) proof fn lemma_compare_tags_differ(unit: Seq<char>, a: nat, b: nat)
    ensures
        compare_symbol(unit, a) != end_compare_symbol(unit, b),
{
    reveal_strlit(":CMP_");
    reveal_strlit(":ENDCMP_");
    let i = unit.len() as int + 1;
    assert(compare_symbol(unit, a)[i] == 'C');
    assert(end_compare_symbol(unit, b)[i] == 'E');
}

/// Two comparisons at different positions of a sequence that translates draw
/// different labels: neither the jump target nor the end label of one equals any label
/// of the other, though the two commands may be the same.
pub proof fn comparison_labels_are_unique(
    unit: Seq<char>,
    n: nat,
    cmds: Seq<CommandView>,
    k: int,
    j: int,
)
    requires
        0 <= k < j < cmds.len(),
        is_comparison(cmds[k]),
        is_comparison(cmds[j]),
        translation(unit, n, cmds).0 is Ok,
    ensures
        ({
            let a = counter_at(unit, n, cmds, k);
            let b = counter_at(unit, n, cmds, j);
            &&& compare_symbol(unit, a) != compare_symbol(unit, b)
            &&& end_compare_symbol(unit, a) != end_compare_symbol(unit, b)
            &&& compare_symbol(unit, a) != end_compare_symbol(unit, b)
            &&& end_compare_symbol(unit, a) != compare_symbol(unit, b)
            &&& compare_symbol(unit, a) != end_compare_symbol(unit, a)
        }),
{
    let a = counter_at(unit, n, cmds, k);
    let b = counter_at(unit, n, cmds, j);
    lemma_counter_grows(unit, n, cmds, k, j);
    if compare_symbol(unit, a) == compare_symbol(unit, b) {
        lemma_prefixed_decimal(unit, ":CMP_"@, a, b);
    }
    if end_compare_symbol(unit, a) == end_compare_symbol(unit, b) {
        lemma_prefixed_decimal(unit, ":ENDCMP_"@, a, b);
    }
    lemma_compare_tags_differ(unit, a, b);
    lemma_compare_tags_differ(unit, b, a);
    lemma_compare_tags_differ(unit, a, a);
}

/// Two calls of `translate` on one translator draw different comparison labels. The
/// second call starts with the counter that the first call left, and no comparison of
/// its sequence shares a label with a comparison of the first sequence.
pub proof fn comparison_labels_are_unique_across_calls(
    unit: Seq<char>,
    n: nat,
    first: Seq<CommandView>,
    second: Seq<CommandView>,
    k: int,
    j: int,
)
    requires
        0 <= k < first.len(),
        0 <= j < second.len(),
        is_comparison(first[k]),
        is_comparison(second[j]),
        translation(unit, n, first).0 is Ok,
        translation(unit, translation(unit, n, first).1, second).0 is Ok,
    ensures
        ({
            let m = translation(unit, n, first).1;
            let a = counter_at(unit, n, first, k);
            let b = counter_at(unit, m, second, j);
            &&& compare_symbol(unit, a) != compare_symbol(unit, b)
            &&& end_compare_symbol(unit, a) != end_compare_symbol(unit, b)
            &&& compare_symbol(unit, a) != end_compare_symbol(unit, b)
            &&& end_compare_symbol(unit, a) != compare_symbol(unit, b)
        }),
{
    let m = translation(unit, n, first).1;
    let a = counter_at(unit, n, first, k);
    let b = counter_at(unit, m, second, j);
    lemma_counter_grows(unit, n, first, k, first.len() as int);
    assert(first.take(first.len() as int) =~= first);
    assert(second.take(0) =~= Seq::<CommandView>::empty());
    if j > 0 {
        lemma_counter_grows(unit, m, second, 0, j);
    }
    assert(a < b);
    if compare_symbol(unit, a) == compare_symbol(unit, b) {
        lemma_prefixed_decimal(unit, ":CMP_"@, a, b);
    }
    if end_compare_symbol(unit, a) == end_compare_symbol(unit, b) {
        lemma_prefixed_decimal(unit, ":ENDCMP_"@, a, b);
    }
    lemma_compare_tags_differ(unit, a, b);
    lemma_compare_tags_differ(unit, b, a);
}

/// A `goto` or `if-goto` jumps to the very symbol that a `label` of the same name
/// defines, wherever the two stand in the sequence, the label before or after.
pub proof fn branches_reach_their_label(
    unit: Seq<char>,
    n: nat,
    cmds: Seq<CommandView>,
    k: int,
    j: int,
    name: Seq<char>,
)
    requires
        0 <= k < cmds.len(),
        0 <= j < cmds.len(),
        cmds[k] == CommandView::Goto(name) || cmds[k] == CommandView::IfGoto(name),
        cmds[j] == CommandView::Label(name),
        translation(unit, n, cmds).0 is Ok,
    ensures
        command_lines(unit, counter_at(unit, n, cmds, j), cmds[j]) == Ok::<
            Seq<Seq<char>>,
            TranslateError,
        >(label_lines(unit, name)),
        label_lines(unit, name)[1] == label_def(label_symbol(unit, name)),
        command_lines(unit, counter_at(unit, n, cmds, k), cmds[k]) matches Ok(block) && block.contains(
            at_line(label_symbol(unit, name)),
        ),
{
    let block = if cmds[k] is Goto {
        goto_lines(unit, name)
    } else {
        if_goto_lines(unit, name)
    };
    if cmds[k] is Goto {
        assert(block[1] == at_line(label_symbol(unit, name)));
    } else {
        assert(block[4] == at_line(label_symbol(unit, name)));
    }
}

/// Two units with different names keep their statics apart: the same `static` index
/// names different cells, and push and pop address those cells.
pub proof fn statics_are_private_to_their_unit(u1: Seq<char>, u2: Seq<char>, i: u16)
    requires
        u1 != u2,
    ensures
        static_symbol(u1, i as nat) != static_symbol(u2, i as nat),
        push_lines(u1, Segment::Static, i) matches Ok(block) && block[1] == at_line(
            static_symbol(u1, i as nat),
        ),
        pop_lines(u1, Segment::Static, i) matches Ok(block) && block[4] == at_line(
            static_symbol(u1, i as nat),
        ),
{
    let tail = "."@ + decimal(i as nat);
    assert(static_symbol(u1, i as nat) =~= u1 + tail);
    assert(static_symbol(u2, i as nat) =~= u2 + tail);
    if u1 + tail == u2 + tail {
        assert((u1 + tail).take(u1.len() as int) =~= u1);
        assert((u2 + tail).take(u2.len() as int) =~= u2);
    }
}


/// The first character of a line, or a space for an empty line.
pub open spec fn lead(l: Seq<char>) -> char {
    if l.len() > 0 {
        l[0]
    } else {
        ' '
    }
}

proof fn lemma_block_leads(unit: Seq<char>, m: nat, c: CommandView)
    requires
        command_lines(unit, m, c) is Ok,
    ensures
        forall|i: int|
            0 <= i < command_lines(unit, m, c)->Ok_0.len() ==> {
                let l = #[trigger] command_lines(unit, m, c)->Ok_0[i];
                lead(l) != '(' || l == label_def(compare_symbol(unit, m)) || l == label_def(
                    end_compare_symbol(unit, m),
                ) || (exists|y: Seq<char>|
                    c == CommandView::Label(y) && l == label_def(label_symbol(unit, y)))
            },
{
    reveal_strlit("// ");
    reveal_strlit("// goto ");
    reveal_strlit("// if-goto ");
    reveal_strlit("// label ");
    reveal_strlit("@");
    reveal_strlit("@SP");
    reveal_strlit("@R13");
    reveal_strlit("0;JMP");
    reveal_strlit("A=A+D");
    reveal_strlit("A=A-1");
    reveal_strlit("A=M");
    reveal_strlit("A=M-1");
    reveal_strlit("AM=M-1");
    reveal_strlit("D;J");
    reveal_strlit("D;JNE");
    reveal_strlit("D=-1");
    reveal_strlit("D=0");
    reveal_strlit("D=A");
    reveal_strlit("D=A+D");
    reveal_strlit("D=M");
    reveal_strlit("D=M-D");
    reveal_strlit("M=");
    reveal_strlit("M=D");
    reveal_strlit("M=M");
    reveal_strlit("M=M+1");
    reveal_strlit("(");
    reveal_strlit(":CMP_");
    reveal_strlit(":ENDCMP_");
    reveal_strlit(":LABEL_");
}

/// Apart from comparisons, which define only their own two labels, the only command whose
/// lines define the symbol of a user label `name` is `label name` itself.
proof fn lemma_only_label_defines(unit: Seq<char>, m: nat, c: CommandView, name: Seq<char>)
    requires
        command_lines(unit, m, c) is Ok,
        c != CommandView::Label(name),
    ensures
        !command_lines(unit, m, c)->Ok_0.contains(label_def(label_symbol(unit, name))),
{
    let b = command_lines(unit, m, c)->Ok_0;
    let t = label_def(label_symbol(unit, name));
    lemma_block_leads(unit, m, c);
    reveal_strlit("(");
    reveal_strlit(":CMP_");
    reveal_strlit(":ENDCMP_");
    reveal_strlit(":LABEL_");
    assert(lead(t) == '(');
    let p = unit.len() as int + 2;
    assert(t[p] == 'L');
    assert(label_def(compare_symbol(unit, m))[p] == 'C');
    assert(label_def(end_compare_symbol(unit, m))[p] == 'E');
    if b.contains(t) {
        let i = choose|i: int| 0 <= i < b.len() && b[i] == t;
        if c is Label {
            let y = c->Label_0;
            let q = unit.len() as int + 8;
            if label_def(label_symbol(unit, y)) == t {
                reveal_strlit(")");
                assert(y.len() == name.len());
                assert(label_def(label_symbol(unit, y)).subrange(q, q + y.len()) =~= y);
                assert(t.subrange(q, q + name.len()) =~= name);
            }
        }
    }
}

/// In the output of a sequence that translates, the symbol of a user label `name` is
/// defined by no block but those of `label name` commands: where `label name` stands
/// once, at position `j`, its definition line is the only one, and a `goto` or `if-goto`
/// to `name` anywhere in the sequence, before or after it, reaches that one place.
pub proof fn label_defined_once(unit: Seq<char>, n: nat, cmds: Seq<CommandView>, j: int, name: Seq<char>)
    requires
        0 <= j < cmds.len(),
        cmds[j] == CommandView::Label(name),
        forall|k: int| 0 <= k < cmds.len() && k != j ==> cmds[k] != CommandView::Label(name),
        translation(unit, n, cmds).0 is Ok,
    ensures
        forall|k: int|
            0 <= k < cmds.len() && k != j ==> !(#[trigger] command_lines(
                unit,
                counter_at(unit, n, cmds, k),
                cmds[k],
            ))->Ok_0.contains(label_def(label_symbol(unit, name))),
        command_lines(unit, counter_at(unit, n, cmds, j), cmds[j]) == Ok::<
            Seq<Seq<char>>,
            TranslateError,
        >(label_lines(unit, name)),
{
    assert forall|k: int| 0 <= k < cmds.len() && k != j implies !(#[trigger] command_lines(
        unit,
        counter_at(unit, n, cmds, k),
        cmds[k],
    ))->Ok_0.contains(label_def(label_symbol(unit, name))) by {
        lemma_translation_step(unit, n, cmds, k);
        lemma_only_label_defines(unit, counter_at(unit, n, cmds, k), cmds[k], name);
    };
}

} // verus!
