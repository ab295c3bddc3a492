use vstd::prelude::*;

verus! {

/// One of the eight addressing regions of the stack machine.
#[derive(Debug, PartialEq, Eq, Clone, Copy, Structural)]
pub enum Segment {
    Constant,
    Local,
    Static,
    Argument,
    This,
    That,
    Pointer,
    Temp,
}


/// The keyword that names a segment in source text.
pub open spec fn segment_name(seg: Segment) -> Seq<char> {
    match seg {
        Segment::Constant => "constant"@,
        Segment::Local => "local"@,
        Segment::Static => "static"@,
        Segment::Argument => "argument"@,
        Segment::This => "this"@,
        Segment::That => "that"@,
        Segment::Pointer => "pointer"@,
        Segment::Temp => "temp"@,
    }
}

/// One command of the stack-machine language.
#[derive(Debug, PartialEq, Clone)]
pub enum Command {
    Push(Segment, u16),
    Pop(Segment, u16),
    Add,
    Sub,
    Neg,
    Eq,
    Gt,
    Lt,
    And,
    Or,
    Not,
    Label(String),
    Goto(String),
    IfGoto(String),
}

/// A command with its symbolic names seen as character sequences.
pub enum CommandView {
    Push(Segment, u16),
    Pop(Segment, u16),
    Add,
    Sub,
    Neg,
    Eq,
    Gt,
    Lt,
    And,
    Or,
    Not,
    Label(Seq<char>),
    Goto(Seq<char>),
    IfGoto(Seq<char>),
}

impl View for Command {
    type V = CommandView;

    open spec fn view(&self) -> CommandView {
        match self {
            Command::Push(s, i) => CommandView::Push(*s, *i),
            Command::Pop(s, i) => CommandView::Pop(*s, *i),
            Command::Add => CommandView::Add,
            Command::Sub => CommandView::Sub,
            Command::Neg => CommandView::Neg,
            Command::Eq => CommandView::Eq,
            Command::Gt => CommandView::Gt,
            Command::Lt => CommandView::Lt,
            Command::And => CommandView::And,
            Command::Or => CommandView::Or,
            Command::Not => CommandView::Not,
            Command::Label(n) => CommandView::Label(n@),
            Command::Goto(n) => CommandView::Goto(n@),
            Command::IfGoto(n) => CommandView::IfGoto(n@),
        }
    }
}

/// The views of a sequence of commands.
pub open spec fn commands_view(cs: Seq<Command>) -> Seq<CommandView> {
    cs.map_values(|c: Command| c@)
}

/// The views of a sequence of strings.
pub open spec fn strings_view(v: Seq<String>) -> Seq<Seq<char>> {
    v.map_values(|s: String| s@)
}

} // verus!
