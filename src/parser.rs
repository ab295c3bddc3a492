use vstd::prelude::*;

use crate::ast::{commands_view, segment_name, Command, CommandView, Segment};
use crate::text::{chars_of, string_from_chars};

verus! {

/// Why a line of source text is not a command.
#[derive(Debug, PartialEq, Eq, Clone)]
pub enum ParseError {
    /// The line (comment and surrounding whitespace removed) matches no command form.
    Invalid(String),
    /// The line starts with a command but has text left after it: the line, then what is left.
    ExtraContent(String, String),
}

/// A parse error with its strings seen as character sequences.
pub enum ParseErrorView {
    Invalid(Seq<char>),
    ExtraContent(Seq<char>, Seq<char>),
}

impl View for ParseError {
    type V = ParseErrorView;

    open spec fn view(&self) -> ParseErrorView {
        match self {
            ParseError::Invalid(l) => ParseErrorView::Invalid(l@),
            ParseError::ExtraContent(l, rest) => ParseErrorView::ExtraContent(l@, rest@),
        }
    }
}

/// A space or a tab: what separates a keyword from its arguments.
pub open spec fn is_blank(c: char) -> bool {
    c == ' ' || c == '\t'
}

/// An ASCII decimal digit.
pub open spec fn is_digit(c: char) -> bool {
    '0' <= c && c <= '9'
}

/// A character that may occur in a symbol.
pub open spec fn is_symbol_char(c: char) -> bool {
    ('a' <= c && c <= 'z') || ('A' <= c && c <= 'Z') || is_digit(c) || c == '_' || c == '.' || c
        == '$' || c == ':'
}

/// A character with the Unicode `White_Space` property.
pub open spec fn is_whitespace(c: char) -> bool {
    ('\t' <= c && c <= '\r') || c == ' ' || c == '\u{85}' || c == '\u{a0}' || c == '\u{1680}' || (
    '\u{2000}' <= c && c <= '\u{200a}') || c == '\u{2028}' || c == '\u{2029}' || c == '\u{202f}'
        || c == '\u{205f}' || c == '\u{3000}'
}

/// The end of the run of blanks that starts at `i`.
pub open spec fn blank_end(s: Seq<char>, i: int) -> int
    decreases s.len() - i,
{
    if 0 <= i < s.len() && is_blank(s[i]) {
        blank_end(s, i + 1)
    } else {
        i
    }
}

/// The end of the run of digits that starts at `i`.
pub open spec fn digit_end(s: Seq<char>, i: int) -> int
    decreases s.len() - i,
{
    if 0 <= i < s.len() && is_digit(s[i]) {
        digit_end(s, i + 1)
    } else {
        i
    }
}

/// The end of the run of symbol characters that starts at `i`.
pub open spec fn symbol_end(s: Seq<char>, i: int) -> int
    decreases s.len() - i,
{
    if 0 <= i < s.len() && is_symbol_char(s[i]) {
        symbol_end(s, i + 1)
    } else {
        i
    }
}

/// The number that the digits `s[i..j]` spell in decimal.
pub open spec fn digits_value(s: Seq<char>, i: int, j: int) -> nat
    decreases j - i,
{
    if j <= i {
        0
    } else {
        digits_value(s, i, j - 1) * 10 + (s[j - 1] as nat - '0' as nat) as nat
    }
}

/// Whether the word `w` stands in `s` at position `i`.
pub open spec fn word_at(s: Seq<char>, i: int, w: Seq<char>) -> bool {
    0 <= i && i + w.len() <= s.len() && s.subrange(i, i + w.len()) == w
}

/// The segment whose keyword stands at `i`, trying the keywords in a fixed order.
pub open spec fn segment_at(s: Seq<char>, i: int) -> Option<Segment> {
    if word_at(s, i, "constant"@) {
        Some(Segment::Constant)
    } else if word_at(s, i, "local"@) {
        Some(Segment::Local)
    } else if word_at(s, i, "static"@) {
        Some(Segment::Static)
    } else if word_at(s, i, "argument"@) {
        Some(Segment::Argument)
    } else if word_at(s, i, "this"@) {
        Some(Segment::This)
    } else if word_at(s, i, "that"@) {
        Some(Segment::That)
    } else if word_at(s, i, "pointer"@) {
        Some(Segment::Pointer)
    } else if word_at(s, i, "temp"@) {
        Some(Segment::Temp)
    } else {
        None
    }
}

/// `kw <segment> <number>` at the start of `s`: the segment, the number and where the
/// number ends. Keyword and arguments are separated by one or more blanks; the number
/// has at least one digit and fits in 16 bits.
pub open spec fn stack_op_at(s: Seq<char>, kw: Seq<char>) -> Option<(Segment, u16, int)> {
    if !word_at(s, 0, kw) {
        None
    } else {
        let a = kw.len() as int;
        let b = blank_end(s, a);
        if b == a {
            None
        } else {
            match segment_at(s, b) {
                None => None,
                Some(seg) => {
                    let c = b + segment_name(seg).len();
                    let d = blank_end(s, c);
                    let e = digit_end(s, d);
                    if d == c || e == d || digits_value(s, d, e) >= 0x10000 {
                        None
                    } else {
                        Some((seg, digits_value(s, d, e) as u16, e))
                    }
                },
            }
        }
    }
}

/// `push <segment> <number>` at the start of `s`, with where it ends.
pub open spec fn push_at(s: Seq<char>) -> Option<(CommandView, int)> {
    match stack_op_at(s, "push"@) {
        Some((seg, n, e)) => Some((CommandView::Push(seg, n), e)),
        None => None,
    }
}

/// `pop <segment> <number>` at the start of `s`, for any segment but `constant`.
pub open spec fn pop_at(s: Seq<char>) -> Option<(CommandView, int)> {
    match stack_op_at(s, "pop"@) {
        Some((seg, n, e)) => if seg == Segment::Constant {
            None
        } else {
            Some((CommandView::Pop(seg, n), e))
        },
        None => None,
    }
}

/// One of the nine primitive keywords at the start of `s`, with where it ends.
pub open spec fn prim_at(s: Seq<char>) -> Option<(CommandView, int)> {
    if word_at(s, 0, "add"@) {
        Some((CommandView::Add, "add"@.len() as int))
    } else if word_at(s, 0, "sub"@) {
        Some((CommandView::Sub, "sub"@.len() as int))
    } else if word_at(s, 0, "neg"@) {
        Some((CommandView::Neg, "neg"@.len() as int))
    } else if word_at(s, 0, "eq"@) {
        Some((CommandView::Eq, "eq"@.len() as int))
    } else if word_at(s, 0, "gt"@) {
        Some((CommandView::Gt, "gt"@.len() as int))
    } else if word_at(s, 0, "lt"@) {
        Some((CommandView::Lt, "lt"@.len() as int))
    } else if word_at(s, 0, "and"@) {
        Some((CommandView::And, "and"@.len() as int))
    } else if word_at(s, 0, "or"@) {
        Some((CommandView::Or, "or"@.len() as int))
    } else if word_at(s, 0, "not"@) {
        Some((CommandView::Not, "not"@.len() as int))
    } else {
        None
    }
}

/// The symbol after the keyword `kw` at the start of `s`, with where it ends: blanks,
/// then the longest run of symbol characters, which must not start with a digit.
pub open spec fn symbol_after(s: Seq<char>, kw: Seq<char>) -> Option<(Seq<char>, int)> {
    if !word_at(s, 0, kw) {
        None
    } else {
        let a = kw.len() as int;
        let b = blank_end(s, a);
        let e = symbol_end(s, b);
        if b == a || e == b || is_digit(s[b]) {
            None
        } else {
            Some((s.subrange(b, e), e))
        }
    }
}

/// `label`, `goto` or `if-goto` with its symbol at the start of `s`, with where it ends.
pub open spec fn branching_at(s: Seq<char>) -> Option<(CommandView, int)> {
    if word_at(s, 0, "label"@) {
        match symbol_after(s, "label"@) {
            Some((sym, e)) => Some((CommandView::Label(sym), e)),
            None => None,
        }
    } else if word_at(s, 0, "goto"@) {
        match symbol_after(s, "goto"@) {
            Some((sym, e)) => Some((CommandView::Goto(sym), e)),
            None => None,
        }
    } else {
        match symbol_after(s, "if-goto"@) {
            Some((sym, e)) => Some((CommandView::IfGoto(sym), e)),
            None => None,
        }
    }
}

/// The first command form, in the order push, pop, primitive, branching, that
/// stands at the start of `s`, with where it ends.
pub open spec fn command_at(s: Seq<char>) -> Option<(CommandView, int)> {
    if push_at(s) is Some {
        push_at(s)
    } else if pop_at(s) is Some {
        pop_at(s)
    } else if prim_at(s) is Some {
        prim_at(s)
    } else {
        branching_at(s)
    }
}

/// What a cleaned, non-empty line means: its command when the line is exactly one
/// command, otherwise the error.
pub open spec fn line_result(l: Seq<char>) -> Result<CommandView, ParseErrorView> {
    match command_at(l) {
        None => Err(ParseErrorView::Invalid(l)),
        Some((c, e)) => if e == l.len() {
            Ok(c)
        } else {
            Err(ParseErrorView::ExtraContent(l, l.subrange(e, l.len() as int)))
        },
    }
}

/// The number of characters of the line that starts at `i`, up to its newline.
pub open spec fn line_len(s: Seq<char>, i: int) -> nat
    decreases s.len() - i,
{
    if 0 <= i < s.len() && s[i] != '\n' {
        1 + line_len(s, i + 1)
    } else {
        0
    }
}

/// Where the first `//` in `s[i..e]` starts, or `e` when there is none.
pub open spec fn comment_start(s: Seq<char>, i: int, e: int) -> int
    decreases e - i,
{
    if i >= e {
        e
    } else if i + 1 < e && s[i] == '/' && s[i + 1] == '/' {
        i
    } else {
        comment_start(s, i + 1, e)
    }
}

/// The first position in `s[i..e]` that is not whitespace, or `e`.
pub open spec fn trim_start(s: Seq<char>, i: int, e: int) -> int
    decreases e - i,
{
    if i < e && is_whitespace(s[i]) {
        trim_start(s, i + 1, e)
    } else {
        i
    }
}

/// The end of `s[b..e]` with trailing whitespace removed.
pub open spec fn trim_end(s: Seq<char>, b: int, e: int) -> int
    decreases e - b,
{
    if b < e && is_whitespace(s[e - 1]) {
        trim_end(s, b, e - 1)
    } else {
        e
    }
}

/// The line that starts at `i`, with its comment cut off and its surrounding whitespace
/// removed.
pub open spec fn clean_line(s: Seq<char>, i: int) -> Seq<char> {
    let e = i + line_len(s, i);
    let c = comment_start(s, i, e);
    let b = trim_start(s, i, c);
    s.subrange(b, trim_end(s, b, c))
}

/// The commands of the text `s` from position `i` on, one per non-empty cleaned line,
/// or the error of the first line that is not a command.
pub open spec fn parse_from(s: Seq<char>, i: int) -> Result<Seq<CommandView>, ParseErrorView>
    decreases s.len() + 1 - i
    via parse_from_decreases
{
    if i < 0 || i >= s.len() {
        Ok(Seq::empty())
    } else {
        let rest = parse_from(s, i + line_len(s, i) + 1);
        let l = clean_line(s, i);
        if l.len() == 0 {
            rest
        } else {
            match line_result(l) {
                Err(x) => Err(x),
                Ok(c) => match rest {
                    Ok(cs) => Ok(seq![c] + cs),
                    Err(x) => Err(x),
                },
            }
        }
    }
}

#[via_fn]
proof fn parse_from_decreases(s: Seq<char>, i: int) {
    if 0 <= i < s.len() {
        lemma_line_len_bound(s, i);
    }
}

proof fn lemma_line_len_bound(s: Seq<char>, i: int)
    requires
        0 <= i <= s.len(),
    ensures
        i + line_len(s, i) <= s.len(),
    decreases s.len() - i,
{
    if i < s.len() {
        lemma_line_len_bound(s, i + 1);
    }
}

/// The commands of the whole text `s`.
pub open spec fn parse_text(s: Seq<char>) -> Result<Seq<CommandView>, ParseErrorView> {
    parse_from(s, 0)
}


fn blank(c: char) -> (r: bool)
    ensures
        r == is_blank(c),
{
    c == ' ' || c == '\t'
}

fn digit(c: char) -> (r: bool)
    ensures
        r == is_digit(c),
{
    '0' <= c && c <= '9'
}

fn symbol_char(c: char) -> (r: bool)
    ensures
        r == is_symbol_char(c),
{
    ('a' <= c && c <= 'z') || ('A' <= c && c <= 'Z') || digit(c) || c == '_' || c == '.' || c
        == '$' || c == ':'
}

fn whitespace(c: char) -> (r: bool)
    ensures
        r == is_whitespace(c),
{
    ('\t' <= c && c <= '\r') || c == ' ' || c == '\u{85}' || c == '\u{a0}' || c == '\u{1680}' || (
    '\u{2000}' <= c && c <= '\u{200a}') || c == '\u{2028}' || c == '\u{2029}' || c == '\u{202f}'
        || c == '\u{205f}' || c == '\u{3000}'
}

fn skip_blanks(s: &Vec<char>, i: usize) -> (r: usize)
    requires
        i <= s.len(),
    ensures
        r as int == blank_end(s@, i as int),
        i <= r <= s.len(),
{
    let mut j = i;
    while j < s.len() && blank(s[j])
        invariant
            i <= j <= s.len(),
            blank_end(s@, i as int) == blank_end(s@, j as int),
        decreases s.len() - j,
    {
        j = j + 1;
    }
    j
}

fn skip_digits(s: &Vec<char>, i: usize) -> (r: usize)
    requires
        i <= s.len(),
    ensures
        r as int == digit_end(s@, i as int),
        i <= r <= s.len(),
{
    let mut j = i;
    while j < s.len() && digit(s[j])
        invariant
            i <= j <= s.len(),
            digit_end(s@, i as int) == digit_end(s@, j as int),
        decreases s.len() - j,
    {
        j = j + 1;
    }
    j
}

fn skip_symbol(s: &Vec<char>, i: usize) -> (r: usize)
    requires
        i <= s.len(),
    ensures
        r as int == symbol_end(s@, i as int),
        i <= r <= s.len(),
{
    let mut j = i;
    while j < s.len() && symbol_char(s[j])
        invariant
            i <= j <= s.len(),
            symbol_end(s@, i as int) == symbol_end(s@, j as int),
        decreases s.len() - j,
    {
        j = j + 1;
    }
    j
}

/// The number spelled by the digits `s[i..j]`, where it fits in 16 bits.
fn integer(s: &Vec<char>, i: usize, j: usize) -> (r: Option<u16>)
    requires
        i <= j <= s.len(),
        forall|k: int| i <= k < j ==> is_digit(#[trigger] s@[k]),
    ensures
        match r {
            Some(v) => digits_value(s@, i as int, j as int) < 0x10000 && v as nat == digits_value(
                s@,
                i as int,
                j as int,
            ),
            None => digits_value(s@, i as int, j as int) >= 0x10000,
        },
{
    let mut v: u32 = 0;
    let mut over = false;
    let mut k = i;
    while k < j
        invariant
            i <= k <= j <= s.len(),
            forall|m: int| i <= m < j ==> is_digit(#[trigger] s@[m]),
            over <==> digits_value(s@, i as int, k as int) >= 0x10000,
            !over ==> v as nat == digits_value(s@, i as int, k as int),
        decreases j - k,
    {
        let ghost prev = digits_value(s@, i as int, k as int);
        let d = (s[k] as u32) - ('0' as u32);
        assert(digits_value(s@, i as int, k + 1) == prev * 10 + d);
        if !over {
            v = v * 10 + d;
            if v >= 0x10000 {
                over = true;
            }
        } else {
            assert(prev * 10 + d >= prev) by (nonlinear_arith);
        }
        k = k + 1;
    }
    if over {
        None
    } else {
        Some(v as u16)
    }
}

/// Whether the word `w` stands in `s` at position `i`.
fn word(s: &Vec<char>, i: usize, w: &str) -> (r: bool)
    requires
        i <= s.len(),
    ensures
        r == word_at(s@, i as int, w@),
{
    let n = w.unicode_len();
    if n > s.len() - i {
        return false;
    }
    let mut j: usize = 0;
    while j < n
        invariant
            n == w@.len(),
            i + n <= s.len(),
            j <= n,
            s@.subrange(i as int, i + j) == w@.subrange(0, j as int),
        decreases n - j,
    {
        if s[i + j] != w.get_char(j) {
            assert(s@.subrange(i as int, i + n)[j as int] != w@[j as int]);
            return false;
        }
        assert(s@.subrange(i as int, i + j + 1) =~= w@.subrange(0, j + 1));
        j = j + 1;
    }
    assert(w@.subrange(0, n as int) =~= w@);
    true
}

fn segment(s: &Vec<char>, i: usize) -> (r: Option<Segment>)
    requires
        i <= s.len(),
    ensures
        r == segment_at(s@, i as int),
{
    if word(s, i, "constant") {
        Some(Segment::Constant)
    } else if word(s, i, "local") {
        Some(Segment::Local)
    } else if word(s, i, "static") {
        Some(Segment::Static)
    } else if word(s, i, "argument") {
        Some(Segment::Argument)
    } else if word(s, i, "this") {
        Some(Segment::This)
    } else if word(s, i, "that") {
        Some(Segment::That)
    } else if word(s, i, "pointer") {
        Some(Segment::Pointer)
    } else if word(s, i, "temp") {
        Some(Segment::Temp)
    } else {
        None
    }
}

fn segment_keyword_len(seg: Segment) -> (r: usize)
    ensures
        r == segment_name(seg).len(),
{
    proof {
        reveal_strlit("constant");
        reveal_strlit("local");
        reveal_strlit("static");
        reveal_strlit("argument");
        reveal_strlit("this");
        reveal_strlit("that");
        reveal_strlit("pointer");
        reveal_strlit("temp");
    }
    match seg {
        Segment::Constant => 8,
        Segment::Local => 5,
        Segment::Static => 6,
        Segment::Argument => 8,
        Segment::This => 4,
        Segment::That => 4,
        Segment::Pointer => 7,
        Segment::Temp => 4,
    }
}

fn stack_op(s: &Vec<char>, kw: &str) -> (r: Option<(Segment, u16, usize)>)
    ensures
        match r {
            Some((seg, n, e)) => stack_op_at(s@, kw@) == Some((seg, n, e as int)) && e <= s.len(),
            None => stack_op_at(s@, kw@) is None,
        },
{
    if !word(s, 0, kw) {
        return None;
    }
    let a = kw.unicode_len();
    let b = skip_blanks(s, a);
    if b == a {
        return None;
    }
    match segment(s, b) {
        None => None,
        Some(seg) => {
            let c = b + segment_keyword_len(seg);
            let d = skip_blanks(s, c);
            let e = skip_digits(s, d);
            if d == c || e == d {
                return None;
            }
            proof {
                lemma_digit_run(s@, d as int);
            }
            match integer(s, d, e) {
                Some(v) => Some((seg, v, e)),
                None => None,
            }
        },
    }
}

proof fn lemma_digit_run(s: Seq<char>, i: int)
    requires
        0 <= i <= s.len(),
    ensures
        i <= digit_end(s, i) <= s.len(),
        forall|k: int| i <= k < digit_end(s, i) ==> is_digit(#[trigger] s[k]),
    decreases s.len() - i,
{
    if i < s.len() && is_digit(s[i]) {
        lemma_digit_run(s, i + 1);
    }
}


/// The characters `s[b..e]`.
fn chars_between(s: &Vec<char>, b: usize, e: usize) -> (r: Vec<char>)
    requires
        b <= e <= s.len(),
    ensures
        r@ == s@.subrange(b as int, e as int),
{
    let mut out: Vec<char> = Vec::new();
    let mut k = b;
    while k < e
        invariant
            b <= k <= e <= s.len(),
            out@ == s@.subrange(b as int, k as int),
        decreases e - k,
    {
        out.push(s[k]);
        assert(out@ =~= s@.subrange(b as int, k + 1));
        k = k + 1;
    }
    out
}

/// The string `s[b..e]`.
fn string_between(s: &Vec<char>, b: usize, e: usize) -> (r: String)
    requires
        b <= e <= s.len(),
    ensures
        r@ == s@.subrange(b as int, e as int),
{
    let cs = chars_between(s, b, e);
    string_from_chars(cs.as_slice())
}

/// Whether a command and the position where it ends agree with a spec-level reading.
pub open spec fn read_matches(r: Option<(Command, usize)>, spec_r: Option<(CommandView, int)>) -> bool {
    match r {
        Some((c, e)) => spec_r == Some((c@, e as int)),
        None => spec_r is None,
    }
}

/// A command or a parse error, seen through their views.
pub open spec fn command_result(r: Result<Command, ParseError>) -> Result<CommandView, ParseErrorView> {
    match r {
        Ok(c) => Ok(c@),
        Err(e) => Err(e@),
    }
}

fn push_cmd(s: &Vec<char>) -> (r: Option<(Command, usize)>)
    ensures
        read_matches(r, push_at(s@)),
        r matches Some((_, e)) ==> e <= s.len(),
{
    match stack_op(s, "push") {
        Some((seg, n, e)) => Some((Command::Push(seg, n), e)),
        None => None,
    }
}

fn pop_cmd(s: &Vec<char>) -> (r: Option<(Command, usize)>)
    ensures
        read_matches(r, pop_at(s@)),
        r matches Some((_, e)) ==> e <= s.len(),
{
    match stack_op(s, "pop") {
        Some((seg, n, e)) => if seg == Segment::Constant {
            None
        } else {
            Some((Command::Pop(seg, n), e))
        },
        None => None,
    }
}

fn prim_cmd(s: &Vec<char>) -> (r: Option<(Command, usize)>)
    ensures
        read_matches(r, prim_at(s@)),
        r matches Some((_, e)) ==> e <= s.len(),
{
    if word(s, 0, "add") {
        Some((Command::Add, "add".unicode_len()))
    } else if word(s, 0, "sub") {
        Some((Command::Sub, "sub".unicode_len()))
    } else if word(s, 0, "neg") {
        Some((Command::Neg, "neg".unicode_len()))
    } else if word(s, 0, "eq") {
        Some((Command::Eq, "eq".unicode_len()))
    } else if word(s, 0, "gt") {
        Some((Command::Gt, "gt".unicode_len()))
    } else if word(s, 0, "lt") {
        Some((Command::Lt, "lt".unicode_len()))
    } else if word(s, 0, "and") {
        Some((Command::And, "and".unicode_len()))
    } else if word(s, 0, "or") {
        Some((Command::Or, "or".unicode_len()))
    } else if word(s, 0, "not") {
        Some((Command::Not, "not".unicode_len()))
    } else {
        None
    }
}

fn symbol(s: &Vec<char>, kw: &str) -> (r: Option<(String, usize)>)
    ensures
        match r {
            Some((sym, e)) => symbol_after(s@, kw@) == Some((sym@, e as int)) && e <= s.len(),
            None => symbol_after(s@, kw@) is None,
        },
{
    if !word(s, 0, kw) {
        return None;
    }
    let a = kw.unicode_len();
    let b = skip_blanks(s, a);
    let e = skip_symbol(s, b);
    if b == a || e == b || digit(s[b]) {
        None
    } else {
        Some((string_between(s, b, e), e))
    }
}

fn branching_cmd(s: &Vec<char>) -> (r: Option<(Command, usize)>)
    ensures
        read_matches(r, branching_at(s@)),
        r matches Some((_, e)) ==> e <= s.len(),
{
    if word(s, 0, "label") {
        match symbol(s, "label") {
            Some((sym, e)) => Some((Command::Label(sym), e)),
            None => None,
        }
    } else if word(s, 0, "goto") {
        match symbol(s, "goto") {
            Some((sym, e)) => Some((Command::Goto(sym), e)),
            None => None,
        }
    } else {
        match symbol(s, "if-goto") {
            Some((sym, e)) => Some((Command::IfGoto(sym), e)),
            None => None,
        }
    }
}

fn command_cmd(s: &Vec<char>) -> (r: Option<(Command, usize)>)
    ensures
        read_matches(r, command_at(s@)),
        r matches Some((_, e)) ==> e <= s.len(),
{
    let p = push_cmd(s);
    if p.is_some() {
        return p;
    }
    let p = pop_cmd(s);
    if p.is_some() {
        return p;
    }
    let p = prim_cmd(s);
    if p.is_some() {
        return p;
    }
    branching_cmd(s)
}

/// Reads one cleaned, non-empty line as a command.
fn parse_line(line: &Vec<char>) -> (r: Result<Command, ParseError>)
    ensures
        command_result(r) == line_result(line@),
{
    assert(line@.subrange(0, line@.len() as int) =~= line@);
    match command_cmd(line) {
        None => Err(ParseError::Invalid(string_between(line, 0, line.len()))),
        Some((c, e)) => {
            if e == line.len() {
                Ok(c)
            } else {
                Err(
                    ParseError::ExtraContent(
                        string_between(line, 0, line.len()),
                        string_between(line, e, line.len()),
                    ),
                )
            }
        },
    }
}


/// A reading of a command at the start of `s`, as the spec-level reading `spec_r`
/// describes it: the command with the text after it, or the whole of `s` as invalid.
pub open spec fn leading_result(
    s: Seq<char>,
    spec_r: Option<(CommandView, int)>,
    r: Result<(&str, Command), ParseError>,
) -> bool {
    match spec_r {
        Some((c, e)) => r matches Ok((rest, cmd)) && cmd@ == c && rest@ == s.subrange(
            e,
            s.len() as int,
        ),
        None => r matches Err(x) && x@ == ParseErrorView::Invalid(s),
    }
}

fn leading<'a>(input: &'a str, s: &Vec<char>, read: Option<(Command, usize)>) -> (r: Result<
    (&'a str, Command),
    ParseError,
>)
    requires
        s@ == input@,
        read matches Some((_, e)) ==> e <= s.len(),
    ensures
        forall|spec_r: Option<(CommandView, int)>|
            read_matches(read, spec_r) ==> #[trigger] leading_result(input@, spec_r, r),
{
    match read {
        Some((c, e)) => Ok((input.substring_char(e, s.len()), c)),
        None => Err(ParseError::Invalid(String::from_str(input))),
    }
}

/// Reads `push <segment> <number>` at the start of `input`, returning the text after it.
pub fn push(input: &str) -> (r: Result<(&str, Command), ParseError>)
    ensures
        leading_result(input@, push_at(input@), r),
{
    let s = chars_of(input);
    let read = push_cmd(&s);
    leading(input, &s, read)
}

/// Reads `pop <segment> <number>` at the start of `input`, returning the text after it.
pub fn pop(input: &str) -> (r: Result<(&str, Command), ParseError>)
    ensures
        leading_result(input@, pop_at(input@), r),
{
    let s = chars_of(input);
    let read = pop_cmd(&s);
    leading(input, &s, read)
}

/// Reads a primitive keyword at the start of `input`, returning the text after it.
pub fn prim(input: &str) -> (r: Result<(&str, Command), ParseError>)
    ensures
        leading_result(input@, prim_at(input@), r),
{
    let s = chars_of(input);
    let read = prim_cmd(&s);
    leading(input, &s, read)
}

/// Reads `label`, `goto` or `if-goto` with its symbol at the start of `input`,
/// returning the text after it.
pub fn branching(input: &str) -> (r: Result<(&str, Command), ParseError>)
    ensures
        leading_result(input@, branching_at(input@), r),
{
    let s = chars_of(input);
    let read = branching_cmd(&s);
    leading(input, &s, read)
}

/// `acc` put before the commands of `r`.
pub open spec fn prepend(acc: Seq<CommandView>, r: Result<Seq<CommandView>, ParseErrorView>) -> Result<
    Seq<CommandView>,
    ParseErrorView,
> {
    match r {
        Ok(cs) => Ok(acc + cs),
        Err(x) => Err(x),
    }
}

/// Commands or a parse error, seen through their views.
pub open spec fn commands_result(r: Result<Vec<Command>, ParseError>) -> Result<
    Seq<CommandView>,
    ParseErrorView,
> {
    match r {
        Ok(cs) => Ok(commands_view(cs@)),
        Err(x) => Err(x@),
    }
}

/// Parses source text into its commands, one per line that holds anything once its
/// `//` comment and surrounding whitespace are removed; the first line that is not
/// exactly one command gives the error, and then no commands are returned.
pub fn parse(input: &str) -> (r: Result<Vec<Command>, ParseError>)
    ensures
        commands_result(r) == parse_text(input@),
{
    let s = chars_of(input);
    let ghost t = s@;
    let mut commands: Vec<Command> = Vec::new();
    let mut i: usize = 0;
    assert(commands_view(commands@) =~= Seq::<CommandView>::empty());
    assert(prepend(Seq::empty(), parse_from(t, 0)) == parse_from(t, 0)) by {
        match parse_from(t, 0) {
            Ok(cs) => assert(Seq::<CommandView>::empty() + cs =~= cs),
            Err(_) => {},
        }
    };
    while i < s.len()
        invariant
            s@ == t,
            t == input@,
            i <= s.len(),
            parse_text(t) == prepend(commands_view(commands@), parse_from(t, i as int)),
        decreases s.len() - i,
    {
        let mut e = i;
        while e < s.len() && s[e] != '\n'
            invariant
                i <= e <= s.len(),
                s@ == t,
                i + line_len(t, i as int) == e + line_len(t, e as int),
            decreases s.len() - e,
        {
            e = e + 1;
        }
        let mut c = i;
        while c < e && !(c + 1 < e && s[c] == '/' && s[c + 1] == '/')
            invariant
                i <= c <= e <= s.len(),
                s@ == t,
                comment_start(t, i as int, e as int) == comment_start(t, c as int, e as int),
            decreases e - c,
        {
            c = c + 1;
        }
        let mut b = i;
        while b < c && whitespace(s[b])
            invariant
                i <= b <= c <= e <= s.len(),
                s@ == t,
                trim_start(t, i as int, c as int) == trim_start(t, b as int, c as int),
            decreases c - b,
        {
            b = b + 1;
        }
        let mut f = c;
        while f > b && whitespace(s[f - 1])
            invariant
                i <= b <= f <= c <= e <= s.len(),
                s@ == t,
                trim_end(t, b as int, c as int) == trim_end(t, b as int, f as int),
            decreases f - b,
        {
            f = f - 1;
        }
        let ghost acc = commands_view(commands@);
        let ghost rest = parse_from(t, e + 1);
        assert(clean_line(t, i as int) == t.subrange(b as int, f as int));
        if b < f {
            let line = chars_between(&s, b, f);
            match parse_line(&line) {
                Ok(cmd) => {
                    commands.push(cmd);
                    assert(commands_view(commands@) =~= acc.push(cmd@));
                    proof {
                        match rest {
                            Ok(cs) => {
                                assert(acc + (seq![cmd@] + cs) =~= acc.push(cmd@) + cs);
                            },
                            Err(_) => {},
                        }
                    }
                },
                Err(x) => {
                    return Err(x);
                },
            }
        }
        if e < s.len() {
            i = e + 1;
        } else {
            assert(parse_from(t, e + 1) == parse_from(t, e as int));
            i = e;
        }
    }
    assert(commands_view(commands@) + Seq::<CommandView>::empty() =~= commands_view(commands@));
    Ok(commands)
}

} // verus!
