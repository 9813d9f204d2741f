//! The shell's command language: what a line of input asks for, and the
//! small computations (arithmetic, clock, prompt, themes) behind the replies.
use vstd::prelude::*;
use crate::input::InputBuffer;
use crate::vga_buffer::Color;
use crate::text::{
    chars_of, find_char, index_of, parse_i64, parse_usize, split_words, str_eq_chars,
    string_from_chars, sub_chars, trim, trim_chars, signed_value, unsigned_value, words,
    vecs_view, is_ws, trim_start, trim_end, lemma_trim_start_from, lemma_trim_end_after,
    lemma_trim_end_cons, lemma_trim_commutes, lemma_trim_end_idempotent, lemma_index_of_absent,
    lemma_index_of_prefix,
};

verus! {

/// The colour themes of the `color` command.
#[derive(PartialEq, Eq, Structural, Clone, Copy, Debug)]
pub enum Theme {
    MatrixGreen,
    Amber,
    CyberpunkCyan,
    DefaultWhite,
}

/// The operators of the `calc` command.
#[derive(PartialEq, Eq, Structural, Clone, Copy, Debug)]
pub enum CalcOp {
    Add,
    Sub,
    Mul,
    Div,
    Rem,
}

impl CalcOp {
    /// The operator as it is written.
    pub fn symbol(self) -> (r: &'static str)
        ensures
            r@ == (match self {
                CalcOp::Add => "+"@,
                CalcOp::Sub => "-"@,
                CalcOp::Mul => "*"@,
                CalcOp::Div => "/"@,
                CalcOp::Rem => "%"@,
            }),
    {
        match self {
            CalcOp::Add => "+",
            CalcOp::Sub => "-",
            CalcOp::Mul => "*",
            CalcOp::Div => "/",
            CalcOp::Rem => "%",
        }
    }
}

impl Theme {
    /// The text and background colours of the theme: light green, amber,
    /// cyan or white, each on black.
    pub fn colors(self) -> (r: (Color, Color))
        ensures
            r.1 == Color::Black,
            r.0 == (match self {
                Theme::MatrixGreen => Color::LightGreen,
                Theme::Amber => Color::Amber,
                Theme::CyberpunkCyan => Color::Cyan,
                Theme::DefaultWhite => Color::White,
            }),
    {
        match self {
            Theme::MatrixGreen => (Color::LightGreen, Color::Black),
            Theme::Amber => (Color::Amber, Color::Black),
            Theme::CyberpunkCyan => (Color::Cyan, Color::Black),
            Theme::DefaultWhite => (Color::White, Color::Black),
        }
    }
}

/// What `calc` answers.
#[derive(PartialEq, Eq, Structural, Clone, Copy, Debug)]
pub enum CalcResult {
    /// `lhs op rhs = result`.
    Value { lhs: i64, op: CalcOp, rhs: i64, result: i64 },
    /// An unknown operator, or a division or remainder by zero.
    BadOperator,
    /// The exact result does not fit in an `i64` (or the operation is
    /// `i64::MIN % -1`, which Rust refuses).
    Overflow,
    /// Not three words, or an operand that is not an `i64`.
    Usage,
}

/// One line of shell input, decoded: the command and its arguments, with the
/// defaults and usage checks of each command already applied. `S` is the
/// string type (`String`, or `Seq<char>` in contracts).
pub enum Command<S> {
    Empty,
    Help,
    Drivers,
    Ifconfig,
    /// Target of the echo request.
    Ping(S),
    Netstat,
    Vmap,
    Modifiers,
    Uname,
    Sysinfo,
    Meminfo,
    Uptime,
    /// The directory to change to, and the argument as typed (for the error).
    Cd { target: S, arg: S },
    Pwd,
    /// The new prompt, or `None` for the usage message.
    Prompt(Option<S>),
    Matrix,
    /// The guessed number, or `None` for the usage message.
    Guess(Option<i64>),
    Time,
    Date,
    /// The path to list (empty: the current directory).
    Ls(S),
    Tree,
    /// `None` for the usage message.
    Cat(Option<S>),
    Touch(Option<S>),
    /// The file and the text to write into it.
    Write(Option<(S, S)>),
    Mkdir(Option<S>),
    Rm(Option<S>),
    Echo(S),
    Ps,
    Clear,
    Cpuid,
    Color(Theme),
    /// The name the new task is announced under.
    Spawn(S),
    /// The task to kill, or `None` for the usage message.
    Kill(Option<usize>),
    Calc(CalcResult),
    Panic,
    Reboot,
    Shutdown,
    /// The unknown command word.
    Unknown(S),
}

/// The characters of an optional string.
pub open spec fn opt_view(o: Option<String>) -> Option<Seq<char>> {
    match o {
        Some(s) => Some(s@),
        None => None,
    }
}

impl View for Command<String> {
    type V = Command<Seq<char>>;

    open spec fn view(&self) -> Command<Seq<char>> {
        match self {
            Command::Empty => Command::Empty,
            Command::Help => Command::Help,
            Command::Drivers => Command::Drivers,
            Command::Ifconfig => Command::Ifconfig,
            Command::Ping(t) => Command::Ping(t@),
            Command::Netstat => Command::Netstat,
            Command::Vmap => Command::Vmap,
            Command::Modifiers => Command::Modifiers,
            Command::Uname => Command::Uname,
            Command::Sysinfo => Command::Sysinfo,
            Command::Meminfo => Command::Meminfo,
            Command::Uptime => Command::Uptime,
            Command::Cd { target, arg } => Command::Cd { target: target@, arg: arg@ },
            Command::Pwd => Command::Pwd,
            Command::Prompt(p) => Command::Prompt(opt_view(*p)),
            Command::Matrix => Command::Matrix,
            Command::Guess(g) => Command::Guess(*g),
            Command::Time => Command::Time,
            Command::Date => Command::Date,
            Command::Ls(p) => Command::Ls(p@),
            Command::Tree => Command::Tree,
            Command::Cat(p) => Command::Cat(opt_view(*p)),
            Command::Touch(p) => Command::Touch(opt_view(*p)),
            Command::Write(w) => Command::Write(
                match w {
                    Some((p, c)) => Some((p@, c@)),
                    None => None,
                },
            ),
            Command::Mkdir(p) => Command::Mkdir(opt_view(*p)),
            Command::Rm(p) => Command::Rm(opt_view(*p)),
            Command::Echo(t) => Command::Echo(t@),
            Command::Ps => Command::Ps,
            Command::Clear => Command::Clear,
            Command::Cpuid => Command::Cpuid,
            Command::Color(t) => Command::Color(*t),
            Command::Spawn(n) => Command::Spawn(n@),
            Command::Kill(k) => Command::Kill(*k),
            Command::Calc(c) => Command::Calc(*c),
            Command::Panic => Command::Panic,
            Command::Reboot => Command::Reboot,
            Command::Shutdown => Command::Shutdown,
            Command::Unknown(w) => Command::Unknown(w@),
        }
    }
}

/// The command word of a trimmed line: up to its first space.
pub open spec fn command_word(c: Seq<char>) -> Seq<char> {
    let sp = index_of(c, ' ');
    if sp < 0 {
        c
    } else {
        c.take(sp)
    }
}

/// The arguments of a trimmed line: after its first space, trimmed.
pub open spec fn command_args(c: Seq<char>) -> Seq<char> {
    let sp = index_of(c, ' ');
    if sp < 0 {
        Seq::empty()
    } else {
        trim(c.skip(sp + 1))
    }
}

/// `None` for empty arguments.
pub open spec fn nonempty(a: Seq<char>) -> Option<Seq<char>> {
    if a.len() == 0 {
        None
    } else {
        Some(a)
    }
}

/// A number `s` writes as an `i64`, if it writes one.
pub open spec fn i64_of(s: Seq<char>) -> Option<int> {
    match signed_value(s) {
        Some(v) => if i64::MIN <= v <= i64::MAX {
            Some(v)
        } else {
            None
        },
        None => None,
    }
}

/// Rust's `/` on integers: the quotient rounded toward zero.
pub open spec fn trunc_div(a: int, b: int) -> int {
    let q = (if a < 0 { -a } else { a }) / (if b < 0 { -b } else { b });
    if (a < 0) != (b < 0) {
        -q
    } else {
        q
    }
}

/// Rust's `%` on integers: the remainder with the sign of the dividend.
pub open spec fn trunc_rem(a: int, b: int) -> int {
    let r = (if a < 0 { -a } else { a }) % (if b < 0 { -b } else { b });
    if a < 0 {
        -r
    } else {
        r
    }
}

/// The exact result of `lhs op rhs`, or `None` for a division or remainder
/// by zero.
pub open spec fn calc_exact(lhs: int, op: CalcOp, rhs: int) -> Option<int> {
    match op {
        CalcOp::Add => Some(lhs + rhs),
        CalcOp::Sub => Some(lhs - rhs),
        CalcOp::Mul => Some(lhs * rhs),
        CalcOp::Div => if rhs == 0 {
            None
        } else {
            Some(trunc_div(lhs, rhs))
        },
        CalcOp::Rem => if rhs == 0 {
            None
        } else {
            Some(trunc_rem(lhs, rhs))
        },
    }
}

/// The operator a word names.
pub open spec fn calc_op_of(w: Seq<char>) -> Option<CalcOp> {
    if w == "+"@ {
        Some(CalcOp::Add)
    } else if w == "-"@ {
        Some(CalcOp::Sub)
    } else if w == "*"@ {
        Some(CalcOp::Mul)
    } else if w == "/"@ {
        Some(CalcOp::Div)
    } else if w == "%"@ {
        Some(CalcOp::Rem)
    } else {
        None
    }
}

/// What `calc` answers for its arguments.
pub open spec fn calc_of(args: Seq<char>) -> CalcResult {
    let ws = words(args);
    if ws.len() != 3 {
        CalcResult::Usage
    } else {
        match (i64_of(ws[0]), i64_of(ws[2])) {
            (Some(a), Some(b)) => match calc_op_of(ws[1]) {
                Some(op) => match calc_exact(a, op, b) {
                    Some(v) => if i64::MIN <= v <= i64::MAX && !(op == CalcOp::Rem && a
                        == i64::MIN && b == -1) {
                        CalcResult::Value { lhs: a as i64, op, rhs: b as i64, result: v as i64 }
                    } else {
                        CalcResult::Overflow
                    },
                    None => CalcResult::BadOperator,
                },
                None => CalcResult::BadOperator,
            },
            _ => CalcResult::Usage,
        }
    }
}

/// The theme the `color` argument selects.
pub open spec fn theme_of(a: Seq<char>) -> Theme {
    if a == "matrix"@ || a == "green"@ {
        Theme::MatrixGreen
    } else if a == "amber"@ {
        Theme::Amber
    } else if a == "cyberpunk"@ || a == "cyan"@ {
        Theme::CyberpunkCyan
    } else {
        Theme::DefaultWhite
    }
}

/// The prompt `prompt <args>` sets: the text, followed by `> ` unless it
/// already ends in a space or `>`.
pub open spec fn prompt_of(a: Seq<char>) -> Seq<char> {
    if a.last() != ' ' && a.last() != '>' {
        a + "> "@
    } else {
        a
    }
}

/// The file and text of `write <file> <text>`.
pub open spec fn write_args_of(a: Seq<char>) -> Option<(Seq<char>, Seq<char>)> {
    let sp = index_of(a, ' ');
    let path = if sp < 0 {
        a
    } else {
        a.take(sp)
    };
    let content = if sp < 0 {
        Seq::empty()
    } else {
        trim(a.skip(sp + 1))
    };
    if path.len() == 0 {
        None
    } else {
        Some((path, content))
    }
}

/// What the shell does with the input line `line`.
pub open spec fn command_of(line: Seq<char>) -> Command<Seq<char>> {
    let c = trim(line);
    let w = command_word(c);
    let a = command_args(c);
    if w.len() == 0 {
        Command::Empty
    } else if w == "help"@ {
        Command::Help
    } else if w == "drivers"@ {
        Command::Drivers
    } else if w == "ifconfig"@ {
        Command::Ifconfig
    } else if w == "ping"@ {
        Command::Ping(
            if a.len() == 0 {
                "127.0.0.1"@
            } else {
                a
            },
        )
    } else if w == "netstat"@ {
        Command::Netstat
    } else if w == "vmap"@ {
        Command::Vmap
    } else if w == "modifiers"@ {
        Command::Modifiers
    } else if w == "uname"@ {
        Command::Uname
    } else if w == "sysinfo"@ {
        Command::Sysinfo
    } else if w == "meminfo"@ {
        Command::Meminfo
    } else if w == "uptime"@ {
        Command::Uptime
    } else if w == "cd"@ {
        Command::Cd {
            target: if a.len() == 0 {
                "/"@
            } else {
                a
            },
            arg: a,
        }
    } else if w == "pwd"@ {
        Command::Pwd
    } else if w == "prompt"@ {
        Command::Prompt(
            if a.len() == 0 {
                None
            } else {
                Some(prompt_of(a))
            },
        )
    } else if w == "matrix"@ {
        Command::Matrix
    } else if w == "guess"@ {
        Command::Guess(
            match i64_of(a) {
                Some(v) => Some(v as i64),
                None => None,
            },
        )
    } else if w == "time"@ {
        Command::Time
    } else if w == "date"@ {
        Command::Date
    } else if w == "ls"@ {
        Command::Ls(a)
    } else if w == "tree"@ {
        Command::Tree
    } else if w == "cat"@ {
        Command::Cat(nonempty(a))
    } else if w == "touch"@ {
        Command::Touch(nonempty(a))
    } else if w == "write"@ {
        Command::Write(write_args_of(a))
    } else if w == "mkdir"@ {
        Command::Mkdir(nonempty(a))
    } else if w == "rm"@ {
        Command::Rm(nonempty(a))
    } else if w == "echo"@ {
        Command::Echo(a)
    } else if w == "ps"@ || w == "tasks"@ {
        Command::Ps
    } else if w == "clear"@ {
        Command::Clear
    } else if w == "cpuid"@ {
        Command::Cpuid
    } else if w == "color"@ {
        Command::Color(theme_of(a))
    } else if w == "spawn"@ {
        Command::Spawn(
            if a.len() == 0 {
                "user-task"@
            } else {
                a
            },
        )
    } else if w == "kill"@ {
        Command::Kill(
            match unsigned_value(a) {
                Some(v) => if v <= usize::MAX {
                    Some(v as usize)
                } else {
                    None
                },
                None => None,
            },
        )
    } else if w == "calc"@ {
        Command::Calc(calc_of(a))
    } else if w == "panic"@ {
        Command::Panic
    } else if w == "reboot"@ {
        Command::Reboot
    } else if w == "shutdown"@ {
        Command::Shutdown
    } else {
        Command::Unknown(w)
    }
}


fn abs_u64(a: i64) -> (r: u64)
    ensures
        r == (if a < 0 { -(a as int) } else { a as int }),
{
    if a < 0 {
        (0i128 - a as i128) as u64
    } else {
        a as u64
    }
}

/// `lhs op rhs` in `i64`, or why not.
fn calc_apply(lhs: i64, op: CalcOp, rhs: i64) -> (r: CalcResult)
    ensures
        r == (match calc_exact(lhs as int, op, rhs as int) {
            Some(v) => if i64::MIN <= v <= i64::MAX && !(op == CalcOp::Rem && lhs == i64::MIN
                && rhs == -1) {
                CalcResult::Value { lhs, op, rhs, result: v as i64 }
            } else {
                CalcResult::Overflow
            },
            None => CalcResult::BadOperator,
        }),
{
    let exact: i128 = match op {
        CalcOp::Add => lhs as i128 + rhs as i128,
        CalcOp::Sub => lhs as i128 - rhs as i128,
        CalcOp::Mul => {
            assert(-0x4000_0000_0000_0000_0000_0000_0000_0000int <= (lhs as int) * (rhs as int)
                <= 0x4000_0000_0000_0000_0000_0000_0000_0000int) by (nonlinear_arith)
                requires
                    i64::MIN <= lhs <= i64::MAX,
                    i64::MIN <= rhs <= i64::MAX,
            ;
            lhs as i128 * rhs as i128
        },
        CalcOp::Div => {
            if rhs == 0 {
                return CalcResult::BadOperator;
            }
            let q = abs_u64(lhs) / abs_u64(rhs);
            if (lhs < 0) != (rhs < 0) {
                0i128 - q as i128
            } else {
                q as i128
            }
        },
        CalcOp::Rem => {
            if rhs == 0 {
                return CalcResult::BadOperator;
            }
            let m = abs_u64(lhs) % abs_u64(rhs);
            if lhs < 0 {
                0i128 - m as i128
            } else {
                m as i128
            }
        },
    };
    if exact < i64::MIN as i128 || exact > i64::MAX as i128 || (op == CalcOp::Rem && lhs
        == i64::MIN && rhs == -1) {
        CalcResult::Overflow
    } else {
        CalcResult::Value { lhs, op, rhs, result: exact as i64 }
    }
}

fn calc_op(w: &[char]) -> (r: Option<CalcOp>)
    ensures
        r == calc_op_of(w@),
{
    if str_eq_chars("+", w) {
        Some(CalcOp::Add)
    } else if str_eq_chars("-", w) {
        Some(CalcOp::Sub)
    } else if str_eq_chars("*", w) {
        Some(CalcOp::Mul)
    } else if str_eq_chars("/", w) {
        Some(CalcOp::Div)
    } else if str_eq_chars("%", w) {
        Some(CalcOp::Rem)
    } else {
        None
    }
}

/// What `calc` answers for its arguments `<num1> <op> <num2>`.
pub fn evaluate_calc(args: &[char]) -> (r: CalcResult)
    ensures
        r == calc_of(args@),
{
    let ws = split_words(args);
    if ws.len() != 3 {
        return CalcResult::Usage;
    }
    assert(vecs_view(ws@)[0] == ws@[0]@);
    assert(vecs_view(ws@)[1] == ws@[1]@);
    assert(vecs_view(ws@)[2] == ws@[2]@);
    let a = parse_i64(ws[0].as_slice());
    let b = parse_i64(ws[2].as_slice());
    match (a, b) {
        (Some(x), Some(y)) => match calc_op(ws[1].as_slice()) {
            Some(op) => calc_apply(x, op, y),
            None => CalcResult::BadOperator,
        },
        _ => CalcResult::Usage,
    }
}

/// The theme the `color` argument selects.
pub fn theme_for(a: &[char]) -> (r: Theme)
    ensures
        r == theme_of(a@),
{
    if str_eq_chars("matrix", a) || str_eq_chars("green", a) {
        Theme::MatrixGreen
    } else if str_eq_chars("amber", a) {
        Theme::Amber
    } else if str_eq_chars("cyberpunk", a) || str_eq_chars("cyan", a) {
        Theme::CyberpunkCyan
    } else {
        Theme::DefaultWhite
    }
}

/// The prompt that `prompt <a>` sets (for non-empty `a`).
pub fn prompt_text(a: &[char]) -> (r: String)
    requires
        a@.len() > 0,
    ensures
        r@ == prompt_of(a@),
{
    let mut p = string_from_chars(a);
    let last = a[a.len() - 1];
    if last != ' ' && last != '>' {
        crate::text::string_push(&mut p, '>');
        crate::text::string_push(&mut p, ' ');
        proof {
            reveal_strlit("> ");
        }
        assert(p@ =~= a@ + "> "@);
    }
    p
}


fn nonempty_string(a: &[char]) -> (r: Option<String>)
    ensures
        opt_view(r) == nonempty(a@),
{
    if a.len() == 0 {
        None
    } else {
        Some(string_from_chars(a))
    }
}

fn write_args(a: &[char]) -> (r: Option<(String, String)>)
    ensures
        (match r {
            Some((p, c)) => Some((p@, c@)),
            None => None,
        }) == write_args_of(a@),
{
    let n = a.len();
    let (path, content) = match find_char(a, ' ') {
        Some(i) => {
            assert(i < n);
            let rest = sub_chars(a, i + 1, a.len());
            assert(rest@ =~= a@.skip(i + 1));
            let p = sub_chars(a, 0, i);
            assert(p@ =~= a@.take(i as int));
            (p, trim_chars(rest.as_slice()))
        },
        None => {
            let p = sub_chars(a, 0, a.len());
            assert(p@ =~= a@);
            (p, Vec::new())
        },
    };
    if path.len() == 0 {
        None
    } else {
        Some((string_from_chars(path.as_slice()), string_from_chars(content.as_slice())))
    }
}

/// A line made of white space, a command word and text that is empty or
/// starts with a space splits into that word and the text, trimmed.
proof fn lemma_split_line(pre: Seq<char>, w: Seq<char>, rest: Seq<char>)
    requires
        forall|k: int| 0 <= k < pre.len() ==> is_ws(#[trigger] pre[k]),
        w.len() > 0,
        forall|k: int| 0 <= k < w.len() ==> !is_ws(#[trigger] w[k]),
        rest.len() == 0 || rest[0] == ' ',
    ensures
        command_word(trim(pre + w + rest)) == w,
        command_args(trim(pre + w + rest)) == trim(rest),
{
    let line = pre + w + rest;
    assert forall|k: int| 0 <= k < pre.len() implies is_ws(#[trigger] line[k]) by {
        assert(line[k] == pre[k]);
    }
    lemma_trim_start_from(line, pre.len() as int);
    assert(line.subrange(pre.len() as int, line.len() as int) =~= w + rest);
    assert((w + rest)[0] == w[0]);
    assert(trim_start(w + rest) == w + rest);
    lemma_trim_end_after(w, rest);
    assert(trim(line) == w + trim_end(rest));
    assert(is_ws(' '));
    assert forall|k: int| 0 <= k < w.len() implies w[k] != ' ' by {
        assert(!is_ws(w[k]));
    }
    lemma_index_of_absent(w, ' ');
    lemma_trim_commutes(rest);
    let c = w + trim_end(rest);
    if trim_end(rest).len() == 0 {
        assert(c =~= w);
        assert(trim_start(trim_end(rest)) == trim_end(rest));
    } else {
        let r = rest.drop_first();
        assert(rest.len() > 0);
        lemma_trim_end_cons(rest);
        assert(trim_end(rest) == seq![' '] + trim_end(r));
        let n = w.len() as int;
        assert(c.take(n + 1) =~= w.push(' '));
        assert(w.push(' ').drop_last() =~= w);
        lemma_index_of_prefix(c, ' ', n + 1);
        assert(index_of(c, ' ') == n);
        assert(c.take(n) =~= w);
        assert(c.skip(n + 1) =~= trim_end(r));
        lemma_trim_commutes(trim_end(r));
        lemma_trim_end_idempotent(r);
        lemma_trim_commutes(r);
        assert(trim_start(rest) == trim_start(r));
    }
}

/// A file command (`cat`, `touch`, `mkdir`, `rm`) carries as its path
/// exactly the text after the command word, with the white space around it
/// cut, and carries no path only when that text is empty. White space before
/// the command word does not matter; the word ends at a space.
pub proof fn lemma_file_command_path(pre: Seq<char>, rest: Seq<char>)
    requires
        forall|k: int| 0 <= k < pre.len() ==> is_ws(#[trigger] pre[k]),
        rest.len() == 0 || rest[0] == ' ',
    ensures
        command_of(pre + "cat"@ + rest) == Command::Cat(
            if trim(rest).len() == 0 { None } else { Some(trim(rest)) },
        ),
        command_of(pre + "touch"@ + rest) == Command::Touch(
            if trim(rest).len() == 0 { None } else { Some(trim(rest)) },
        ),
        command_of(pre + "mkdir"@ + rest) == Command::Mkdir(
            if trim(rest).len() == 0 { None } else { Some(trim(rest)) },
        ),
        command_of(pre + "rm"@ + rest) == Command::Rm(
            if trim(rest).len() == 0 { None } else { Some(trim(rest)) },
        ),
{
    reveal_strlit("help");
    reveal_strlit("drivers");
    reveal_strlit("ifconfig");
    reveal_strlit("ping");
    reveal_strlit("netstat");
    reveal_strlit("vmap");
    reveal_strlit("modifiers");
    reveal_strlit("uname");
    reveal_strlit("sysinfo");
    reveal_strlit("meminfo");
    reveal_strlit("uptime");
    reveal_strlit("cd");
    reveal_strlit("pwd");
    reveal_strlit("prompt");
    reveal_strlit("matrix");
    reveal_strlit("guess");
    reveal_strlit("time");
    reveal_strlit("date");
    reveal_strlit("ls");
    reveal_strlit("tree");
    reveal_strlit("cat");
    reveal_strlit("touch");
    reveal_strlit("write");
    reveal_strlit("mkdir");
    reveal_strlit("rm");
    assert("cat"@[0] != "pwd"@[0]);
    assert("touch"@[0] != "uname"@[0] && "touch"@[0] != "guess"@[0]);
    assert("mkdir"@[0] != "uname"@[0] && "mkdir"@[0] != "guess"@[0]);
    assert("mkdir"@[0] != "touch"@[0] && "mkdir"@[0] != "write"@[0]);
    assert("rm"@[0] != "cd"@[0] && "rm"@[0] != "ls"@[0]);
    assert("touch"@ != "uname"@ && "touch"@ != "guess"@);
    assert("mkdir"@ != "uname"@ && "mkdir"@ != "guess"@ && "mkdir"@ != "touch"@
        && "mkdir"@ != "write"@);
    assert("rm"@ != "cd"@ && "rm"@ != "ls"@);
    assert("cat"@ != "pwd"@);
    lemma_split_line(pre, "cat"@, rest);
    lemma_split_line(pre, "touch"@, rest);
    lemma_split_line(pre, "mkdir"@, rest);
    lemma_split_line(pre, "rm"@, rest);
}

/// Decodes one line of shell input: trims it, splits off the command word at
/// the first space, trims the arguments, and applies the command's defaults
/// and usage checks.
pub fn parse_command(line: &str) -> (r: Command<String>)
    ensures
        r@ == command_of(line@),
{
    let raw = chars_of(line);
    let c = trim_chars(raw.as_slice());
    let (w, a) = match find_char(c.as_slice(), ' ') {
        Some(i) => {
            let rest = sub_chars(c.as_slice(), i + 1, c.len());
            assert(rest@ =~= c@.skip(i + 1));
            let w = sub_chars(c.as_slice(), 0, i);
            assert(w@ =~= c@.take(i as int));
            (w, trim_chars(rest.as_slice()))
        },
        None => (c, Vec::new()),
    };
    assert(w@ == command_word(trim(line@)));
    assert(a@ =~= command_args(trim(line@)));
    let w = w.as_slice();
    let a = a.as_slice();
    if w.len() == 0 {
        Command::Empty
    } else if str_eq_chars("help", w) {
        Command::Help
    } else if str_eq_chars("drivers", w) {
        Command::Drivers
    } else if str_eq_chars("ifconfig", w) {
        Command::Ifconfig
    } else if str_eq_chars("ping", w) {
        Command::Ping(
            if a.len() == 0 {
                "127.0.0.1".to_owned()
            } else {
                string_from_chars(a)
            },
        )
    } else if str_eq_chars("netstat", w) {
        Command::Netstat
    } else if str_eq_chars("vmap", w) {
        Command::Vmap
    } else if str_eq_chars("modifiers", w) {
        Command::Modifiers
    } else if str_eq_chars("uname", w) {
        Command::Uname
    } else if str_eq_chars("sysinfo", w) {
        Command::Sysinfo
    } else if str_eq_chars("meminfo", w) {
        Command::Meminfo
    } else if str_eq_chars("uptime", w) {
        Command::Uptime
    } else if str_eq_chars("cd", w) {
        Command::Cd {
            target: if a.len() == 0 {
                "/".to_owned()
            } else {
                string_from_chars(a)
            },
            arg: string_from_chars(a),
        }
    } else if str_eq_chars("pwd", w) {
        Command::Pwd
    } else if str_eq_chars("prompt", w) {
        Command::Prompt(
            if a.len() == 0 {
                None
            } else {
                Some(prompt_text(a))
            },
        )
    } else if str_eq_chars("matrix", w) {
        Command::Matrix
    } else if str_eq_chars("guess", w) {
        Command::Guess(parse_i64(a))
    } else if str_eq_chars("time", w) {
        Command::Time
    } else if str_eq_chars("date", w) {
        Command::Date
    } else if str_eq_chars("ls", w) {
        Command::Ls(string_from_chars(a))
    } else if str_eq_chars("tree", w) {
        Command::Tree
    } else if str_eq_chars("cat", w) {
        Command::Cat(nonempty_string(a))
    } else if str_eq_chars("touch", w) {
        Command::Touch(nonempty_string(a))
    } else if str_eq_chars("write", w) {
        Command::Write(write_args(a))
    } else if str_eq_chars("mkdir", w) {
        Command::Mkdir(nonempty_string(a))
    } else if str_eq_chars("rm", w) {
        Command::Rm(nonempty_string(a))
    } else if str_eq_chars("echo", w) {
        Command::Echo(string_from_chars(a))
    } else if str_eq_chars("ps", w) || str_eq_chars("tasks", w) {
        Command::Ps
    } else if str_eq_chars("clear", w) {
        Command::Clear
    } else if str_eq_chars("cpuid", w) {
        Command::Cpuid
    } else if str_eq_chars("color", w) {
        Command::Color(theme_for(a))
    } else if str_eq_chars("spawn", w) {
        Command::Spawn(
            if a.len() == 0 {
                "user-task".to_owned()
            } else {
                string_from_chars(a)
            },
        )
    } else if str_eq_chars("kill", w) {
        Command::Kill(parse_usize(a))
    } else if str_eq_chars("calc", w) {
        Command::Calc(evaluate_calc(a))
    } else if str_eq_chars("panic", w) {
        Command::Panic
    } else if str_eq_chars("reboot", w) {
        Command::Reboot
    } else if str_eq_chars("shutdown", w) {
        Command::Shutdown
    } else {
        Command::Unknown(string_from_chars(w))
    }
}


/// The timer ticks this many times a second.
pub const TICKS_PER_SECOND: u64 = 20;

/// Hours, minutes and seconds of uptime after `ticks` timer ticks.
pub fn uptime_hms(ticks: u64) -> (r: (u64, u64, u64))
    ensures
        r.0 == (ticks / 20) / 3600,
        r.1 == ((ticks / 20) % 3600) / 60,
        r.2 == (ticks / 20) % 60,
{
    let total_secs = ticks / TICKS_PER_SECOND;
    (total_secs / 3600, (total_secs % 3600) / 60, total_secs % 60)
}

/// How a guess compares with the secret number.
#[derive(PartialEq, Eq, Structural, Clone, Copy, Debug)]
pub enum GuessOutcome {
    Correct,
    TooLow,
    TooHigh,
}

/// The secret number of `guess`, from the seconds of the clock: 1 to 10.
pub fn guess_target(second: u8) -> (r: i64)
    ensures
        r == (second as int) % 10 + 1,
        1 <= r <= 10,
{
    ((second as usize % 10) + 1) as i64
}

/// How `val` compares with `target`.
pub fn judge_guess(val: i64, target: i64) -> (r: GuessOutcome)
    ensures
        r == (if val == target {
            GuessOutcome::Correct
        } else if val < target {
            GuessOutcome::TooLow
        } else {
            GuessOutcome::TooHigh
        }),
{
    if val == target {
        GuessOutcome::Correct
    } else if val < target {
        GuessOutcome::TooLow
    } else {
        GuessOutcome::TooHigh
    }
}

/// Whether the CPUID leaf 0 vendor registers (EBX, EDX, ECX, each holding
/// four characters of the vendor string, little endian) are `v`.
pub open spec fn vendor_is(ebx: u32, edx: u32, ecx: u32, v: (u32, u32, u32)) -> bool {
    ebx == v.0 && edx == v.1 && ecx == v.2
}

/// "GenuineIntel" as CPUID leaf 0 returns it.
pub open spec fn intel_regs() -> (u32, u32, u32) {
    (0x756e6547, 0x49656e69, 0x6c65746e)
}

/// "AuthenticAMD" as CPUID leaf 0 returns it.
pub open spec fn amd_regs() -> (u32, u32, u32) {
    (0x68747541, 0x69746e65, 0x444d4163)
}

/// "TCGTCGTCGTCG" as CPUID leaf 0 returns it.
pub open spec fn tcg_regs() -> (u32, u32, u32) {
    (0x54474354, 0x43544743, 0x47435447)
}

/// The `cpuid` command's description of the CPU vendor whose CPUID leaf 0
/// vendor registers are `ebx`, `edx`, `ecx`.
pub fn cpu_vendor_name(ebx: u32, edx: u32, ecx: u32) -> (r: &'static str)
    ensures
        r@ == (if vendor_is(ebx, edx, ecx, intel_regs()) {
            "GenuineIntel (Intel CPU)"@
        } else if vendor_is(ebx, edx, ecx, amd_regs()) {
            "AuthenticAMD (AMD CPU)"@
        } else if vendor_is(ebx, edx, ecx, tcg_regs()) {
            "TCG (QEMU Virtual CPU)"@
        } else {
            "x86_64 Compatible CPU"@
        }),
{
    if ebx == 0x756e6547 && edx == 0x49656e69 && ecx == 0x6c65746e {
        "GenuineIntel (Intel CPU)"
    } else if ebx == 0x68747541 && edx == 0x69746e65 && ecx == 0x444d4163 {
        "AuthenticAMD (AMD CPU)"
    } else if ebx == 0x54474354 && edx == 0x43544743 && ecx == 0x47435447 {
        "TCG (QEMU Virtual CPU)"
    } else {
        "x86_64 Compatible CPU"
    }
}


/// One turn of the shell: takes the oldest finished line off the input
/// queue, if any, and decodes it.
pub fn run_once(input: &mut InputBuffer) -> (r: Option<Command<String>>)
    requires
        old(input).wf(),
    ensures
        final(input).wf(),
        final(input).line() == old(input).line(),
        final(input).history() == old(input).history(),
        final(input).mods() == old(input).mods(),
        old(input).ready().len() == 0 ==> r is None && final(input).ready() == old(input).ready(),
        old(input).ready().len() > 0 ==> (r matches Some(c) && c@ == command_of(old(input).ready()[0])
            && final(input).ready() == old(input).ready().drop_first()),
{
    match input.pop_line() {
        Some(line) => Some(parse_command(line.as_str())),
        None => None,
    }
}

} // verus!
