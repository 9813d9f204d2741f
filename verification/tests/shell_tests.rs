use open_kernel::vga_buffer::Color;
use open_kernel::input::InputBuffer;
use open_kernel::shell::{
    evaluate_calc, cpu_vendor_name, guess_target, judge_guess, parse_command, prompt_text, run_once,
    theme_for, uptime_hms, CalcOp, CalcResult, Command, GuessOutcome, Theme,
};

fn cs(s: &str) -> Vec<char> {
    s.chars().collect()
}

#[test]
fn simple_commands() {
    assert!(matches!(parse_command(""), Command::Empty));
    assert!(matches!(parse_command("   "), Command::Empty));
    assert!(matches!(parse_command("help"), Command::Help));
    assert!(matches!(parse_command("  uname  "), Command::Uname));
    assert!(matches!(parse_command("tasks"), Command::Ps));
    assert!(matches!(parse_command("ps"), Command::Ps));
    assert!(matches!(parse_command("reboot now"), Command::Reboot));
    assert!(matches!(parse_command("drivers"), Command::Drivers));
    assert!(matches!(parse_command("vmap"), Command::Vmap));
    assert!(matches!(parse_command("shutdown"), Command::Shutdown));
}

#[test]
fn unknown_command_keeps_word() {
    match parse_command("frobnicate a b") {
        Command::Unknown(w) => assert_eq!(w, "frobnicate"),
        _ => panic!("expected unknown"),
    }
    match parse_command("HELP") {
        Command::Unknown(w) => assert_eq!(w, "HELP"),
        _ => panic!("commands are case sensitive"),
    }
}

#[test]
fn ping_and_cd_defaults() {
    match parse_command("ping") {
        Command::Ping(t) => assert_eq!(t, "127.0.0.1"),
        _ => panic!(),
    }
    match parse_command("ping   10.0.0.1  ") {
        Command::Ping(t) => assert_eq!(t, "10.0.0.1"),
        _ => panic!(),
    }
    match parse_command("cd") {
        Command::Cd { target, arg } => {
            assert_eq!(target, "/");
            assert_eq!(arg, "");
        }
        _ => panic!(),
    }
    match parse_command("cd ../x") {
        Command::Cd { target, arg } => {
            assert_eq!(target, "../x");
            assert_eq!(arg, "../x");
        }
        _ => panic!(),
    }
}

#[test]
fn file_commands_and_usage() {
    assert!(matches!(parse_command("cat"), Command::Cat(None)));
    match parse_command("cat readme.txt") {
        Command::Cat(Some(p)) => assert_eq!(p, "readme.txt"),
        _ => panic!(),
    }
    assert!(matches!(parse_command("touch"), Command::Touch(None)));
    assert!(matches!(parse_command("mkdir"), Command::Mkdir(None)));
    assert!(matches!(parse_command("rm"), Command::Rm(None)));
    match parse_command("write notes.txt   hello world  ") {
        Command::Write(Some((p, c))) => {
            assert_eq!(p, "notes.txt");
            assert_eq!(c, "hello world");
        }
        _ => panic!(),
    }
    match parse_command("write notes.txt") {
        Command::Write(Some((p, c))) => {
            assert_eq!(p, "notes.txt");
            assert_eq!(c, "");
        }
        _ => panic!(),
    }
    assert!(matches!(parse_command("write"), Command::Write(None)));
    match parse_command("ls home") {
        Command::Ls(p) => assert_eq!(p, "home"),
        _ => panic!(),
    }
    match parse_command("echo  a  b ") {
        Command::Echo(t) => assert_eq!(t, "a  b"),
        _ => panic!(),
    }
}

#[test]
fn prompt_command() {
    assert!(matches!(parse_command("prompt"), Command::Prompt(None)));
    match parse_command("prompt user") {
        Command::Prompt(Some(p)) => assert_eq!(p, "user> "),
        _ => panic!(),
    }
    match parse_command("prompt $>") {
        Command::Prompt(Some(p)) => assert_eq!(p, "$>"),
        _ => panic!(),
    }
    assert_eq!(prompt_text(&cs("a")), "a> ");
    assert_eq!(prompt_text(&cs("a ")), "a ");
}

#[test]
fn guess_kill_spawn_color() {
    assert!(matches!(parse_command("guess 7"), Command::Guess(Some(7))));
    assert!(matches!(parse_command("guess seven"), Command::Guess(None)));
    assert!(matches!(parse_command("kill 3"), Command::Kill(Some(3))));
    assert!(matches!(parse_command("kill -3"), Command::Kill(None)));
    assert!(matches!(parse_command("kill"), Command::Kill(None)));
    match parse_command("spawn") {
        Command::Spawn(n) => assert_eq!(n, "user-task"),
        _ => panic!(),
    }
    match parse_command("spawn job") {
        Command::Spawn(n) => assert_eq!(n, "job"),
        _ => panic!(),
    }
    assert!(matches!(parse_command("color green"), Command::Color(Theme::MatrixGreen)));
    assert!(matches!(parse_command("color amber"), Command::Color(Theme::Amber)));
    assert!(matches!(parse_command("color cyan"), Command::Color(Theme::CyberpunkCyan)));
    assert!(matches!(parse_command("color pink"), Command::Color(Theme::DefaultWhite)));
    assert_eq!(theme_for(&cs("matrix")), Theme::MatrixGreen);
    assert_eq!(theme_for(&cs("cyberpunk")), Theme::CyberpunkCyan);
    assert_eq!(theme_for(&cs("")), Theme::DefaultWhite);
}

#[test]
fn calc_values() {
    let v = |lhs, op, rhs, result| CalcResult::Value { lhs, op, rhs, result };
    assert_eq!(evaluate_calc(&cs("12 + 34")), v(12, CalcOp::Add, 34, 46));
    assert_eq!(evaluate_calc(&cs("5 - 9")), v(5, CalcOp::Sub, 9, -4));
    assert_eq!(evaluate_calc(&cs("-6 * 7")), v(-6, CalcOp::Mul, 7, -42));
    assert_eq!(evaluate_calc(&cs("-7 / 2")), v(-7, CalcOp::Div, 2, -3));
    assert_eq!(evaluate_calc(&cs("7 / -2")), v(7, CalcOp::Div, -2, -3));
    assert_eq!(evaluate_calc(&cs("-7 % 2")), v(-7, CalcOp::Rem, 2, -1));
    assert_eq!(evaluate_calc(&cs("7 % -2")), v(7, CalcOp::Rem, -2, 1));
    assert_eq!(evaluate_calc(&cs("  1\t+   2 ")), v(1, CalcOp::Add, 2, 3));
}

#[test]
fn calc_errors() {
    assert_eq!(evaluate_calc(&cs("1 / 0")), CalcResult::BadOperator);
    assert_eq!(evaluate_calc(&cs("1 % 0")), CalcResult::BadOperator);
    assert_eq!(evaluate_calc(&cs("1 ^ 2")), CalcResult::BadOperator);
    assert_eq!(evaluate_calc(&cs("1 ++ 2")), CalcResult::BadOperator);
    assert_eq!(evaluate_calc(&cs("1 +")), CalcResult::Usage);
    assert_eq!(evaluate_calc(&cs("a + 2")), CalcResult::Usage);
    assert_eq!(evaluate_calc(&cs("1 + 2 + 3")), CalcResult::Usage);
    assert_eq!(evaluate_calc(&cs("9223372036854775807 + 1")), CalcResult::Overflow);
    assert_eq!(evaluate_calc(&cs("-9223372036854775808 / -1")), CalcResult::Overflow);
    assert_eq!(evaluate_calc(&cs("-9223372036854775808 % -1")), CalcResult::Overflow);
    assert_eq!(evaluate_calc(&cs("4294967296 * 4294967296")), CalcResult::Overflow);
    assert!(matches!(parse_command("calc 2 * 21"), Command::Calc(CalcResult::Value { result: 42, .. })));
}

#[test]
fn clock_and_guess_helpers() {
    assert_eq!(uptime_hms(0), (0, 0, 0));
    assert_eq!(uptime_hms(20 * 3661), (1, 1, 1));
    assert_eq!(uptime_hms(20 * 59 + 19), (0, 0, 59));
    assert_eq!(guess_target(0), 1);
    assert_eq!(guess_target(59), 10);
    assert_eq!(guess_target(25), 6);
    assert_eq!(judge_guess(5, 5), GuessOutcome::Correct);
    assert_eq!(judge_guess(3, 5), GuessOutcome::TooLow);
    assert_eq!(judge_guess(8, 5), GuessOutcome::TooHigh);
}

#[test]
fn cpu_vendor_names() {
    let regs = |s: &[u8; 12]| {
        (
            u32::from_le_bytes([s[0], s[1], s[2], s[3]]),
            u32::from_le_bytes([s[4], s[5], s[6], s[7]]),
            u32::from_le_bytes([s[8], s[9], s[10], s[11]]),
        )
    };
    let (b, d, c) = regs(b"GenuineIntel");
    assert_eq!(cpu_vendor_name(b, d, c), "GenuineIntel (Intel CPU)");
    let (b, d, c) = regs(b"AuthenticAMD");
    assert_eq!(cpu_vendor_name(b, d, c), "AuthenticAMD (AMD CPU)");
    let (b, d, c) = regs(b"TCGTCGTCGTCG");
    assert_eq!(cpu_vendor_name(b, d, c), "TCG (QEMU Virtual CPU)");
    assert_eq!(cpu_vendor_name(0, 0, 0), "x86_64 Compatible CPU");
}

#[test]
fn run_once_takes_oldest_line() {
    let mut input = InputBuffer::new();
    assert!(run_once(&mut input).is_none());
    for c in "help".chars() {
        input.push_char(c);
    }
    input.commit_line();
    for c in "pwd".chars() {
        input.push_char(c);
    }
    input.commit_line();
    assert!(matches!(run_once(&mut input), Some(Command::Help)));
    assert!(matches!(run_once(&mut input), Some(Command::Pwd)));
    assert!(run_once(&mut input).is_none());
}

#[test]
fn theme_colours_and_operator_symbols() {
    assert_eq!(Theme::MatrixGreen.colors(), (Color::LightGreen, Color::Black));
    assert_eq!(Theme::Amber.colors(), (Color::Amber, Color::Black));
    assert_eq!(Theme::CyberpunkCyan.colors(), (Color::Cyan, Color::Black));
    assert_eq!(Theme::DefaultWhite.colors(), (Color::White, Color::Black));
    let ops = [CalcOp::Add, CalcOp::Sub, CalcOp::Mul, CalcOp::Div, CalcOp::Rem];
    let symbols: Vec<&str> = ops.iter().map(|op| op.symbol()).collect();
    assert_eq!(symbols, vec!["+", "-", "*", "/", "%"]);
}
