use peer2peer::command::white_space;
use peer2peer::{parse_command, Command};

fn parse(line: &str) -> Command {
    parse_command(&line.chars().collect())
}

fn text(v: &[char]) -> String {
    v.iter().collect()
}

/// What the command loop did with a line: the word, then the rest.
fn split_like_loop(input: &str) -> (String, String) {
    let cmd = input.trim().split(" ").next().unwrap();
    let rest = input.trim().split_at(cmd.len()).1.trim();
    (cmd.to_string(), rest.to_string())
}

#[test]
fn white_space_matches_std() {
    for v in 0u32..=0x10ffff {
        if let Some(c) = char::from_u32(v) {
            assert_eq!(white_space(c), c.is_whitespace(), "{:#x}", v);
        }
    }
}

#[test]
fn parse_exit() {
    assert!(matches!(parse("exit\n"), Command::Exit));
    assert!(matches!(parse("  exit  "), Command::Exit));
}

#[test]
fn parse_flood_with_text() {
    match parse("flood   Monkey  business \n") {
        Command::Flood(t) => assert_eq!(text(&t), "Monkey  business"),
        other => panic!("unexpected {:?}", other),
    }
    match parse("flood\n") {
        Command::Flood(t) => assert_eq!(text(&t), ""),
        other => panic!("unexpected {:?}", other),
    }
}

#[test]
fn parse_unknown() {
    match parse("hello world\n") {
        Command::Unknown(w) => assert_eq!(text(&w), "hello"),
        other => panic!("unexpected {:?}", other),
    }
    match parse("flood\tx\n") {
        Command::Unknown(w) => assert_eq!(text(&w), "flood\tx"),
        other => panic!("unexpected {:?}", other),
    }
    match parse("\n") {
        Command::Unknown(w) => assert_eq!(text(&w), ""),
        other => panic!("unexpected {:?}", other),
    }
}

#[test]
fn parse_agrees_with_string_split() {
    let lines = [
        "flood Donkey\n",
        "\u{3000}flood\u{a0}x y \u{2003}\n",
        "exit now\n",
        "  flood  héllo wörld  ",
        "exi t",
        "",
    ];
    for line in lines {
        let (cmd, rest) = split_like_loop(line);
        match parse(line) {
            Command::Exit => assert_eq!(cmd, "exit"),
            Command::Flood(t) => {
                assert_eq!(cmd, "flood");
                assert_eq!(text(&t), rest);
            },
            Command::Unknown(w) => {
                assert_eq!(text(&w), cmd);
                assert!(cmd != "exit" && cmd != "flood");
            },
        }
    }
}
