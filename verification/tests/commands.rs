use pixel_walker::cli::{parse_command, Request};
use pixel_walker::protocol::{Command, Direction, Package};

#[test]
fn direction_from_letters() {
    assert_eq!(Direction::from_str("N"), Some(Direction::North));
    assert_eq!(Direction::from_str("n"), Some(Direction::North));
    assert_eq!(Direction::from_str("E"), Some(Direction::East));
    assert_eq!(Direction::from_str("e"), Some(Direction::East));
    assert_eq!(Direction::from_str("S"), Some(Direction::South));
    assert_eq!(Direction::from_str("s"), Some(Direction::South));
    assert_eq!(Direction::from_str("W"), Some(Direction::West));
    assert_eq!(Direction::from_str("w"), Some(Direction::West));
    assert_eq!(Direction::from_str("north"), None);
    assert_eq!(Direction::from_str(""), None);
    assert_eq!(Direction::from_str("x"), None);
}

#[test]
fn direction_codes() {
    assert_eq!(Direction::North.to_u8(), 1);
    assert_eq!(Direction::East.to_u8(), 2);
    assert_eq!(Direction::South.to_u8(), 3);
    assert_eq!(Direction::West.to_u8(), 4);
}

#[test]
fn parse_walk() {
    let p = parse_command("walk N\n");
    assert_eq!(p.request, Request::Walk(Direction::North));
    assert!(!p.too_many_arguments);
    assert_eq!(
        p.request.package(),
        Some(Package { command: Command::walk, parameter: Some(1) })
    );
    let p = parameter_package("  walk\tw  ");
    assert_eq!(p, Some(Package { command: Command::walk, parameter: Some(4) }));
}

fn parameter_package(s: &str) -> Option<Package> {
    parse_command(s).request.package()
}

#[test]
fn parse_plain_commands() {
    assert_eq!(parse_command("step").request, Request::Send(Command::step));
    assert_eq!(parse_command("switch\n").request, Request::Send(Command::switch));
    assert_eq!(parse_command("reset").request, Request::Send(Command::reset));
    assert_eq!(parse_command("exit").request, Request::Send(Command::exit));
    assert_eq!(
        parameter_package("step"),
        Some(Package { command: Command::step, parameter: None })
    );
}

#[test]
fn parse_help_and_errors() {
    assert_eq!(parse_command("help").request, Request::Help);
    assert_eq!(parse_command("help").request.package(), None);
    assert_eq!(parse_command("walk").request, Request::MissingDirection);
    assert_eq!(
        parse_command("walk up").request,
        Request::InvalidDirection(String::from("up"))
    );
    assert_eq!(parse_command("jump").request, Request::UnknownCommand(String::from("jump")));
    assert_eq!(
        parse_command("help me").request,
        Request::UnknownWithParameter(String::from("help"), String::from("me"))
    );
    assert_eq!(
        parse_command("step 3").request,
        Request::UnknownWithParameter(String::from("step"), String::from("3"))
    );
    assert_eq!(parse_command("").request, Request::NoCommand);
    assert_eq!(parse_command(" \t\n").request, Request::NoCommand);
}

#[test]
fn parse_too_many_arguments() {
    let p = parse_command("walk S now");
    assert!(p.too_many_arguments);
    assert_eq!(p.request, Request::Walk(Direction::South));
    assert!(!parse_command("walk S ").too_many_arguments);
}

#[test]
fn parse_unicode_whitespace() {
    let p = parse_command("walk\u{3000}E\u{a0}");
    assert_eq!(p.request, Request::Walk(Direction::East));
}
