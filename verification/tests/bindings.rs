use waypoint::bindings::{specialize_bindings, Binding, Config, ConfigError};
use waypoint::config::{Axis, Button, Cmd, Direction, Mods};
use waypoint::scfg::Error;

const TEXT: &str = r#"
# keys
bindings {
    Escape quit
    u undo
    h cut-left
    Shift+H move-left
    ctrl+ALT+Return {
        left-click
        quit
    }
    "space" left-click
    'Shift+space' {
        scroll-down
    }
    Return {
    }
}
bindings {
    u cut-up
}
"#;

#[test]
fn a_configuration() {
    let config = Config::parse(TEXT).unwrap();
    let expected = vec![
        Binding { mods: Mods(0), keysym: 0xff1b, cmds: vec![Cmd::Quit] },
        Binding { mods: Mods(0), keysym: 0x75, cmds: vec![Cmd::Cut(Direction::Up)] },
        Binding { mods: Mods(0), keysym: 0x68, cmds: vec![Cmd::Cut(Direction::Left)] },
        Binding { mods: Mods(1), keysym: 0x68, cmds: vec![Cmd::Move(Direction::Left)] },
        Binding { mods: Mods(12), keysym: 0xff0d, cmds: vec![Cmd::Click(Button::Left), Cmd::Quit] },
        Binding { mods: Mods(0), keysym: 0x20, cmds: vec![Cmd::Click(Button::Left)] },
        Binding { mods: Mods(1), keysym: 0x20, cmds: vec![Cmd::Scroll(Axis::Vertical, 1)] },
        Binding { mods: Mods(0), keysym: 0xff0d, cmds: vec![] },
    ];
    assert_eq!(config.bindings, expected);
    assert_eq!(config.lookup(Mods::shift(), 0x68), Some(&vec![Cmd::Move(Direction::Left)]));
    assert_eq!(config.lookup(Mods::ctrl().union(Mods::alt()), 0xff0d).map(Vec::len), Some(2));
    assert_eq!(config.lookup(Mods::ctrl(), 0xff0d), None);
    assert_eq!(Config::parse("").unwrap().bindings, vec![]);
}

fn fault(text: &str) -> ConfigError {
    Config::parse(text).unwrap_err()
}

#[test]
fn faults_of_a_configuration() {
    assert_eq!(
        fault("bindings {"),
        ConfigError::Syntax(Error { expected: '}', line: 0, column: 10 })
    );
    assert_eq!(
        fault("bindings {\n}\nother"),
        ConfigError::InvalidDirective { line: 2, name: "other".to_string() }
    );
    assert_eq!(fault("bindings now {\n}"), ConfigError::TooManyParameters { line: 0 });
    assert_eq!(
        fault("bindings {\n a {\n  quit now\n }\n}"),
        ConfigError::ExtraParameters { line: 2 }
    );
    assert_eq!(
        fault("bindings {\n a quit {\n  undo\n }\n}"),
        ConfigError::UnexpectedBlock { line: 1 }
    );
    // an empty block is no block
    assert!(Config::parse("bindings {\n a quit {\n }\n}").is_ok());
    assert_eq!(fault("bindings {\n a quit undo\n}"), ConfigError::NotOneParameter { line: 1 });
    assert_eq!(
        fault("bindings {\n a quits\n}"),
        ConfigError::InvalidCommand { line: 1, name: "quits".to_string() }
    );
    assert_eq!(
        fault("bindings {\n shift+SHIFT+a quit\n}"),
        ConfigError::DuplicateModifier { line: 1, name: "SHIFT".to_string() }
    );
    assert_eq!(
        fault("bindings {\n shift+nokey quit\n}"),
        ConfigError::InvalidKey { line: 1, name: "nokey".to_string() }
    );
    assert_eq!(
        fault("bindings {\n a+ quit\n}"),
        ConfigError::InvalidKey { line: 1, name: String::new() }
    );
    assert_eq!(fault("bindings {\n a+b quit\n}"), ConfigError::TooManyKeys { line: 1 });
    assert_eq!(fault("bindings {\n shift+ctrl quit\n}"), ConfigError::NoKey { line: 1 });
    // the commands are looked at before the keys
    assert_eq!(
        fault("bindings {\n a+b quits\n}"),
        ConfigError::InvalidCommand { line: 1, name: "quits".to_string() }
    );
}

#[test]
fn bindings_that_a_keyboard_reaches() {
    let config = Config::parse(TEXT).unwrap();
    let reachable = specialize_bindings(&vec![0x20, 0x68, 0x68], &config);
    let keys: Vec<(u8, u32)> = reachable.iter().map(|b| (b.mods.bits(), b.keysym)).collect();
    assert_eq!(keys, vec![(0, 0x68), (1, 0x68), (0, 0x20), (1, 0x20)]);
    assert_eq!(reachable[1].cmds, vec![Cmd::Move(Direction::Left)]);
    assert_eq!(specialize_bindings(&vec![], &config), vec![]);
}
