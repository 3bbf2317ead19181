use waypoint::config::{Button, Mods};

fn check(s: &str, expected: Option<Mods>) {
    assert_eq!(Mods::one_from_str(s), expected);
}

fn check_printed(modifier_name: &str, input: &str) {
    assert_eq!(
        Mods::one_from_str(input).unwrap().to_string().unwrap(),
        format!("Mods({})", modifier_name.to_uppercase()),
    );
}

#[test]
fn test_one_modifier_from_str() {
    check("alt", Some(Mods::alt()));
    check("ALT", Some(Mods::alt()));
    check("Alt", Some(Mods::alt()));
    check("Alt-", None);
    check("None", None);

    for modifier_name in [
        "shift", "caps", "ctrl", "alt", "num", "mod3", "logo", "mod5",
    ] {
        check_printed(modifier_name, modifier_name);
        check_printed(modifier_name, &modifier_name.to_uppercase());
    }
}

#[test]
fn modifier_bits() {
    assert_eq!(Mods::shift().bits(), 1);
    assert_eq!(Mods::caps().bits(), 2);
    assert_eq!(Mods::ctrl().bits(), 4);
    assert_eq!(Mods::alt().bits(), 8);
    assert_eq!(Mods::num().bits(), 16);
    assert_eq!(Mods::mod3().bits(), 32);
    assert_eq!(Mods::logo().bits(), 64);
    assert_eq!(Mods::mod5().bits(), 128);
    assert_eq!(Mods::shift().union(Mods::alt()), Mods(9));
    assert!(Mods(0).is_empty());
    assert_eq!(Mods(9).to_string(), None);
    assert_eq!(Mods::one_from_str(""), None);
    assert_eq!(Mods::one_from_str("al"), None);
    assert_eq!(Mods::one_from_str("MoD3"), Some(Mods::mod3()));
}

#[test]
fn button_codes() {
    assert_eq!(Button::Left.code(), 0x110);
    assert_eq!(Button::Right.code(), 0x111);
    assert_eq!(Button::Middle.code(), 0x112);
}
