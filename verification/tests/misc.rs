use element::error::ElementError;
use element::module::{CommandModule, Module, ModuleRegistry};
use element::platform::{password_from_bytes, password_length};
use element::shortcut::parse_lnk_strings;
use element::theme::{apply_config_accent, parse_accent, ACCENT_DEFAULT};

fn cmd(command: &str, name: &str) -> CommandModule {
    CommandModule { command: command.to_string(), name: name.to_string(), description: "a command".to_string() }
}

#[test]
fn registry_keeps_one_module_per_command() {
    let mut r = ModuleRegistry::new();
    r.register(cmd("calc", "Calculator"));
    r.register(cmd("clip", "Clipboard"));
    r.register(cmd("calc", "Calculator 2"));
    assert_eq!(r.get("calc").map(|m| m.name()), Some("Calculator 2"));
    assert_eq!(r.get("calc").map(|m| m.command()), Some("calc"));
    assert!(r.get("nope").is_none());
    assert_eq!(r.all_commands(), vec!["calc".to_string(), "clip".to_string()]);
    let found = r.search("cl");
    assert_eq!(found, vec![("clip".to_string(), "Clipboard".to_string(), "a command".to_string())]);
    assert_eq!(r.search("").len(), 2);
}

#[test]
fn passwords_use_the_alphabet_and_clamp() {
    assert_eq!(password_length(3), 8);
    assert_eq!(password_length(200), 64);
    assert_eq!(password_length(16), 16);
    assert_eq!(password_from_bytes(&[0, 26, 52, 62, 79, 80]), "aA0!}a");
    let pw = password_from_bytes(&(0..=255u8).collect::<Vec<_>>());
    assert_eq!(pw.chars().count(), 256);
    assert!(pw.chars().all(|c| c.is_ascii() && !c.is_whitespace()));
}

#[test]
fn accent_parses_hex() {
    assert_eq!(parse_accent("#569cd4"), Some((0x56, 0x9c, 0xd4)));
    assert_eq!(parse_accent("  ##FFffFF "), Some((255, 255, 255)));
    assert_eq!(parse_accent("#12345"), None);
    assert_eq!(parse_accent("#12345g"), None);
    assert_eq!(parse_accent("#abc"), None);
    assert_eq!(parse_accent("+f+f+f"), None);
    assert_eq!(parse_accent("aé123"), None);
    assert_eq!(parse_accent("#é12345"), None);
    let mut a = ACCENT_DEFAULT;
    apply_config_accent(&mut a, "not a colour");
    assert_eq!(a, ACCENT_DEFAULT);
    apply_config_accent(&mut a, "#e8540c");
    assert_eq!(a, (0xe8, 0x54, 0x0c));
}

#[test]
fn error_messages() {
    assert_eq!(ElementError::Config("bad".into()).message(), "Configuration error: bad");
    assert_eq!(
        ElementError::Provider { provider: "apps".into(), detail: "boom".into() }.message(),
        "Search provider 'apps' failed: boom"
    );
    assert_eq!(ElementError::Other("x".into()).message(), "x");
    let io = ElementError::Io(std::io::Error::new(std::io::ErrorKind::Other, "disk"));
    assert!(io.message().starts_with("I/O error: "));
}

fn lnk_with(flags: u32, strings: &[&[u16]]) -> Vec<u8> {
    let mut d = vec![0u8; 76];
    d[0] = 0x4C;
    d[0x14..0x18].copy_from_slice(&flags.to_le_bytes());
    for s in strings {
        d.extend_from_slice(&(s.len() as u16).to_le_bytes());
        for u in *s {
            d.extend_from_slice(&u.to_le_bytes());
        }
    }
    d
}

#[test]
fn shortcut_strings_are_read() {
    let wd: Vec<u16> = "C:\\App".encode_utf16().chain([0]).collect();
    let icon: Vec<u16> = "C:\\App\\a.ico".encode_utf16().chain([0]).collect();
    let d = lnk_with(0x10 | 0x40, &[&wd, &icon]);
    let s = parse_lnk_strings(&d).unwrap();
    assert_eq!(s.working_dir, "C:\\App");
    assert_eq!(s.icon_location, "C:\\App\\a.ico");
    assert!(parse_lnk_strings(&d[..70]).is_none());
    let mut bad = d.clone();
    bad[0] = 0;
    assert!(parse_lnk_strings(&bad).is_none());
    let none = parse_lnk_strings(&lnk_with(0, &[])).unwrap();
    assert_eq!(none.working_dir, "");
    assert_eq!(none.icon_location, "");
}
