use ts_rubberstamp::install::{has_registration, install_entry, HookCommand, HookMatcher};

fn own_command() -> String {
    String::from("/usr/local/bin/ts-hook-validator")
}

fn foreign_entry() -> HookMatcher {
    HookMatcher {
        matcher: String::from("Write"),
        hooks: vec![HookCommand {
            command_type: String::from("command"),
            command: String::from("/usr/local/bin/other-tool"),
        }],
    }
}

fn stale_own_entry() -> HookMatcher {
    HookMatcher {
        matcher: String::from("Edit"),
        hooks: vec![HookCommand {
            command_type: String::from("command"),
            command: String::from("/old/path/ts-hook-validator"),
        }],
    }
}

#[test]
fn install_into_empty_list() {
    let result = install_entry(Vec::new(), own_command());
    assert_eq!(result.len(), 1);
    assert_eq!(result[0].matcher, "Edit");
    assert_eq!(result[0].hooks.len(), 1);
    assert_eq!(result[0].hooks[0].command_type, "command");
    assert_eq!(result[0].hooks[0].command, own_command());
}

#[test]
fn install_preserves_foreign_entries() {
    let entries = vec![foreign_entry(), stale_own_entry()];
    let result = install_entry(entries, own_command());
    assert_eq!(result.len(), 2);
    assert_eq!(result[0].matcher, "Write");
    assert_eq!(result[0].hooks[0].command, "/usr/local/bin/other-tool");
    assert_eq!(result[1].matcher, "Edit");
    assert_eq!(result[1].hooks[0].command, own_command());
}

#[test]
fn install_twice_leaves_one_entry() {
    let entries = vec![foreign_entry()];
    let once = install_entry(entries, own_command());
    let twice = install_entry(once, own_command());
    assert_eq!(twice.len(), 2);
    assert_eq!(twice[0].matcher, "Write");
    assert_eq!(twice[0].hooks[0].command, "/usr/local/bin/other-tool");
    assert_eq!(twice[1].matcher, "Edit");
    assert_eq!(twice[1].hooks.len(), 1);
    assert_eq!(twice[1].hooks[0].command_type, "command");
    assert_eq!(twice[1].hooks[0].command, own_command());
    let own: Vec<&HookMatcher> = twice
        .iter()
        .filter(|m| {
            m.matcher == "Edit" && m.hooks.iter().any(|h| h.command.contains("ts-hook-validator"))
        })
        .collect();
    assert_eq!(own.len(), 1);
}

#[test]
fn registration_is_detected() {
    let empty: Vec<HookMatcher> = Vec::new();
    assert!(!has_registration(&empty));
    let foreign = vec![foreign_entry()];
    assert!(!has_registration(&foreign));
    let installed = install_entry(foreign, own_command());
    assert!(has_registration(&installed));
}
