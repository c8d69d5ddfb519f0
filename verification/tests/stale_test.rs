use jarvish::escape::single_quote;
use jarvish::stale::{
    cleanup_stale_compdumps, cleanup_stale_init_scripts, fresh_init_script_name, init_script_name,
    is_stale_compdump_name, parse_init_script_pid, probe_target, process_is_alive, script_suspect,
    SignalProbe,
};

#[test]
fn parse_init_script_pid_accepts_both_formats() {
    assert_eq!(
        parse_init_script_pid(".daemon_init.1234.8d9e13a523321077.zsh"),
        Some(1234)
    );
    assert_eq!(parse_init_script_pid(".daemon_init.57763.zsh"), Some(57763));
}

#[test]
fn parse_init_script_pid_rejects_unrelated_names() {
    for name in [
        ".zshrc",
        "daemon_init.123.zsh",
        ".daemon_init.zsh",
        ".daemon_init..zsh",
        ".daemon_init.abc.zsh",
        ".daemon_init.123.zsh.bak",
        ".daemon_init.-1.deadbeef.zsh",
    ] {
        assert_eq!(
            parse_init_script_pid(name),
            None,
            "{name} should not be treated as an init script"
        );
    }
}

#[test]
fn is_stale_compdump_name_matches_only_rename_temp_files() {
    assert!(is_stale_compdump_name(".zcompdump.MacBookPro.3262"));
    assert!(is_stale_compdump_name(
        ".zcompdump.macnoMacBook-Pro.local.13066"
    ));

    assert!(!is_stale_compdump_name(".zcompdump"));
    assert!(!is_stale_compdump_name(".zcompdump_capture"));
    assert!(!is_stale_compdump_name(".zcompdump_capture.Mac.123"));
    assert!(!is_stale_compdump_name(".zcompdump.MacBookPro.abc"));
    assert!(!is_stale_compdump_name(".zshrc"));
    assert!(!is_stale_compdump_name("notes.txt"));
}

#[test]
fn single_quote_wraps_plain_string() {
    assert_eq!(single_quote("/tmp/foo"), "'/tmp/foo'");
}

#[test]
fn single_quote_escapes_embedded_single_quotes() {
    assert_eq!(single_quote("/tmp/it's"), r"'/tmp/it'\''s'");
}

#[test]
fn single_quote_leaves_expansion_chars_literal() {
    for s in ["/tmp/$HOME", "/tmp/`id`", "/tmp/*", "/tmp/~x", "/tmp/a b"] {
        let quoted = single_quote(s);
        assert!(quoted.starts_with('\'') && quoted.ends_with('\''));
        assert_eq!(&quoted[1..quoted.len() - 1], s);
    }
}

fn strings(names: &[&str]) -> Vec<String> {
    names.iter().map(|n| n.to_string()).collect()
}

#[test]
fn cleanup_removes_only_dead_pid_scripts() {
    let names = strings(&[
        ".daemon_init.4711.deadbeefdeadbeef.zsh",
        ".daemon_init.4711.zsh",
        ".daemon_init.100.cafecafecafecafe.zsh",
        ".daemon_init.815.cafecafecafecafe.zsh",
        ".zshrc",
        "notes.txt",
    ]);
    assert_eq!(script_suspect(&names[0], 100), Some(4711));
    assert_eq!(script_suspect(&names[2], 100), None);
    assert_eq!(script_suspect(&names[4], 100), None);
    let removed = cleanup_stale_init_scripts(&names, 100, &[4711, 100]);
    assert_eq!(
        removed,
        vec![
            ".daemon_init.4711.deadbeefdeadbeef.zsh",
            ".daemon_init.4711.zsh"
        ]
    );
}

#[test]
fn cleanup_compdumps_removes_temps_but_keeps_the_real_cache() {
    let names = strings(&[
        ".zcompdump.MacBookPro.3262",
        ".zcompdump.macnoMacBook-Pro.local.13066",
        ".zcompdump",
        ".zcompdump_capture",
        ".zshrc",
    ]);
    assert_eq!(
        cleanup_stale_compdumps(&names),
        vec![
            ".zcompdump.MacBookPro.3262",
            ".zcompdump.macnoMacBook-Pro.local.13066"
        ]
    );
}

#[test]
fn empty_directory_has_nothing_to_remove() {
    assert!(cleanup_stale_compdumps(&[]).is_empty());
    assert!(cleanup_stale_init_scripts(&[], 1, &[2, 3]).is_empty());
}

#[test]
fn process_is_dead_only_where_there_is_none() {
    assert!(process_is_alive(17, SignalProbe::Delivered));
    assert!(process_is_alive(17, SignalProbe::Failed));
    assert!(!process_is_alive(17, SignalProbe::NoSuchProcess));
    assert!(process_is_alive(3_000_000_000, SignalProbe::NoSuchProcess));
    assert_eq!(probe_target(17), Some(17));
    assert_eq!(probe_target(2_147_483_647), Some(2_147_483_647));
    assert_eq!(probe_target(2_147_483_648), None);
}

#[test]
fn script_name_tells_its_process() {
    let name = init_script_name(1234, 0x8d9e_13a5_2332_1077);
    assert_eq!(name, ".daemon_init.1234.8d9e13a523321077.zsh");
    assert_eq!(init_script_name(0, 7), ".daemon_init.0.0000000000000007.zsh");
    for pid in [0, 9, 10, 57763, u32::MAX] {
        assert_eq!(parse_init_script_pid(&init_script_name(pid, 1)), Some(pid));
    }
}

#[test]
fn random_script_names_differ() {
    let first = fresh_init_script_name(42);
    let second = fresh_init_script_name(42);
    assert_ne!(first, second);
    assert_eq!(parse_init_script_pid(&first), Some(42));
    assert_eq!(first.len(), ".daemon_init.42.0000000000000000.zsh".len());
}

#[test]
fn process_number_must_fit() {
    assert_eq!(parse_init_script_pid(".daemon_init.4294967295.zsh"), Some(4294967295));
    assert_eq!(parse_init_script_pid(".daemon_init.4294967296.zsh"), None);
    assert_eq!(parse_init_script_pid(".daemon_init.00012.zsh"), Some(12));
    assert_eq!(parse_init_script_pid(".daemon_init.+12.zsh"), Some(12));
    assert_eq!(parse_init_script_pid(".daemon_init.+.zsh"), None);
}

#[test]
fn cache_name_needs_host_and_process() {
    assert!(!is_stale_compdump_name(".zcompdump..123"));
    assert!(!is_stale_compdump_name(".zcompdump.host."));
    assert!(!is_stale_compdump_name(".zcompdump.123"));
    assert!(is_stale_compdump_name(".zcompdump.1.2"));
}
