use script_runtime::gmcp::{split_message, GmcpTable};
use script_runtime::pattern::fill_groups;
use script_runtime::registry::{last_gag, Invocation, Registry};
use script_runtime::script::{hook_result, report};
use script_runtime::text::clean_text;

#[test]
fn invalid_pattern_is_refused() {
    let mut registry: Registry<u32> = Registry::new();
    assert_eq!(registry.register("^ok$", true, false, 1).unwrap(), 0);
    let err = registry.register("foo(bar", true, false, 2).unwrap_err();
    assert_eq!(err.pattern, "foo(bar");
    assert_eq!(registry.len(), 1);
    assert!(registry.get(1).is_none());
    assert_eq!(registry.register("[a-z]+", true, false, 3).unwrap(), 1);
    assert_eq!(registry.len(), 2);
}

#[test]
fn register_keeps_what_it_was_given() {
    let mut registry: Registry<u32> = Registry::new();
    let id = registry.register("^(\\w+) says", false, true, 9).unwrap();
    let entry = registry.get(id).unwrap();
    assert_eq!(entry.pattern.text(), "^(\\w+) says");
    assert!(!entry.enabled);
    assert!(entry.gag);
    assert_eq!(entry.callback, 9);
}

#[test]
fn matches_lists_enabled_matching_entries_in_order() {
    let mut registry: Registry<u32> = Registry::new();
    registry.register("^tell (\\w+) (.*)$", true, false, 1).unwrap();
    registry.register("^tell", false, true, 2).unwrap();
    registry.register("^say", true, true, 3).unwrap();
    registry.register("(bob)|(alice)", true, true, 4).unwrap();
    let plan = registry.matches("tell bob hello there");
    assert_eq!(plan.len(), 2);
    assert_eq!(plan[0].entry, 0);
    assert_eq!(plan[0].args, vec!["tell bob hello there", "bob", "hello there"]);
    assert!(!plan[0].gag);
    assert_eq!(plan[1].entry, 3);
    assert_eq!(plan[1].args, vec!["bob", "bob", ""]);
    assert!(plan[1].gag);
    assert!(last_gag(&plan));
    assert!(registry.matches("nothing here").is_empty());
}

#[test]
fn last_gag_of_an_empty_plan_is_false() {
    let plan: Vec<Invocation> = Vec::new();
    assert!(!last_gag(&plan));
    let plan = vec![
        Invocation { entry: 0, args: vec![], gag: true },
        Invocation { entry: 4, args: vec![], gag: false },
    ];
    assert!(!last_gag(&plan));
}

#[test]
fn removed_entry_no_longer_matches_and_positions_stay() {
    let mut registry: Registry<u32> = Registry::new();
    let a = registry.register("x", true, false, 1).unwrap();
    let b = registry.register("x", true, true, 2).unwrap();
    assert!(registry.remove(a));
    assert!(!registry.remove(a));
    assert!(!registry.set_enabled(a, true));
    assert!(registry.get(a).is_none());
    assert_eq!(registry.len(), 2);
    let plan = registry.matches("x");
    assert_eq!(plan.len(), 1);
    assert_eq!(plan[0].entry, b);
    let c = registry.register("x", true, false, 3).unwrap();
    assert_eq!(c, 2);
    assert_eq!(registry.get(b).unwrap().callback, 2);
}

#[test]
fn unknown_position_is_not_found() {
    let mut registry: Registry<u32> = Registry::new();
    assert!(!registry.set_enabled(0, true));
    assert!(!registry.remove(0));
    assert!(registry.get(0).is_none());
    registry.register("x", true, false, 1).unwrap();
    assert!(!registry.set_enabled(1, false));
    assert!(!registry.remove(7));
    assert!(registry.get(0).unwrap().enabled);
}

#[test]
fn set_enabled_changes_only_the_flag() {
    let mut registry: Registry<u32> = Registry::new();
    let a = registry.register("^a(b)?", true, true, 5).unwrap();
    assert!(registry.set_enabled(a, false));
    let entry = registry.get(a).unwrap();
    assert!(!entry.enabled);
    assert!(entry.gag);
    assert_eq!(entry.callback, 5);
    assert_eq!(entry.pattern.text(), "^a(b)?");
    assert!(registry.matches("ab").is_empty());
    assert!(registry.set_enabled(a, true));
    assert_eq!(registry.matches("a")[0].args, vec!["a", ""]);
}

#[test]
fn fill_groups_keeps_positions() {
    let groups = vec![Some(String::from("b")), None, Some(String::from("b")), None];
    assert_eq!(fill_groups(groups), vec!["b", "", "b", ""]);
    assert!(fill_groups(Vec::new()).is_empty());
}

#[test]
fn split_message_splits_at_the_first_space() {
    let m = split_message("Char.Vitals 100").unwrap();
    assert_eq!(m.msg_type, "Char.Vitals");
    assert_eq!(m.content, "100");
    let m = split_message("Comm.Channel a b  c").unwrap();
    assert_eq!(m.msg_type, "Comm.Channel");
    assert_eq!(m.content, "a b  c");
    let m = split_message(" x").unwrap();
    assert_eq!(m.msg_type, "");
    assert_eq!(m.content, "x");
    let m = split_message("Core.Ping ").unwrap();
    assert_eq!(m.msg_type, "Core.Ping");
    assert_eq!(m.content, "");
    let m = split_message("Zone.Näme ünï code").unwrap();
    assert_eq!(m.msg_type, "Zone.Näme");
    assert_eq!(m.content, "ünï code");
}

#[test]
fn split_message_refuses_a_message_without_space() {
    assert!(split_message("NoSpaceHere").is_none());
    assert!(split_message("").is_none());
    assert!(split_message("Tab\there").is_none());
}

#[test]
fn gmcp_table_looks_up_exact_types() {
    let mut table: GmcpTable<u32> = GmcpTable::new();
    assert!(table.lookup("Char.Vitals").is_none());
    table.register("Char.Vitals", 1);
    table.register("Room.Info", 2);
    assert_eq!(table.lookup("Char.Vitals"), Some(&1));
    assert_eq!(table.lookup("Room.Info"), Some(&2));
    assert!(table.lookup("Char").is_none());
    assert!(table.lookup("char.vitals").is_none());
    assert!(table.lookup("Char.Vitals ").is_none());
    assert_eq!(table.len(), 2);
}

#[test]
fn gmcp_table_overwrites_a_type() {
    let mut table: GmcpTable<u32> = GmcpTable::new();
    table.register("Char.Vitals", 1);
    table.register("Room.Info", 2);
    table.register("Char.Vitals", 3);
    assert_eq!(table.lookup("Char.Vitals"), Some(&3));
    assert_eq!(table.lookup("Room.Info"), Some(&2));
    assert_eq!(table.len(), 2);
}

#[test]
fn clean_text_strips_escape_sequences() {
    assert_eq!(clean_text("\x1b[31mHello\x1b[0m").unwrap(), "Hello");
    assert_eq!(clean_text("plain").unwrap(), "plain");
    assert_eq!(clean_text("\x1b[1;32mHP: 10\x1b[0m >").unwrap(), "HP: 10 >");
    assert_eq!(clean_text("").unwrap(), "");
}

#[test]
fn report_appends_the_message_of_a_failure() {
    let mut events = vec![String::from("one")];
    report(None, &mut events);
    assert_eq!(events, vec!["one"]);
    report(Some(String::from("two")), &mut events);
    assert_eq!(events, vec!["one", "two"]);
}

#[test]
fn hook_result_hands_a_failure_on() {
    assert!(hook_result(None).is_ok());
    assert!(hook_result(Some(None)).is_ok());
    assert_eq!(hook_result(Some(Some(String::from("bad")))).unwrap_err().message, "bad");
}
