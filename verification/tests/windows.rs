use ramo::windows::{active_window_pid, address_for_pid, is_descendant, window_address};

fn parent(pid: u32) -> Option<u32> {
    match pid {
        10 => Some(5),
        5 => Some(1),
        1 => Some(0),
        7 => Some(7),
        _ => None,
    }
}

#[test]
fn focused_window_pid_must_be_a_real_pid() {
    assert_eq!(active_window_pid(Some(42)), Some(42));
    assert_eq!(active_window_pid(Some(0)), None);
    assert_eq!(active_window_pid(Some(1 << 40)), None);
    assert_eq!(active_window_pid(None), None);
}

#[test]
fn last_listed_window_of_a_pid_wins() {
    let w = vec![(5u64, "0xa".to_string()), (5u64, "0xb".to_string()), (6u64, String::new())];
    assert_eq!(window_address(&w, 5), Some("0xb".to_string()));
    assert_eq!(window_address(&w, 6), None);
    assert_eq!(window_address(&w, 9), None);
}

#[test]
fn window_address_climbs_to_the_terminal() {
    let w = vec![(5u64, "0xterm".to_string())];
    assert_eq!(address_for_pid(&w, 10, parent), Some("0xterm".to_string()));
    assert_eq!(address_for_pid(&w, 5, parent), Some("0xterm".to_string()));
    assert_eq!(address_for_pid(&w, 1, parent), None);
    assert_eq!(address_for_pid(&w, 99, parent), None);
}

#[test]
fn descendants_are_found_up_the_tree() {
    assert!(is_descendant(10, 1, parent));
    assert!(is_descendant(10, 5, parent));
    assert!(is_descendant(3, 3, parent));
    assert!(!is_descendant(10, 99, parent));
    assert!(!is_descendant(7, 8, parent));
}
