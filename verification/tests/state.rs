use vchat::nicks::Nicks;
use vchat::rate::RateLimit;
use vchat::rooms::{RoomSummary, Rooms};

fn pairs(list: &Vec<RoomSummary>) -> Vec<(&str, u32)> {
    list.iter().map(|room| (room.name.as_str(), room.count)).collect()
}

#[test]
fn rooms_are_listed_by_name_with_their_counts() {
    let mut rooms = Rooms::new();
    for name in ["b", "ab", "a", "я", "Z", "abc"] {
        assert!(rooms.add_at(name.to_owned(), 100_000));
    }
    rooms.inc("ab");
    rooms.inc("ab");
    rooms.inc("я");
    rooms.inc("nowhere");
    let list = rooms.list_at(100_001);
    assert_eq!(
        pairs(&list),
        vec![("Z", 0), ("a", 0), ("ab", 2), ("abc", 0), ("b", 0), ("я", 1)]
    );
}

#[test]
fn names_are_ordered_as_strings_are() {
    let names = ["", "a", "aa", "ab", "é", "я", "ё", "中", "😀", "\u{ffff}", "Z", "0", "-", "_"];
    for a in names {
        for b in names {
            assert_eq!(vchat::text::is_before(a, b), a < b);
            assert_eq!(vchat::text::same_text(a, b), a == b);
        }
    }
}

#[test]
fn old_rooms_are_forgotten() {
    let mut rooms = Rooms::new();
    rooms.add_at("old".to_owned(), 1_000);
    rooms.add_at("new".to_owned(), 1_001);
    let list = rooms.list_at(1_000 + 12 * 3600);
    assert_eq!(pairs(&list), vec![("new", 0)]);
    let list = rooms.list_at(2_000);
    assert_eq!(pairs(&list), vec![("new", 0)]);
}

#[test]
fn a_room_made_at_time_zero_is_not_listed() {
    let mut rooms = Rooms::new();
    rooms.add_at("zero".to_owned(), 0);
    rooms.add_at("one".to_owned(), 1);
    assert_eq!(pairs(&rooms.list_at(5)), vec![("one", 0)]);
}

#[test]
fn no_more_than_two_hundred_rooms() {
    let mut rooms = Rooms::new();
    for i in 0..200 {
        assert!(rooms.add_at(format!("room{i}"), 50_000));
    }
    assert!(!rooms.add_at("another".to_owned(), 50_000));
    assert!(!rooms.add_at("room0".to_owned(), 50_000));
    assert_eq!(rooms.list_at(50_000).len(), 200);
}

#[test]
fn adding_a_room_again_keeps_it() {
    let mut rooms = Rooms::new();
    rooms.add_at("a".to_owned(), 50_000);
    rooms.inc("a");
    assert!(rooms.add_at("a".to_owned(), 60_000));
    assert_eq!(pairs(&rooms.list_at(50_001)), vec![("a", 1)]);
    assert!(rooms.list_at(50_000 + 12 * 3600).is_empty());
}

#[test]
fn leaving_undoes_entering_and_stops_at_zero() {
    let mut rooms = Rooms::new();
    rooms.add_at("a".to_owned(), 50_000);
    rooms.inc("a");
    rooms.inc("a");
    rooms.dec("a");
    assert_eq!(pairs(&rooms.list_at(50_000)), vec![("a", 1)]);
    rooms.dec("a");
    rooms.dec("a");
    rooms.dec("b");
    assert_eq!(pairs(&rooms.list_at(50_000)), vec![("a", 0)]);
}

#[test]
fn rooms_by_the_system_clock() {
    let mut rooms = Rooms::new();
    assert!(rooms.add("now".to_owned()));
    assert_eq!(pairs(&rooms.list()), vec![("now", 0)]);
}

#[test]
fn a_name_stays_taken_for_four_hours() {
    let mut nicks = Nicks::new();
    assert!(nicks.is_available_at("r", "bob", 1_000));
    nicks.register_at("r", "bob", 7, 1_000);
    assert!(!nicks.is_available_at("r", "bob", 1_000));
    assert!(!nicks.is_available_at("r", "bob", 1_000 + 4 * 3600));
    assert!(nicks.is_available_at("r", "bob", 1_001 + 4 * 3600));
    assert!(!nicks.is_available_at("r", "bob", 0));
    assert!(nicks.is_available_at("r", "Bob", 1_000));
    assert!(nicks.is_available_at("q", "bob", 1_000));
}

#[test]
fn a_name_that_was_given_up_is_free() {
    let mut nicks = Nicks::new();
    nicks.register_at("r", "bob", 7, 100_000);
    nicks.register_at("r", "ann", 7, 100_000);
    nicks.release("r", "bob");
    nicks.release("r", "nobody");
    nicks.release("q", "bob");
    assert!(nicks.is_available_at("r", "bob", 100_000));
    assert!(!nicks.is_available_at("r", "ann", 100_000));
    assert!(!nicks.is_available_at("r", "bob", 4 * 3600));
}

#[test]
fn taking_a_name_forgets_expired_ones_only() {
    let mut nicks = Nicks::new();
    nicks.register_at("r", "old", 0, 1_000);
    nicks.register_at("r", "edge", 0, 1_001);
    nicks.register_at("r", "new", 0, 1_001 + 4 * 3600);
    assert!(nicks.is_available_at("r", "old", 2_000));
    assert!(!nicks.is_available_at("r", "edge", 2_000));
    assert!(!nicks.is_available_at("r", "new", 1_001 + 4 * 3600));
}

#[test]
fn names_by_the_system_clock() {
    let mut nicks = Nicks::new();
    assert!(nicks.is_available("r", "bob"));
    nicks.register("r", "bob", 1);
    assert!(!nicks.is_available("r", "bob"));
}

#[test]
fn a_window_lets_the_limit_through() {
    let mut rate = RateLimit::new();
    for _ in 0..5 {
        assert!(rate.check_at("1.2.3.4", 5, 60, 1_000));
    }
    assert!(!rate.check_at("1.2.3.4", 5, 60, 1_000));
    assert!(!rate.check_at("1.2.3.4", 5, 60, 1_060));
    assert!(rate.check_at("5.6.7.8", 5, 60, 1_000));
    for _ in 0..5 {
        assert!(rate.check_at("1.2.3.4", 5, 60, 1_061));
    }
    assert!(!rate.check_at("1.2.3.4", 5, 60, 1_061));
}

#[test]
fn the_first_requests_pass_whoever_else_asks() {
    let mut rate = RateLimit::new();
    rate.check_at("a", 3, 60, 900);
    for n in 1..=6u64 {
        assert_eq!(rate.check_at("a", 3, 60, 1_000 + 10 * n), n <= 3);
        rate.check_at("b", 3, 60, 1_000 + 10 * n);
    }
}

#[test]
fn a_limit_of_zero_lets_nothing_through_at_first() {
    let mut rate = RateLimit::new();
    assert!(!rate.check_at("a", 0, 60, 1_000));
    assert!(!rate.check_at("a", 0, 60, 1_060));
    assert!(rate.check_at("a", 0, 60, 1_061));
}

#[test]
fn a_clock_that_goes_back_starts_a_new_window() {
    let mut rate = RateLimit::new();
    assert!(rate.check_at("a", 1, 60, 1_000));
    assert!(!rate.check_at("a", 1, 60, 1_000));
    assert!(rate.check_at("a", 1, 60, 999));
    assert!(!rate.check_at("a", 1, 60, 1_000));
}

#[test]
fn old_addresses_are_forgotten_when_there_are_many() {
    let mut rate = RateLimit::new();
    assert!(rate.check_at("kept", 1, 60, 1_000));
    for i in 0..1_000 {
        assert!(rate.check_at(&format!("10.0.{i}"), 1, 60, 880));
    }
    assert!(!rate.check_at("kept", 1, 60, 1_001));
    assert!(rate.check_at("10.0.0", 1, 60, 1_001));
}

#[test]
fn requests_by_the_system_clock() {
    let mut rate = RateLimit::new();
    assert!(rate.check("a", 1, 3600));
    assert!(!rate.check("a", 1, 3600));
}
