use txxxt::net::rooms::{expire_rooms, open_room, NameTable, PendingRoom};

fn room(creator: u64, created_at: u64) -> PendingRoom {
    PendingRoom { creator, created_at, session_limit: 300 }
}

#[test]
fn table_insert_get_remove() {
    let mut online: NameTable<u64> = NameTable::new();
    assert!(!online.contains("alice"));
    online.insert("alice".to_string(), 7);
    online.insert("bob".to_string(), 8);
    assert_eq!(online.get("alice"), Some(7));
    online.insert("alice".to_string(), 9);
    assert_eq!(online.get("alice"), Some(9));
    assert_eq!(online.remove("alice"), Some(9));
    assert_eq!(online.get("alice"), None);
    assert_eq!(online.remove("alice"), None);
    assert_eq!(online.get("bob"), Some(8));
}

#[test]
fn opened_room_is_joined_once() {
    let mut rooms = NameTable::new();
    // bytes 0..6 draw "ABCDEF"
    let code = open_room(&mut rooms, &[0, 1, 2, 3, 4, 5], room(1, 100));
    assert_eq!(code, Some("ABCDEF".to_string()));
    // the same draw is taken now
    assert_eq!(open_room(&mut rooms, &[0, 1, 2, 3, 4, 5], room(2, 100)), None);
    assert_eq!(rooms.remove("ABCDEF"), Some(room(1, 100)));
    assert_eq!(rooms.remove("ABCDEF"), None);
}

#[test]
fn stale_rooms_expire_after_two_minutes() {
    let mut rooms = NameTable::new();
    rooms.insert("OLD111".to_string(), room(1, 0));
    rooms.insert("EDGE22".to_string(), room(2, 80));
    rooms.insert("NEW333".to_string(), room(3, 190));
    expire_rooms(&mut rooms, 200);
    assert!(!rooms.contains("OLD111"));
    assert!(rooms.contains("EDGE22"));
    assert!(rooms.contains("NEW333"));
    expire_rooms(&mut rooms, 201);
    assert!(!rooms.contains("EDGE22"));
    assert!(rooms.contains("NEW333"));
}
