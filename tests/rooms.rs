use listening_room::room::{Room, RoomRegistry};

fn room(id: &str, title: &str, owner: &str) -> Room {
    Room { id: id.to_string(), title: title.to_string(), owner: owner.to_string() }
}

#[test]
fn valid_room_is_created_and_retrievable() {
    let mut reg = RoomRegistry::new();
    assert_eq!(reg.create_room(room("lofi", "Lofi Beats", "u1")), Ok(()));
    let got = reg.get_room(&"lofi".to_string()).expect("room stored");
    assert_eq!(got.id, "lofi");
    assert_eq!(got.title, "Lofi Beats");
    assert_eq!(got.owner, "u1");
    assert!(reg.exists_room(&"lofi".to_string()));
    assert!(!reg.exists_room(&"jazz".to_string()));
    assert!(reg.get_room(&"jazz".to_string()).is_none());
}

#[test]
fn reserved_id_is_rejected_naming_it() {
    let mut reg = RoomRegistry::new();
    let errors = reg.create_room(room("new", "Title", "u1")).unwrap_err();
    assert_eq!(errors, vec!["Room id can't be new.".to_string()]);
    assert!(errors[0].contains("new"));
    assert!(!reg.exists_room(&"new".to_string()));
}

#[test]
fn long_id_is_rejected() {
    let mut reg = RoomRegistry::new();
    let id = "a".repeat(40);
    let errors = reg.create_room(room(&id, "Title", "u1")).unwrap_err();
    assert_eq!(errors, vec!["Room id must be less than 32 characters long.".to_string()]);
    let ok_id = "b".repeat(31);
    assert_eq!(reg.create_room(room(&ok_id, "Title", "u1")), Ok(()));
    let edge = "c".repeat(32);
    assert!(reg.create_room(room(&edge, "Title", "u1")).is_err());
}

#[test]
fn empty_title_is_rejected() {
    let mut reg = RoomRegistry::new();
    let errors = reg.create_room(room("lofi", "", "u1")).unwrap_err();
    assert_eq!(errors, vec!["Room name can't be empty".to_string()]);
}

#[test]
fn long_title_is_rejected() {
    let r = room("lofi", &"t".repeat(64), "u1");
    assert_eq!(
        r.validate(),
        Err(vec!["Room title must be less than 64 characters long.".to_string()])
    );
    assert_eq!(room("lofi", &"t".repeat(63), "u1").validate(), Ok(()));
}

#[test]
fn forbidden_character_is_rejected() {
    let r = room("lo fi", "Title", "u1");
    assert_eq!(r.validate(), Err(vec!["Room id contains forbidden character.".to_string()]));
    assert_eq!(room("Jazz-1", "Title", "u1").validate(), Ok(()));
    assert!(room("caf\u{e9}", "Title", "u1").validate().is_err());
    assert!(room("\u{663}", "Title", "u1").validate().is_err());
}

#[test]
fn validation_collects_every_violation() {
    let errors = room("", "", "u1").validate().unwrap_err();
    assert!(errors.len() >= 2);
    assert_eq!(
        errors,
        vec!["Room id must not be empty.".to_string(), "Room name can't be empty".to_string()]
    );
    let many = room(&"!".repeat(40), "", "u1").validate().unwrap_err();
    assert_eq!(many.len(), 3);
}

#[test]
fn second_create_conflicts_and_keeps_first() {
    let mut reg = RoomRegistry::new();
    assert_eq!(reg.create_room(room("jazz-1", "Jazz", "alice")), Ok(()));
    let errors = reg.create_room(room("jazz-1", "Other", "bob")).unwrap_err();
    assert_eq!(errors, vec!["Room id jazz-1 is already taken.".to_string()]);
    let got = reg.get_room(&"jazz-1".to_string()).unwrap();
    assert_eq!(got.title, "Jazz");
    assert_eq!(got.owner, "alice");
    assert_eq!(reg.list_rooms().len(), 1);
}

#[test]
fn rooms_are_listed_in_creation_order() {
    let mut reg = RoomRegistry::new();
    reg.create_room(room("a", "A", "u")).unwrap();
    reg.create_room(room("b", "B", "u")).unwrap();
    let ids: Vec<String> = reg.list_rooms().into_iter().map(|r| r.id).collect();
    assert_eq!(ids, vec!["a".to_string(), "b".to_string()]);
}

#[test]
fn room_fields_round_trip() {
    let r = room("lofi", "Lofi Beats", "u1");
    let fields = r.to_fields();
    assert_eq!(
        fields,
        vec![
            ("id".to_string(), "lofi".to_string()),
            ("title".to_string(), "Lofi Beats".to_string()),
            ("owner".to_string(), "u1".to_string()),
        ]
    );
    let back = Room::from_fields(Some(fields)).ok().unwrap();
    assert_eq!(back.id, "lofi");
    assert_eq!(back.title, "Lofi Beats");
    assert_eq!(back.owner, "u1");
}

#[test]
fn room_fields_errors() {
    assert_eq!(Room::from_fields(None).err(), Some("Didn't find room with this id"));
    let missing_title = vec![("id".to_string(), "x".to_string())];
    assert_eq!(Room::from_fields(Some(missing_title)).err(), Some("Missing title field"));
    assert_eq!(Room::from_fields(Some(vec![])).err(), Some("Missing id field"));
    let missing_owner = vec![
        ("title".to_string(), "t".to_string()),
        ("id".to_string(), "x".to_string()),
    ];
    assert_eq!(Room::from_fields(Some(missing_owner)).err(), Some("Missing owner field"));
}
