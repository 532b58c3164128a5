use pw::{add, find, get, init, list, read, remove, update};
use pw::{PasswordEntry, PwError, Stored, Written};

fn entry(name: &str, username: &str, password: &str) -> PasswordEntry {
    PasswordEntry {
        name: name.to_string(),
        username: username.to_string(),
        password: password.to_string(),
    }
}

fn json_error() -> serde_json::Error {
    serde_json::from_str::<Vec<String>>("no list").unwrap_err()
}

fn three() -> Vec<PasswordEntry> {
    vec![
        entry("mail", "a@b.com", "p1"),
        entry("bank", "", "tiger"),
        entry("forum", "ann", "walnut"),
    ]
}

#[test]
fn init_fails_if_pw_file_already_exists() {
    let r = init("pw.scrypt", true);
    match r {
        Err(e) => {
            assert!(matches!(&e, PwError::FileAlreadyExists(f) if f == "pw.scrypt"));
            let shown = format!("Error: {}", e.message());
            assert!(shown.contains("Error: File already exists: "));
        }
        Ok(_) => panic!("a file that exists was overwritten"),
    }
}

#[test]
fn get_fails_if_pw_file_does_not_exist() {
    let r = get("pw.scrypt", Stored::Absent, "bogus");
    match r {
        Err(e) => {
            assert!(matches!(&e, PwError::FileNotFound(f) if f == "pw.scrypt"));
            let shown = format!("Error: {}", e.message());
            assert!(shown.contains("Error: File not found: "));
        }
        Ok(_) => panic!("an entry came out of no file"),
    }
}

#[test]
fn init_succeeds_once() {
    let first = init("/tmp/x", false);
    assert_eq!(first.unwrap(), Vec::<PasswordEntry>::new());
    let second = init("/tmp/x", true);
    assert!(matches!(second, Err(PwError::FileAlreadyExists(f)) if f == "/tmp/x"));
}

#[test]
fn get_on_missing_store() {
    let r = get("/tmp/missing", Stored::Absent, "foo");
    assert!(matches!(r, Err(PwError::FileNotFound(f)) if f == "/tmp/missing"));
}

#[test]
fn every_operation_needs_the_file() {
    assert!(matches!(list("s", Stored::Absent), Err(PwError::FileNotFound(f)) if f == "s"));
    assert!(matches!(read("s", Stored::Absent), Err(PwError::FileNotFound(f)) if f == "s"));
    assert!(matches!(
        add("s", Stored::Absent, entry("a", "b", "c")),
        Err(PwError::FileNotFound(f)) if f == "s"
    ));
    assert!(matches!(
        update("s", Stored::Absent, entry("a", "b", "c")),
        Err(PwError::FileNotFound(f)) if f == "s"
    ));
    assert!(matches!(remove("s", Stored::Absent, "a"), Err(PwError::FileNotFound(f)) if f == "s"));
}

#[test]
fn add_then_get_returns_the_entry() {
    let empty = init("store", false).unwrap();
    let data = add("store", Stored::Entries(empty), entry("mail", "a@b.com", "p1")).unwrap();
    let found = get("store", Stored::Entries(data), "mail").unwrap();
    assert_eq!(found, entry("mail", "a@b.com", "p1"));
}

#[test]
fn add_twice_is_refused() {
    let empty = init("store", false).unwrap();
    let data = add("store", Stored::Entries(empty), entry("mail", "a@b.com", "p1")).unwrap();
    assert_eq!(data, vec![entry("mail", "a@b.com", "p1")]);
    let again = add(
        "store",
        Stored::Entries(vec![entry("mail", "a@b.com", "p1")]),
        entry("mail", "other", "meadow"),
    );
    assert!(matches!(again, Err(PwError::AlreadyExists())));
    let listed = list("store", Stored::Entries(data)).unwrap();
    assert_eq!(listed.len(), 1);
    assert_eq!(listed, vec![entry("mail", "a@b.com", "p1")]);
}

#[test]
fn add_appends_at_the_end() {
    let data = add("store", Stored::Entries(three()), entry("shop", "ann", "harbor")).unwrap();
    assert_eq!(
        data,
        vec![
            entry("mail", "a@b.com", "p1"),
            entry("bank", "", "tiger"),
            entry("forum", "ann", "walnut"),
            entry("shop", "ann", "harbor"),
        ]
    );
}

#[test]
fn names_are_case_sensitive() {
    let data = add("store", Stored::Entries(three()), entry("Mail", "x", "y")).unwrap();
    assert_eq!(data.len(), 4);
    assert!(matches!(get("store", Stored::Entries(data), "MAIL"), Err(PwError::NotFound())));
}

#[test]
fn get_finds_by_name() {
    assert_eq!(get("store", Stored::Entries(three()), "bank").unwrap(), entry("bank", "", "tiger"));
    assert_eq!(
        get("store", Stored::Entries(three()), "forum").unwrap(),
        entry("forum", "ann", "walnut")
    );
    assert!(matches!(get("store", Stored::Entries(three()), "shop"), Err(PwError::NotFound())));
    assert!(matches!(get("store", Stored::Entries(Vec::new()), "mail"), Err(PwError::NotFound())));
}

#[test]
fn get_takes_the_first_of_a_shared_name() {
    let data = vec![entry("a", "1", "x"), entry("b", "2", "y"), entry("b", "3", "z")];
    assert_eq!(get("store", Stored::Entries(data), "b").unwrap(), entry("b", "2", "y"));
}

#[test]
fn list_keeps_the_stored_order() {
    assert_eq!(list("store", Stored::Entries(three())).unwrap(), three());
    assert_eq!(list("store", Stored::Entries(Vec::new())).unwrap(), Vec::new());
    assert_eq!(read("store", Stored::Entries(three())).unwrap(), three());
}

#[test]
fn update_changes_account_and_secret_in_place() {
    let data = update("store", Stored::Entries(three()), entry("bank", "bob", "pebble")).unwrap();
    assert_eq!(
        data,
        vec![
            entry("mail", "a@b.com", "p1"),
            entry("bank", "bob", "pebble"),
            entry("forum", "ann", "walnut"),
        ]
    );
}

#[test]
fn update_of_an_unknown_name_is_refused() {
    let r = update("store", Stored::Entries(three()), entry("shop", "bob", "pebble"));
    assert!(matches!(r, Err(PwError::NotFound())));
    let r = update("store", Stored::Entries(Vec::new()), entry("mail", "bob", "pebble"));
    assert!(matches!(r, Err(PwError::NotFound())));
}

#[test]
fn update_changes_the_first_of_a_shared_name_only() {
    let data = vec![entry("a", "1", "x"), entry("b", "2", "y"), entry("b", "3", "z")];
    let data = update("store", Stored::Entries(data), entry("b", "9", "w")).unwrap();
    assert_eq!(data, vec![entry("a", "1", "x"), entry("b", "9", "w"), entry("b", "3", "z")]);
}

#[test]
fn remove_then_get_is_refused() {
    let data = remove("store", Stored::Entries(three()), "mail").unwrap();
    assert_eq!(data, vec![entry("bank", "", "tiger"), entry("forum", "ann", "walnut")]);
    assert!(matches!(get("store", Stored::Entries(data), "mail"), Err(PwError::NotFound())));
}

#[test]
fn remove_of_an_unknown_name_is_refused() {
    assert!(matches!(remove("store", Stored::Entries(three()), "shop"), Err(PwError::NotFound())));
    assert!(matches!(
        remove("store", Stored::Entries(Vec::new()), "mail"),
        Err(PwError::NotFound())
    ));
    assert!(matches!(get("store", Stored::Entries(three()), "shop"), Err(PwError::NotFound())));
}

#[test]
fn remove_takes_every_entry_of_the_name() {
    let data = vec![
        entry("b", "0", "v"),
        entry("a", "1", "x"),
        entry("b", "2", "y"),
        entry("c", "4", "u"),
        entry("b", "3", "z"),
    ];
    let data = remove("store", Stored::Entries(data), "b").unwrap();
    assert_eq!(data, vec![entry("a", "1", "x"), entry("c", "4", "u")]);
}

#[test]
fn remove_of_the_last_entry_leaves_an_empty_store() {
    let data = remove("store", Stored::Entries(vec![entry("mail", "", "p")]), "mail").unwrap();
    assert_eq!(data, Vec::new());
}

#[test]
fn find_gives_the_first_place_or_the_length() {
    let data = vec![entry("a", "1", "x"), entry("b", "2", "y"), entry("b", "3", "z")];
    assert_eq!(find(&data, &"a".to_string()), 0);
    assert_eq!(find(&data, &"b".to_string()), 1);
    assert_eq!(find(&data, &"c".to_string()), 3);
    assert_eq!(find(&Vec::new(), &"a".to_string()), 0);
}

#[test]
fn a_failed_cipher_is_reported() {
    assert!(matches!(list("s", Stored::Undecrypted), Err(PwError::ScryptError())));
    assert!(matches!(get("s", Stored::Undecrypted, "mail"), Err(PwError::ScryptError())));
    assert!(matches!(
        add("s", Stored::Undecrypted, entry("a", "b", "c")),
        Err(PwError::ScryptError())
    ));
    assert!(matches!(
        update("s", Stored::Undecrypted, entry("a", "b", "c")),
        Err(PwError::ScryptError())
    ));
    assert!(matches!(remove("s", Stored::Undecrypted, "a"), Err(PwError::ScryptError())));
    let failed = Written { unserialized: None, encrypted: false };
    assert!(matches!(pw::store::write(failed), Err(PwError::ScryptError())));
}

#[test]
fn unparsed_output_is_reported_with_its_text() {
    let raw = "{\"naïve\": 1}".as_bytes().to_vec();
    let cause = json_error();
    let told = cause.to_string();
    match list("s", Stored::Unparsed(raw, cause)) {
        Err(PwError::InvalidJson(text, err)) => {
            assert_eq!(text, "{\"naïve\": 1}");
            assert_eq!(err.to_string(), told);
        }
        _ => panic!("unparsed output was accepted"),
    }
    for r in [
        add("s", Stored::Unparsed(b"[".to_vec(), json_error()), entry("a", "b", "c")),
        update("s", Stored::Unparsed(b"[".to_vec(), json_error()), entry("a", "b", "c")),
        remove("s", Stored::Unparsed(b"[".to_vec(), json_error()), "a"),
    ] {
        assert!(matches!(r, Err(PwError::InvalidJson(text, _)) if text == "["));
    }
    let r = get("s", Stored::Unparsed(Vec::new(), json_error()), "a");
    assert!(matches!(r, Err(PwError::InvalidJson(text, _)) if text.is_empty()));
}

#[test]
fn unparsed_output_that_is_no_text_is_reported_in_hexadecimal() {
    let raw = vec![0x5b, 0xff, 0xfe, 0x5d];
    let r = list("s", Stored::Unparsed(raw, json_error()));
    assert!(matches!(r, Err(PwError::InvalidJson(text, _)) if text == "5bfffe5d"));
    let cut_short = vec![0xe2, 0x82];
    let r = list("s", Stored::Unparsed(cut_short, json_error()));
    assert!(matches!(r, Err(PwError::InvalidJson(text, _)) if text == "e282"));
    let r = get("s", Stored::Unparsed(vec![0xff], json_error()), "mail");
    assert!(matches!(r, Err(PwError::InvalidJson(text, _)) if text == "ff"));
    let r = read("s", Stored::Unparsed(vec![0x00, 0x0a, 0x80, 0x9f], json_error()));
    match r {
        Err(e) => assert_eq!(e.message(), "Invalid JSON 000a809f"),
        Ok(_) => panic!("unparsed output was accepted"),
    }
}

#[test]
fn text_of_reads_utf8() {
    assert_eq!(pw::text::text_of(&vec![0xe2, 0x82, 0xac, 0x31]), "€1");
    assert_eq!(pw::text::text_of(&vec![0x61, 0x62]), "ab");
    assert_eq!(pw::text::text_of(&Vec::new()), "");
}

#[test]
fn text_of_shows_other_bytes_in_hexadecimal() {
    assert_eq!(pw::text::text_of(&vec![0x61, 0x80]), "6180");
    assert_eq!(pw::text::text_of(&vec![0xed, 0xa0, 0x80]), "eda080");
    assert_eq!(pw::text::text_of(&vec![0xc0, 0xaf]), "c0af");
    assert_eq!(pw::text::text_of(&vec![0xf4, 0x90, 0x80, 0x80]), "f4908080");
}

#[test]
fn hex_writes_two_digits_for_each_byte() {
    assert_eq!(pw::text::hex(&Vec::new()), "");
    assert_eq!(pw::text::hex(&vec![0x00]), "00");
    assert_eq!(pw::text::hex(&vec![0x0f, 0xf0, 0x9a, 0xbc, 0xde]), "0ff09abcde");
    assert_eq!(pw::text::hex(&vec![0x12, 0x34, 0x56, 0x78]), "12345678");
    assert_eq!(pw::text::hex(&vec![0x61, 0x62]), "6162");
}

#[test]
fn write_tells_what_became_of_it() {
    let saved = Written { unserialized: None, encrypted: true };
    assert!(matches!(pw::store::write(saved), Ok(())));
    let failed = Written { unserialized: None, encrypted: false };
    assert!(matches!(pw::store::write(failed), Err(PwError::ScryptError())));
    let cause = json_error();
    let told = cause.to_string();
    let unsent = Written { unserialized: Some(cause), encrypted: true };
    match pw::store::write(unsent) {
        Err(PwError::InvalidJson(text, err)) => {
            assert_eq!(text, "");
            assert_eq!(err.to_string(), told);
        }
        _ => panic!("a list that did not reach the cipher was taken as written"),
    }
}

#[test]
fn a_failed_cipher_comes_before_a_list_that_did_not_reach_it() {
    let both = Written { unserialized: Some(json_error()), encrypted: false };
    assert!(matches!(pw::store::write(both), Err(PwError::ScryptError())));
}

#[test]
fn messages_name_the_refusal() {
    assert_eq!(PwError::FileNotFound("/home/ann/pw.scrypt".to_string()).message(),
        "File not found: /home/ann/pw.scrypt");
    assert_eq!(PwError::FileAlreadyExists("pw.scrypt".to_string()).message(),
        "File already exists: pw.scrypt");
    assert_eq!(PwError::ScryptError().message(), "Scrypt error");
    assert_eq!(PwError::InvalidJson("[1".to_string(), json_error()).message(), "Invalid JSON [1");
    assert_eq!(PwError::InvalidJson(String::new(), json_error()).message(), "Invalid JSON ");
    assert_eq!(PwError::NotFound().message(), "Password not found");
    assert_eq!(PwError::AlreadyExists().message(), "Password already exists");
}
