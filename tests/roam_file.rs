use add_note_and_deps::{PathError, RoamFile};

#[test]
fn absolute_path_is_taken_verbatim() {
    let f = RoamFile::from_absolute("/home/u/notes/../a.org".to_string()).unwrap();
    assert_eq!(f.as_str(), "/home/u/notes/../a.org");
    assert_eq!(f.display(), "/home/u/notes/../a.org");
}

#[test]
fn relative_path_is_refused() {
    assert_eq!(RoamFile::from_absolute("notes/a.org".to_string()), Err(PathError::Unresolvable));
    assert_eq!(RoamFile::from_absolute(String::new()), Err(PathError::Unresolvable));
}

#[test]
fn files_with_equal_paths_are_equal() {
    let a = RoamFile::from_absolute("/a.org".to_string()).unwrap();
    let b = RoamFile::from_absolute("/a.org".to_string()).unwrap();
    let c = RoamFile::from_absolute("/b.org".to_string()).unwrap();
    assert_eq!(a, b);
    assert_ne!(a, c);
    assert_eq!(a.copy(), a);
}

#[test]
fn storage_key_is_quoted() {
    let f = RoamFile::from_absolute("/home/u/a b.org".to_string()).unwrap();
    assert_eq!(f.to_storage_key(), "\"/home/u/a b.org\"");
}

#[test]
fn storage_round_trip() {
    for p in ["/a.org", "/", "/with \"quotes\".org", "/ünï/cödé.org"] {
        let f = RoamFile::from_absolute(p.to_string()).unwrap();
        let back = RoamFile::from_storage_key(&f.to_storage_key()).unwrap();
        assert_eq!(back, f);
        assert_eq!(back.as_str(), p);
    }
}

#[test]
fn storage_key_strips_one_quote_each_side() {
    let f = RoamFile::from_storage_key("\"\"/a.org\"\"").unwrap();
    assert_eq!(f.as_str(), "\"/a.org\"");
    let empty = RoamFile::from_storage_key("\"\"").unwrap();
    assert_eq!(empty.as_str(), "");
}

#[test]
fn storage_key_without_quotes_is_refused() {
    for k in ["", "\"", "/a.org", "\"/a.org", "/a.org\"", "'/a.org'"] {
        assert_eq!(RoamFile::from_storage_key(k), Err(PathError::MalformedStorageKey));
    }
}
