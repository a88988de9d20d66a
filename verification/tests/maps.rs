use fut::create_duplicate_map;
use fut::create_store_map;
use fut::is_dup;
use fut::store_into_map;

#[test]
fn it_can_create_a_duplicate_entry_if_id_not_found_and_find_duplicates() {
    let mut dups = create_duplicate_map();

    // not duplicate
    assert!(!is_dup(&mut dups, "90"));

    // duplicate
    assert!(is_dup(&mut dups, "90"))
}

#[test]
fn it_can_store_into_map() {
    let mut store = create_store_map();

    assert!(!store_into_map(&mut store, "1", "1,er,gh,45,epp".to_string()));
    assert!(store_into_map(&mut store, "1", "1,as,vb,45,abb".to_string()));
}

#[test]
fn a_different_id_is_not_a_duplicate() {
    let mut dups = create_duplicate_map();

    assert!(!is_dup(&mut dups, "90"));
    assert!(is_dup(&mut dups, "90"));
    assert!(!is_dup(&mut dups, "91"));
}

#[test]
fn an_id_stays_a_duplicate_forever() {
    let mut dups = create_duplicate_map();

    assert!(!is_dup(&mut dups, "90"));
    assert!(is_dup(&mut dups, "90"));
    assert!(is_dup(&mut dups, "90"));
    assert!(is_dup(&mut dups, "90"));
}

#[test]
fn store_keeps_values_in_insertion_order_with_duplicates() {
    let mut store = create_store_map();

    assert!(!store_into_map(&mut store, "1", "a".to_string()));
    assert_eq!(&vec!["a".to_string()], store.get("1").unwrap());

    assert!(store_into_map(&mut store, "1", "b".to_string()));
    assert_eq!(
        &vec!["a".to_string(), "b".to_string()],
        store.get("1").unwrap()
    );

    assert!(store_into_map(&mut store, "1", "b".to_string()));
    assert_eq!(
        &vec!["a".to_string(), "b".to_string(), "b".to_string()],
        store.get("1").unwrap()
    );
}

#[test]
fn store_keeps_keys_apart() {
    let mut store = create_store_map();

    assert!(!store_into_map(&mut store, "1", "a".to_string()));
    assert!(!store_into_map(&mut store, "2", "b".to_string()));
    assert!(store_into_map(&mut store, "1", "c".to_string()));

    assert_eq!(
        &vec!["a".to_string(), "c".to_string()],
        store.get("1").unwrap()
    );
    assert_eq!(&vec!["b".to_string()], store.get("2").unwrap());
    assert!(store.get("3").is_none());
}

#[test]
fn file_errors_carry_their_fixed_messages() {
    assert_eq!("file not found", fut::FileError::NotFound.message());
    assert_eq!(
        "something went wrong reading the file",
        fut::FileError::ReadFailure.message()
    );
    assert_eq!(
        "something went wrong writing the file",
        fut::FileError::WriteFailure.message()
    );
    assert!(fut::FileError::NotFound == fut::FileError::NotFound);
    assert!(fut::FileError::NotFound != fut::FileError::ReadFailure);
}
