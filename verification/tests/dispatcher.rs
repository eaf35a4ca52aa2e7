use m0_kernel::tasks::dispatcher::{FunctionTable, ProcessIdentifier, TABLE_CAPACITY};

fn chars(s: &str) -> Vec<char> {
    s.chars().collect()
}

#[test]
fn registered_names_are_found() {
    let mut table = FunctionTable::new();
    ProcessIdentifier::saver()
        .add(&mut table, "beef", 0x0800_0101)
        .add(&mut table, "sbeaf", 0x0800_0201);
    assert_eq!(table.len(), 2);
    assert_eq!(ProcessIdentifier::retrieve_base_address(&table, &chars("beef")), Some(0x0800_0101));
    assert_eq!(ProcessIdentifier::retrieve_base_address(&table, &chars("sbeaf")), Some(0x0800_0201));
    assert!(table.contains(&chars("beef")));
    assert!(!table.contains(&chars("bee")));
}

#[test]
fn first_registration_wins() {
    let mut table = FunctionTable::new();
    let s = ProcessIdentifier::saver();
    s.add(&mut table, "job", 1);
    s.add(&mut table, "job", 2);
    assert_eq!(ProcessIdentifier::retrieve_base_address(&table, &chars("job")), Some(1));
}

#[test]
fn unknown_name_in_full_table_is_none() {
    let mut table = FunctionTable::new();
    let s = ProcessIdentifier::saver();
    let names = ["a", "b", "c", "d", "e", "f", "g", "h", "i", "j"];
    for (k, n) in names.iter().enumerate() {
        s.add(&mut table, *n, k);
    }
    assert_eq!(table.len(), TABLE_CAPACITY);
    assert_eq!(ProcessIdentifier::retrieve_base_address(&table, &chars("zz")), None);
    assert_eq!(ProcessIdentifier::retrieve_base_address(&table, &chars("j")), Some(9));
}
