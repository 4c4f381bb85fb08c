use tabletop::coords::Suffix;
use tabletop::lookup::{Collision, LookupTable};
use tabletop::suffix::SuffixRow;

fn row(id: i32, label: &str) -> SuffixRow {
    SuffixRow { suffix: Suffix(id), label: label.to_owned() }
}

#[test]
fn can_convert_list_to_lookup() {
    let items = vec![row(1, "A"), row(4, "B"), row(3, "C")];

    let lookup: LookupTable<Suffix, SuffixRow> = LookupTable::from_values(items).unwrap();

    assert_eq!(Some(&row(1, "A")), lookup.find_by_label(&"A".to_string()));
    assert_eq!(Some(&row(4, "B")), lookup.find_by_label(&"B".to_string()));
    assert_eq!(Some(&row(3, "C")), lookup.find_by_label(&"C".to_string()));
    assert_eq!(None, lookup.find_by_label(&"D".to_string()));

    assert_eq!(None, lookup.find(&Suffix(0)));
    assert_eq!(Some(&row(1, "A")), lookup.find(&Suffix(1)));
    assert_eq!(None, lookup.find(&Suffix(2)));
    assert_eq!(Some(&row(3, "C")), lookup.find(&Suffix(3)));
    assert_eq!(Some(&row(4, "B")), lookup.find(&Suffix(4)));
    assert_eq!(None, lookup.find(&Suffix(5)));
}

#[test]
fn can_not_convert_if_there_is_a_label_collision() {
    let items = vec![row(1, "A"), row(4, "B"), row(3, "B")];

    let result: Result<LookupTable<Suffix, SuffixRow>, Collision<Suffix>> =
        LookupTable::from_values(items);

    match result {
        Err(e) => assert_eq!(Collision::LabelCollision("B".to_owned()), e),
        Ok(_) => panic!("a label collision must refuse the build"),
    }
}

#[test]
fn can_not_convert_if_there_is_a_index_collision() {
    let items = vec![row(1, "A"), row(4, "B"), row(4, "C")];

    let result: Result<LookupTable<Suffix, SuffixRow>, Collision<Suffix>> =
        LookupTable::from_values(items);

    match result {
        Err(e) => assert_eq!(Collision::IdCollision(Suffix(4)), e),
        Ok(_) => panic!("an id collision must refuse the build"),
    }
}

#[test]
fn id_collision_is_reported_before_label_collision() {
    let items = vec![row(1, "x"), row(1, "y")];
    match LookupTable::<Suffix, SuffixRow>::from_values(items) {
        Err(e) => assert_eq!(Collision::IdCollision(Suffix(1)), e),
        Ok(_) => panic!("an id collision must refuse the build"),
    }
    let items = vec![row(1, "x"), row(2, "x")];
    match LookupTable::<Suffix, SuffixRow>::from_values(items) {
        Err(e) => assert_eq!(Collision::LabelCollision("x".to_owned()), e),
        Ok(_) => panic!("a label collision must refuse the build"),
    }
}

#[test]
fn push_reports_the_collision_and_keeps_the_table() {
    let mut table: LookupTable<Suffix, SuffixRow> = LookupTable::new();
    assert!(table.push(row(1, "A")).is_ok());
    assert_eq!(Err(Collision::IdCollision(Suffix(1))), table.push(row(1, "B")));
    assert_eq!(Err(Collision::LabelCollision("A".to_owned())), table.push(row(2, "A")));
    assert!(table.push(row(2, "B")).is_ok());
    assert_eq!(2, table.len());
    assert!(table.contains_id(&Suffix(1)));
    assert!(table.contains_id(&Suffix(2)));
    assert!(!table.contains_id(&Suffix(3)));
}
