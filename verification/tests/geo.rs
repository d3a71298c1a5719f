use jotihunt::geo::{
    area_of, areas as announced, features, is_test_group, names_a_test, Feature, Group,
};

fn group(name: &str) -> Group {
    Group { name: name.into(), lat: "51.9".into(), long: "5.8".into() }
}

fn areas() -> Vec<(String, String)> {
    vec![
        ("Scouting Elst".to_string(), "Bravo".to_string()),
        ("RDB".to_string(), "Echo".to_string()),
        ("Scouting Elst".to_string(), "Delta".to_string()),
    ]
}

#[test]
fn a_test_group_has_test_in_its_name() {
    assert!(is_test_group("test"));
    assert!(is_test_group("Scouting TEST groep"));
    assert!(is_test_group("Attest"));
    assert!(is_test_group("TeSt 12"));
    assert!(!is_test_group("Scouting Elst"));
    assert!(!is_test_group("tes t"));
    assert!(!is_test_group(""));
}

#[test]
fn the_area_of_a_group_is_looked_up_by_its_exact_name() {
    assert_eq!(area_of(&areas(), &"RDB".to_string()), Some("Echo".to_string()));
    assert_eq!(area_of(&areas(), &"Scouting Elst".to_string()), Some("Delta".to_string()));
    assert_eq!(area_of(&areas(), &"rdb".to_string()), None);
    assert_eq!(area_of(&vec![], &"RDB".to_string()), None);
}

#[test]
fn the_map_shows_every_group_but_the_test_groups() {
    let groups = vec![group("RDB"), group("Testgroep"), group("Onbekend"), group("Scouting Elst")];
    let shown = features(&groups, &areas());
    let feature = |name: &str, area: Option<&str>| Feature {
        name: name.into(),
        lat: "51.9".into(),
        long: "5.8".into(),
        area: area.map(|a| a.to_string()),
    };
    assert_eq!(
        shown,
        vec![
            feature("RDB", Some("Echo")),
            feature("Onbekend", None),
            feature("Scouting Elst", Some("Delta")),
        ]
    );
    assert_eq!(features(&vec![], &areas()), vec![]);
}

#[test]
fn a_lowered_name_with_test_in_it_names_a_test() {
    assert!(names_a_test("a test group"));
    assert!(names_a_test("test"));
    assert!(!names_a_test("TEST"));
    assert!(!names_a_test("tes"));
    assert!(!names_a_test(""));
}

#[test]
fn every_announced_group_has_its_area() {
    let table = announced();
    assert_eq!(table.len(), 43);
    assert_eq!(table[0], ("Scouting de Paulus Dreumel".to_string(), "Delta".to_string()));
    assert_eq!(table[42], ("St. Willibrordgroep Didam".to_string(), "Foxtrot".to_string()));
    assert_eq!(area_of(&table, &"RDB".to_string()), Some("Echo".to_string()));
    assert_eq!(area_of(&table, &"Scouting Elst".to_string()), Some("Bravo".to_string()));
    assert_eq!(area_of(&table, &"Scouting Lido".to_string()), None);
    for area in ["Delta", "Bravo", "Echo", "Foxtrot"] {
        let count = table.iter().filter(|pair| pair.1 == area).count();
        assert_eq!(count, if area == "Delta" { 10 } else { 11 }, "{area}");
    }
}
