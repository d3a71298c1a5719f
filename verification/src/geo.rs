//! The groups that take part, as the map shows them: every group but the test
//! groups, each with the area it belongs to, where that is known.

use vstd::prelude::*;

verus! {

/// A group as it was fetched: its name and where it is at home.
#[derive(Debug, Clone, PartialEq, Eq)]
pub struct Group {
    pub name: String,
    pub lat: String,
    pub long: String,
}

/// A group as the map shows it.
#[derive(Debug, Clone, PartialEq, Eq)]
pub struct Feature {
    pub name: String,
    pub lat: String,
    pub long: String,
    pub area: Option<String>,
}

/// `text` in lower case.
pub uninterp spec fn lowercased(text: Seq<char>) -> Seq<char>;

/// Turns a text into lower case.
///
/// Wraps `str::to_lowercase`. What it returns is given a name, `lowercased`.
#[verifier::external_body]
fn to_lowercase(text: &str) -> (r: String)
    ensures
        r@ == lowercased(text@),
{
    text.to_lowercase()
}

/// `needle` stands somewhere in `text`.
pub open spec fn occurs_in(needle: Seq<char>, text: Seq<char>) -> bool {
    exists|i: int|
        0 <= i && i + needle.len() <= text.len() && #[trigger] text.subrange(
            i,
            i + needle.len(),
        ) == needle
}

/// Whether `needle` stands somewhere in `text`.
///
/// Wraps `str::contains` with a string as the pattern: it is true exactly
/// where the pattern matches a part of the text.
#[verifier::external_body]
fn contains(text: &str, needle: &str) -> (r: bool)
    ensures
        r == occurs_in(needle@, text@),
{
    text.contains(needle)
}

/// A group is a test group where its name, in lower case, holds "test".
pub open spec fn is_test_name(name: Seq<char>) -> bool {
    occurs_in("test"@, lowercased(name))
}

/// Whether a name that is in lower case already holds "test".
pub fn names_a_test(lowered: &str) -> (r: bool)
    ensures
        r == occurs_in("test"@, lowered@),
{
    contains(lowered, "test")
}

/// Whether a group is a test group.
pub fn is_test_group(name: &str) -> (r: bool)
    ensures
        r == is_test_name(name@),
{
    let lower = to_lowercase(name);
    names_a_test(lower.as_str())
}

/// The names and areas of a list of pairs.
pub open spec fn pairs_of(list: Seq<(String, String)>) -> Seq<(Seq<char>, Seq<char>)> {
    list.map_values(|pair: (String, String)| (pair.0@, pair.1@))
}

/// The area of each group, as the organisers announced it.
pub open spec fn area_table() -> Seq<(Seq<char>, Seq<char>)> {
    seq![
        ("Scouting de Paulus Dreumel"@, "Delta"@),
        ("Scouting Phoenix Tiel"@, "Delta"@),
        ("Scouting Graaf van Gelre Geldermalsen"@, "Delta"@),
        ("Sint Stanislaus"@, "Delta"@),
        ("Scouting Scherpenzeel e.o."@, "Delta"@),
        ("Scouting Lunteren"@, "Delta"@),
        ("Scouting Jan Hilgers"@, "Delta"@),
        ("Tarcisius Ede / Nijkerk"@, "Delta"@),
        ("Scouting Langenberggroep Ede"@, "Delta"@),
        ("Scouting Bennekom"@, "Delta"@),
        ("Scouting Elst"@, "Bravo"@),
        ("Schutgraaf"@, "Bravo"@),
        ("KaLiG"@, "Bravo"@),
        ("Scoutinggroep Lido '76"@, "Bravo"@),
        ("Rhedense Pioniers"@, "Bravo"@),
        ("Scouting Dieren"@, "Bravo"@),
        ("Scoutinggroep de Markesteen"@, "Bravo"@),
        ("Scouting Aerendheem"@, "Bravo"@),
        ("St. Christoforus Lichtdraagsters Arnhem"@, "Bravo"@),
        ("Scouting Zetten"@, "Bravo"@),
        ("Scouting Valburg"@, "Bravo"@),
        ("Karmijngroep Winssen"@, "Echo"@),
        ("RDB"@, "Echo"@),
        ("Scouting Beuningen '76"@, "Echo"@),
        ("OPV Schoonoord"@, "Echo"@),
        ("De Geuzen Arnhem"@, "Echo"@),
        ("Andre de Thaye"@, "Echo"@),
        ("Velpsche Woudloopers"@, "Echo"@),
        ("Scouting St. Franciscus"@, "Echo"@),
        ("Castor creators"@, "Echo"@),
        ("Scouting Grave en Boxmeer"@, "Echo"@),
        ("Scouting Woezik"@, "Echo"@),
        ("Karel de Stoute"@, "Foxtrot"@),
        ("Scouting Keizer Karel NIJMEGEN"@, "Foxtrot"@),
        ("Scouting Paul Kruger"@, "Foxtrot"@),
        ("Scouting Amalgama"@, "Foxtrot"@),
        ("Bricks & Scouts"@, "Foxtrot"@),
        ("Scouting Dannenburcht"@, "Foxtrot"@),
        ("Scouting Duiven"@, "Foxtrot"@),
        ("Scouting Groessen en Vrienden"@, "Foxtrot"@),
        ("Subliem Hunting Team"@, "Foxtrot"@),
        ("Scouting Bemmel"@, "Foxtrot"@),
        ("St. Willibrordgroep Didam"@, "Foxtrot"@),
    ]
}

/// Puts a group and its area at the end of a list.
fn list_area(list: &mut Vec<(String, String)>, name: &str, area: &str)
    ensures
        pairs_of(final(list)@) == pairs_of(old(list)@).push((name@, area@)),
{
    list.push((name.to_owned(), area.to_owned()));
    assert(pairs_of(list@) =~= pairs_of(old(list)@).push((name@, area@)));
}

/// The area of each group, as the organisers announced it.
pub fn areas() -> (r: Vec<(String, String)>)
    ensures
        pairs_of(r@) == area_table(),
{
    let mut list: Vec<(String, String)> = Vec::new();
    assert(pairs_of(list@) =~= Seq::<(Seq<char>, Seq<char>)>::empty());
    list_area(&mut list, "Scouting de Paulus Dreumel", "Delta");
    list_area(&mut list, "Scouting Phoenix Tiel", "Delta");
    list_area(&mut list, "Scouting Graaf van Gelre Geldermalsen", "Delta");
    list_area(&mut list, "Sint Stanislaus", "Delta");
    list_area(&mut list, "Scouting Scherpenzeel e.o.", "Delta");
    list_area(&mut list, "Scouting Lunteren", "Delta");
    list_area(&mut list, "Scouting Jan Hilgers", "Delta");
    list_area(&mut list, "Tarcisius Ede / Nijkerk", "Delta");
    list_area(&mut list, "Scouting Langenberggroep Ede", "Delta");
    list_area(&mut list, "Scouting Bennekom", "Delta");
    list_area(&mut list, "Scouting Elst", "Bravo");
    list_area(&mut list, "Schutgraaf", "Bravo");
    list_area(&mut list, "KaLiG", "Bravo");
    list_area(&mut list, "Scoutinggroep Lido '76", "Bravo");
    list_area(&mut list, "Rhedense Pioniers", "Bravo");
    list_area(&mut list, "Scouting Dieren", "Bravo");
    list_area(&mut list, "Scoutinggroep de Markesteen", "Bravo");
    list_area(&mut list, "Scouting Aerendheem", "Bravo");
    list_area(&mut list, "St. Christoforus Lichtdraagsters Arnhem", "Bravo");
    list_area(&mut list, "Scouting Zetten", "Bravo");
    list_area(&mut list, "Scouting Valburg", "Bravo");
    list_area(&mut list, "Karmijngroep Winssen", "Echo");
    list_area(&mut list, "RDB", "Echo");
    list_area(&mut list, "Scouting Beuningen '76", "Echo");
    list_area(&mut list, "OPV Schoonoord", "Echo");
    list_area(&mut list, "De Geuzen Arnhem", "Echo");
    list_area(&mut list, "Andre de Thaye", "Echo");
    list_area(&mut list, "Velpsche Woudloopers", "Echo");
    list_area(&mut list, "Scouting St. Franciscus", "Echo");
    list_area(&mut list, "Castor creators", "Echo");
    list_area(&mut list, "Scouting Grave en Boxmeer", "Echo");
    list_area(&mut list, "Scouting Woezik", "Echo");
    list_area(&mut list, "Karel de Stoute", "Foxtrot");
    list_area(&mut list, "Scouting Keizer Karel NIJMEGEN", "Foxtrot");
    list_area(&mut list, "Scouting Paul Kruger", "Foxtrot");
    list_area(&mut list, "Scouting Amalgama", "Foxtrot");
    list_area(&mut list, "Bricks & Scouts", "Foxtrot");
    list_area(&mut list, "Scouting Dannenburcht", "Foxtrot");
    list_area(&mut list, "Scouting Duiven", "Foxtrot");
    list_area(&mut list, "Scouting Groessen en Vrienden", "Foxtrot");
    list_area(&mut list, "Subliem Hunting Team", "Foxtrot");
    list_area(&mut list, "Scouting Bemmel", "Foxtrot");
    list_area(&mut list, "St. Willibrordgroep Didam", "Foxtrot");
    list
}

/// The area that `areas` gives to the group `name`: that of the last pair
/// with this name among the first `n`, if there is one.
pub open spec fn area_among(areas: Seq<(String, String)>, n: int, name: Seq<char>) -> Option<
    String,
>
    decreases n,
{
    if n <= 0 {
        None
    } else if areas[n - 1].0@ == name {
        Some(areas[n - 1].1)
    } else {
        area_among(areas, n - 1, name)
    }
}

/// The area that `areas` gives to the group `name`. Where the list names a
/// group twice, the later pair counts.
pub fn area_of(areas: &Vec<(String, String)>, name: &String) -> (r: Option<String>)
    ensures
        r == area_among(areas@, areas.len() as int, name@),
{
    let mut i: usize = areas.len();
    while i > 0
        invariant
            i <= areas.len(),
            area_among(areas@, areas.len() as int, name@) == area_among(areas@, i as int, name@),
        decreases i,
    {
        if areas[i - 1].0 == *name {
            return Some(areas[i - 1].1.clone());
        }
        i = i - 1;
    }
    None
}

/// The groups that the map shows: those that are no test groups, in the
/// order given, each with its area.
pub open spec fn features_of(groups: Seq<Group>, areas: Seq<(String, String)>) -> Seq<Feature>
    decreases groups.len(),
{
    if groups.len() == 0 {
        Seq::empty()
    } else {
        let rest = features_of(groups.drop_last(), areas);
        let group = groups.last();
        if is_test_name(group.name@) {
            rest
        } else {
            rest.push(
                Feature {
                    name: group.name,
                    lat: group.lat,
                    long: group.long,
                    area: area_among(areas, areas.len() as int, group.name@),
                },
            )
        }
    }
}

/// The groups that the map shows.
pub fn features(groups: &Vec<Group>, areas: &Vec<(String, String)>) -> (r: Vec<Feature>)
    ensures
        r@ == features_of(groups@, areas@),
{
    let mut r: Vec<Feature> = Vec::new();
    let mut i: usize = 0;
    while i < groups.len()
        invariant
            i <= groups.len(),
            r@ == features_of(groups@.take(i as int), areas@),
        decreases groups.len() - i,
    {
        assert(groups@.take(i + 1).drop_last() =~= groups@.take(i as int));
        let group = &groups[i];
        if !is_test_group(group.name.as_str()) {
            r.push(
                Feature {
                    name: group.name.clone(),
                    lat: group.lat.clone(),
                    long: group.long.clone(),
                    area: area_of(areas, &group.name),
                },
            );
        }
        i = i + 1;
    }
    assert(groups@.take(groups.len() as int) =~= groups@);
    r
}

} // verus!
