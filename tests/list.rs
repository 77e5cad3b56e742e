use pokeget::list::{List, ListError};
use pokeget::region::Region;

const SAMPLE: &str = "Bulbasaur,Bisasam,bulbasaur\nPikachu,Pikachu,pikachu\nMr. Mime,Pantimos,mr-mime\nFarfetch'd,Porenta,farfetchd\n";

fn sample() -> List {
    List::read(SAMPLE).unwrap()
}

fn numbered(n: usize) -> List {
    let mut text = String::new();
    for i in 0..n {
        text.push_str(&format!("Name{i},Lokal{i},key-{i}\n"));
    }
    List::read(&text).unwrap()
}

#[test]
fn read_keeps_every_row() {
    assert_eq!(sample().len(), 4);
}

#[test]
fn read_rejects_malformed_text() {
    assert_eq!(List::read("a,b\n").err(), Some(ListError::Malformed));
}

#[test]
fn read_rejects_duplicate_keys() {
    let text = "Pikachu,Pikachu,pikachu\nRaichu,Raichu,pikachu\n";
    assert_eq!(List::read(text).err(), Some(ListError::DuplicateKey));
}

#[test]
fn read_of_empty_text_is_empty() {
    assert_eq!(List::read("").unwrap().len(), 0);
}

#[test]
fn id_and_key_round_trip() {
    let list = sample();
    let keys = ["bulbasaur", "pikachu", "mr-mime", "farfetchd"];
    for (id, key) in keys.iter().enumerate() {
        assert_eq!(list.get_by_id(id).map(|s| s.as_str()), Some(*key));
    }
}

#[test]
fn id_past_end_is_not_found() {
    let list = sample();
    assert_eq!(list.get_by_id(4), None);
    assert_eq!(list.get_by_id(1000), None);
}

#[test]
fn format_name_gives_localized_name() {
    let list = sample();
    assert_eq!(list.format_name("mr-mime"), "Pantimos");
    assert_eq!(list.format_name("bulbasaur"), "Bisasam");
}

#[test]
fn format_name_of_unknown_key_is_readable() {
    let list = sample();
    assert_eq!(list.format_name("unknown-key-xyz"), "Unknown Key Xyz");
    assert_eq!(list.format_name("sir-fetch'd"), "Sir Fetchd");
}

#[test]
fn format_name_without_rows_falls_back() {
    let list = List::read("").unwrap();
    assert_eq!(list.format_name("mr-mime"), "Mr Mime");
}

#[test]
fn name_lookup_finds_localized_and_english() {
    let list = sample();
    assert_eq!(list.get_by_name("Pantimos").map(|s| s.as_str()), Some("mr-mime"));
    assert_eq!(list.get_by_name("Mr. Mime").map(|s| s.as_str()), Some("mr-mime"));
    assert_eq!(list.get_by_name("Porenta").map(|s| s.as_str()), Some("farfetchd"));
}

#[test]
fn name_lookup_ignores_case() {
    let list = sample();
    assert_eq!(list.get_by_name("PIKACHU"), list.get_by_name("pikachu"));
    assert_eq!(list.get_by_name("PIKACHU").map(|s| s.as_str()), Some("pikachu"));
    assert_eq!(list.get_by_name("bIsAsAm").map(|s| s.as_str()), Some("bulbasaur"));
}

#[test]
fn name_lookup_of_unknown_name_is_not_found() {
    assert_eq!(sample().get_by_name("Mewtwo"), None);
}

#[test]
fn name_then_format_recovers_the_name() {
    let list = sample();
    let key = list.get_by_name("pantimos").unwrap().clone();
    assert_eq!(list.format_name(&key), "Pantimos");
}

#[test]
fn fuzzy_lookup_of_near_miss_matches_exact() {
    let list = sample();
    assert_eq!(list.get_by_name_fuzzy("Pikahcu"), list.get_by_name("Pikachu"));
    assert_eq!(list.get_by_name_fuzzy("Pantimso").map(|s| s.as_str()), Some("mr-mime"));
    assert_eq!(list.get_by_name_fuzzy("bulbasaur").map(|s| s.as_str()), Some("bulbasaur"));
}

#[test]
fn fuzzy_lookup_on_empty_table_is_not_found() {
    let list = List::read("").unwrap();
    assert_eq!(list.get_by_name_fuzzy("pikachu"), None);
}

#[test]
fn random_key_is_some_row() {
    let list = sample();
    for _ in 0..20 {
        let key = list.random();
        assert!(list.get_by_name(&list.format_name(&key)).is_some());
    }
}

#[test]
fn region_draw_stays_in_region() {
    let list = numbered(300);
    for _ in 0..50 {
        let key = list.get_by_region(Region::Kanto).unwrap();
        let id: usize = key.trim_start_matches("key-").parse().unwrap();
        assert!(id <= 151);
        let key = list.get_by_region(Region::Johto).unwrap();
        let id: usize = key.trim_start_matches("key-").parse().unwrap();
        assert!((152..=251).contains(&id));
    }
}

#[test]
fn region_past_end_is_range_error() {
    let list = numbered(200);
    assert_eq!(list.get_by_region(Region::Johto), Err(ListError::OutOfRange));
    assert_eq!(list.get_by_region(Region::Paldea), Err(ListError::OutOfRange));
    assert!(list.get_by_region(Region::Kanto).is_ok());
}

#[test]
fn region_bounds_are_fixed() {
    assert_eq!(Region::Kanto.bounds(), (0, 151));
    assert_eq!(Region::Johto.bounds(), (152, 251));
    assert_eq!(Region::Galar.bounds(), (810, 905));
    assert_eq!(Region::Paldea.bounds(), (906, 1025));
}

#[test]
fn from_rows_assigns_positions() {
    let rows = vec![
        ("A".to_string(), "Ah".to_string(), "a".to_string()),
        ("B".to_string(), "Be".to_string(), "b".to_string()),
    ];
    let list = List::from_rows(&rows).unwrap();
    assert_eq!(list.get_by_id(1).map(|s| s.as_str()), Some("b"));
    assert_eq!(list.format_name("a"), "Ah");
}
