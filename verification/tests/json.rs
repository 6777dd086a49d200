use pcotool::json::Json;
use pcotool::string_map::StringMap;

fn text(t: &str) -> Json {
    Json::Text(t.to_owned())
}

fn object(members: Vec<(&str, Json)>) -> StringMap<Json> {
    let mut map = StringMap::new();
    for (key, value) in members {
        map.insert(key.to_owned(), value);
    }
    map
}

#[test]
fn members_are_found_in_objects_only() {
    let value = Json::Object(object(vec![("a", Json::Null), ("b", text("x"))]));
    assert!(matches!(value.get("a"), Some(Json::Null)));
    assert!(matches!(value.get("b"), Some(Json::Text(t)) if t == "x"));
    assert!(value.get("c").is_none());
    assert!(text("a").get("a").is_none());
    assert!(Json::Array(vec![Json::Null]).get("0").is_none());
    assert!(Json::Null.get("a").is_none());
}

#[test]
fn only_texts_are_texts() {
    assert_eq!(text("x").as_str(), Some("x"));
    assert_eq!(text("").as_str(), Some(""));
    assert_eq!(Json::Unsigned(1).as_str(), None);
    assert_eq!(Json::Null.as_str(), None);
    assert_eq!(Json::Array(vec![text("x")]).as_str(), None);
}

#[test]
fn only_unsigned_numbers_are_counts() {
    assert_eq!(Json::Unsigned(0).as_u64(), Some(0));
    assert_eq!(Json::Unsigned(u64::MAX).as_u64(), Some(u64::MAX));
    assert_eq!(Json::Negative(-1).as_u64(), None);
    assert_eq!(Json::Float("1.0".to_owned()).as_u64(), None);
    assert_eq!(text("1").as_u64(), None);
    assert_eq!(Json::Bool(true).as_u64(), None);
}

#[test]
fn copies_hold_what_the_value_holds() {
    let value = Json::Object(object(vec![
        ("list", Json::Array(vec![text("x"), Json::Bool(true), Json::Negative(-3)])),
        ("object", Json::Object(object(vec![("n", Json::Unsigned(7))]))),
        ("float", Json::Float("0.5".to_owned())),
        ("null", Json::Null),
    ]));
    let copy = value.clone();
    assert_eq!(format!("{:?}", copy), format!("{:?}", value));
    assert_eq!(copy.get("object").and_then(|o| o.get("n")).and_then(|n| n.as_u64()), Some(7));
}

#[test]
fn values_are_read_under_their_keys() {
    let mut map: StringMap<u8> = StringMap::new();
    assert_eq!(map.get("a"), None);
    map.insert("a".to_owned(), 1);
    map.insert("b".to_owned(), 2);
    assert_eq!(map.get("a"), Some(&1));
    assert_eq!(map.get("b"), Some(&2));
    assert_eq!(map.get(""), None);
}

#[test]
fn later_values_replace_earlier_ones() {
    let mut map: StringMap<u8> = StringMap::new();
    map.insert("a".to_owned(), 1);
    map.insert("a".to_owned(), 3);
    assert_eq!(map.get("a"), Some(&3));
    assert_eq!(map.keys(), vec!["a".to_owned()]);
}

#[test]
fn keys_are_listed_once() {
    let mut map: StringMap<u8> = StringMap::new();
    assert!(map.keys().is_empty());
    for key in ["x", "y", "x", "z", "y"] {
        map.insert(key.to_owned(), 0);
    }
    let mut keys = map.keys();
    keys.sort();
    assert_eq!(keys, vec!["x".to_owned(), "y".to_owned(), "z".to_owned()]);
}

#[test]
fn items_gather_under_their_key() {
    let mut map: StringMap<Vec<u8>> = StringMap::new();
    map.push("a".to_owned(), 1);
    map.push("b".to_owned(), 2);
    map.push("a".to_owned(), 3);
    assert_eq!(map.get("a"), Some(&vec![1, 3]));
    assert_eq!(map.get("b"), Some(&vec![2]));
    assert_eq!(map.clone().get("a"), Some(&vec![1, 3]));
}
