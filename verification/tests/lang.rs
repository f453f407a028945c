use modpack_recipes::lang::lang_map_from_json;

#[test]
fn lang_map_of_json_object() {
    let mut m = lang_map_from_json(r#"{"item.create.gear": "Gear", "block.create.belt": "Belt"}"#);
    m.sort();
    assert_eq!(
        m,
        vec![
            ("block.create.belt".to_string(), "Belt".to_string()),
            ("item.create.gear".to_string(), "Gear".to_string()),
        ]
    );
}

#[test]
fn lang_map_of_bad_text_is_empty() {
    assert!(lang_map_from_json("not json").is_empty());
    assert!(lang_map_from_json(r#"{"a": 1}"#).is_empty());
    assert!(lang_map_from_json("[]").is_empty());
    assert!(lang_map_from_json("{}").is_empty());
}

#[test]
fn lang_map_keeps_one_entry_per_key() {
    let m = lang_map_from_json(r#"{"k": "first", "k": "second"}"#);
    assert_eq!(m.len(), 1);
    assert_eq!(m[0].0, "k");
}
