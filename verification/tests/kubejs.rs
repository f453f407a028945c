use modpack_recipes::kubejs::{
    apply_kubejs_textures, lines, parse_script_items, script_patterns, script_registers_items,
    snake_to_title, texture_override_key,
};
use modpack_recipes::texture_renderer::TextureStore;
use modpack_recipes::types::ModSource;

#[test]
fn snake_case_to_title_case() {
    assert_eq!(snake_to_title("diamond_sword"), "Diamond Sword");
    assert_eq!(snake_to_title("ruby"), "Ruby");
    assert_eq!(snake_to_title(""), "");
    assert_eq!(snake_to_title("a__b"), "A  B");
    assert_eq!(snake_to_title("_x_"), " X ");
    assert_eq!(snake_to_title("ß_é"), "SS É");
}

#[test]
fn lines_like_str_lines() {
    for s in ["", "a", "a\n", "a\r\nb", "a\n\nb\n", "x\r", "\n", "a\rb\n"] {
        let expected: Vec<String> = s.lines().map(|l| l.to_string()).collect();
        assert_eq!(lines(s), expected, "for {:?}", s);
    }
}

#[test]
fn registry_detection() {
    assert!(script_registers_items("StartupEvents.registry('item', e => {})"));
    assert!(script_registers_items("StartupEvents.registry(\"item\", e => {})"));
    assert!(!script_registers_items("StartupEvents.registry('block', e => {})"));
    assert!(!script_registers_items("'item'"));
}

#[test]
fn script_items_with_display_names() {
    let patterns = script_patterns().unwrap();
    let script = "StartupEvents.registry('item', event => {\n  event.create('magic_dust').displayName('Magic Dust!')\n  event.create(\"iron_rod\", 'basic')\n  // nothing here\n  event . create ( 'gear' ).texture('kubejs:item/gear')\n})\n";
    let items = parse_script_items(script, &patterns);
    assert_eq!(items.len(), 3);
    assert_eq!(items[0].id, "kubejs:magic_dust");
    assert_eq!(items[0].display_name, "Magic Dust!");
    assert_eq!(items[1].name, "iron_rod");
    assert_eq!(items[1].display_name, "Iron Rod");
    assert_eq!(items[2].name, "gear");
    assert_eq!(items[2].mod_id, "kubejs");
    assert_eq!(items[2].source, ModSource::KubeJs);
    assert!(items.iter().all(|i| i.texture_base64.is_none()));
    let none = parse_script_items("ServerEvents.recipes(event => { event.create('x') })", &patterns);
    assert!(none.is_empty());
}

#[test]
fn kubejs_texture_overrides() {
    let patterns = script_patterns().unwrap();
    let mut items = parse_script_items("registry('item'\nevent.create('a')\nevent.create('b')", &patterns);
    assert_eq!(texture_override_key("kubejs", "item", "a"), "kubejs:item/a");
    let overrides = TextureStore { entries: vec![("kubejs:item/a".to_string(), vec![1, 2, 3])] };
    apply_kubejs_textures(&mut items, &overrides);
    assert_eq!(items[0].texture_base64.as_deref(), Some("data:image/png;base64,AQID"));
    assert_eq!(items[1].texture_base64, None);
}

#[test]
fn every_create_on_a_line() {
    let patterns = script_patterns().unwrap();
    let script = "StartupEvents.registry('item', event => {\n  event.create('a'); event.create('b')\n  event.create('ruby_gem').displayName('Ruby'); event.create('opal').displayName('Opal!'); event.create('plain_rock')\n  x.displayName('Before'); event.create('late')\n})\n";
    let items = parse_script_items(script, &patterns);
    let got: Vec<(&str, &str)> = items.iter().map(|i| (i.name.as_str(), i.display_name.as_str())).collect();
    assert_eq!(
        got,
        vec![
            ("a", "A"),
            ("b", "B"),
            ("ruby_gem", "Ruby"),
            ("opal", "Opal!"),
            ("plain_rock", "Plain Rock"),
            ("late", "Before"),
        ]
    );
    assert_eq!(items[1].id, "kubejs:b");
}

#[test]
fn create_after_multibyte_text() {
    let patterns = script_patterns().unwrap();
    let script = "registry('item'\n  // é ü: event.create('x').displayName('Ex'); event.create('y')\n";
    let items = parse_script_items(script, &patterns);
    let got: Vec<(&str, &str)> = items.iter().map(|i| (i.name.as_str(), i.display_name.as_str())).collect();
    assert_eq!(got, vec![("x", "Ex"), ("y", "Y")]);
}
