use autozoom::engine::{calculate_zoom_level, ZoomRule};

// The default configuration the tool carries when no file is given.
const DEFAULT_CONFIG: &str = r#"
[app]
name = "autozoom"
version = "0.1.0"
author = "autozoom"
about = "Sets a display's zoom level from its resolution"

[[rules]]
min_aspect_ratio = 2.3
max_aspect_ratio = 2.4
min_width = 3000
zoom_level = "0.5x0.5"

[[rules]]
min_aspect_ratio = 1.7
max_aspect_ratio = 1.8
min_width = 3000
zoom_level = "0.67x0.67"

[[rules]]
min_aspect_ratio = 1.7
max_aspect_ratio = 1.8
min_width = 0
zoom_level = "1x1"
"#;

// The same rules as a user-written configuration file would carry them,
// in a different TOML style.
const FILE_CONFIG: &str = r#"
app = { name = "autozoom", version = "0.1.0", author = "autozoom", about = "Sets a display's zoom level from its resolution" }
rules = [
    { min_aspect_ratio = 2.3, max_aspect_ratio = 2.4, min_width = 3000, zoom_level = "0.5x0.5" },
    { min_aspect_ratio = 1.7, max_aspect_ratio = 1.8, min_width = 3000, zoom_level = "0.67x0.67" },
    { min_aspect_ratio = 1.7, max_aspect_ratio = 1.8, min_width = 0, zoom_level = "1x1" },
]
"#;

fn rules_of_toml(text: &str) -> Vec<ZoomRule> {
    let value: toml::Value = toml::from_str(text).unwrap();
    let list = value.get("rules").unwrap().as_array().unwrap();
    let mut rules = Vec::new();
    for entry in list {
        let min = entry.get("min_aspect_ratio").unwrap().as_float().unwrap();
        let max = entry.get("max_aspect_ratio").unwrap().as_float().unwrap();
        let min_width = entry.get("min_width").unwrap().as_integer().unwrap();
        let zoom = entry.get("zoom_level").unwrap().as_str().unwrap();
        rules.push(ZoomRule {
            min_aspect_milli: (min * 1000.0).round() as u64,
            max_aspect_milli: (max * 1000.0).round() as u64,
            min_width: min_width as u32,
            zoom_level: zoom.to_string(),
        });
    }
    rules
}

#[test]
fn default_and_file_configuration_share_one_shape() {
    let a = rules_of_toml(DEFAULT_CONFIG);
    let b = rules_of_toml(FILE_CONFIG);
    assert_eq!(a.len(), b.len());
    for (x, y) in a.iter().zip(b.iter()) {
        assert_eq!(x.min_aspect_milli, y.min_aspect_milli);
        assert_eq!(x.max_aspect_milli, y.max_aspect_milli);
        assert_eq!(x.min_width, y.min_width);
        assert_eq!(x.zoom_level, y.zoom_level);
    }
}

#[test]
fn loaded_rules_drive_the_engine() {
    let rules = rules_of_toml(DEFAULT_CONFIG);
    assert_eq!(calculate_zoom_level(3840, 1600, &rules), "0.5x0.5");
    assert_eq!(calculate_zoom_level(3840, 2160, &rules), "0.67x0.67");
    assert_eq!(calculate_zoom_level(1920, 1080, &rules), "1x1");
}

#[test]
fn empty_rule_list_is_valid_and_yields_fallback() {
    let text = "rules = []\n[app]\nname = \"autozoom\"\nversion = \"0\"\nauthor = \"\"\nabout = \"\"\n";
    let rules = rules_of_toml(text);
    assert!(rules.is_empty());
    assert_eq!(calculate_zoom_level(2560, 1440, &rules), "1x1");
}
