use scriba_rs::config::{config_json, config_path, load_config_from, parse_config, SavedConfig};
use std::path::{Path, PathBuf};

/// The settings as `lines`, `split` and `match_indices` read them from a settings text.
fn reference_parse(data: &str) -> (String, bool, Option<String>) {
    let model = data
        .lines()
        .find(|l| l.contains("\"model\""))
        .and_then(|l| l.split('"').nth(3))
        .unwrap_or("lite")
        .to_string();
    let diarize = data.contains("\"diarize\":true") || data.contains("\"diarize\": true");
    let key = "\"ui_language\"";
    let mut ui_language = None;
    for (i, _) in data.match_indices(key) {
        let after = data[i + key.len()..].trim_start_matches([' ', '\t', '\n', '\r']);
        if let Some(rest) = after.strip_prefix(':') {
            ui_language = rest.split('"').nth(1).map(|s| s.to_string());
            break;
        }
    }
    (model, diarize, ui_language)
}

fn triple(c: &SavedConfig) -> (String, bool, Option<String>) {
    (c.model.clone(), c.diarize, c.ui_language.clone())
}

#[test]
fn parse_matches_line_reading() {
    let texts = [
        "",
        "\n",
        "{\"model\":\"turbo\",\"diarize\":true}",
        "{\"model\":\"medium\",\"diarize\":false,\"ui_language\":\"it\"}",
        "{\n  \"model\": \"turbo\",\n  \"diarize\": true,\n  \"ui_language\": \"de\"\n}\n",
        "{\r\n  \"model\": \"medium\",\r\n  \"diarize\": false\r\n}\r\n",
        "\"model\"",
        "\"model\" \"a\" \"b\"\r",
        "x \"model\" \"y\r",
        "\"model\":\"a\rb\"",
        "\r\n\r\n\"model\":\"c\"\r",
        "no settings here",
        "\"diarize\":tru",
        "\"ui_language\"",
        "\"ui_language\":",
        "\"ui_language\" : \"de\"",
        "\"ui_language\"\n:\n\"nl\"",
        "\"ui_language\",\"ui_language\":\"sv\"",
        "\"ui_language\":\"es",
        "x\"ui_language\": \"a\" \"ui_language\":\"b\"",
        "\"ui_language\": \"pt\"\n\"model\": \"lite\"",
        "a\n\"model\"\n\"model\": \"second\"",
        "\u{00e0}\"model\":\"\u{00e8}\u{00f2}\"",
    ];
    for t in texts {
        assert_eq!(triple(&parse_config(t)), reference_parse(t), "text {t:?}");
    }
}

/// The interface language as the line-by-line reading takes it: the fourth `"`-separated
/// field of the first line that mentions `"ui_language"`.
fn line_reading_language(data: &str) -> Option<String> {
    data.lines()
        .find(|l| l.contains("\"ui_language\""))
        .and_then(|l| l.split('"').nth(3))
        .map(|s| s.to_string())
}

#[test]
fn language_key_on_its_own_line() {
    let texts = [
        "{\n  \"model\": \"turbo\",\n  \"ui_language\": \"de\"\n}",
        "{\n  \"ui_language\" : \"de\"\n}",
        "{\r\n\t\"ui_language\":\"it\",\r\n\t\"model\":\"lite\"\r\n}",
    ];
    for t in texts {
        assert_eq!(parse_config(t).ui_language, line_reading_language(t), "text {t:?}");
    }
}

#[test]
fn json_text_shape() {
    assert_eq!(config_json("lite", false, None), "{\"model\":\"lite\",\"diarize\":false}");
    assert_eq!(
        config_json("turbo", true, Some("it")),
        "{\"model\":\"turbo\",\"diarize\":true,\"ui_language\":\"it\"}"
    );
}

#[test]
fn saved_settings_read_back() {
    let c = parse_config(&config_json("medium", true, None));
    assert_eq!(triple(&c), ("medium".to_string(), true, None));
    let c = parse_config(&config_json("turbo", false, None));
    assert_eq!(triple(&c), ("turbo".to_string(), false, None));
}

#[test]
fn saved_language_reads_back() {
    let c = parse_config(&config_json("turbo", true, Some("fr")));
    assert_eq!(triple(&c), ("turbo".to_string(), true, Some("fr".to_string())));
    let c = parse_config(&config_json("ui_language", false, None));
    assert_eq!(triple(&c), ("ui_language".to_string(), false, None));
    let c = parse_config(&config_json("ui_language", false, Some("de")));
    assert_eq!(triple(&c), ("ui_language".to_string(), false, Some("de".to_string())));
    let c = parse_config("{\n  \"model\": \"medium\",\n  \"ui_language\": \"pt\"\n}");
    assert_eq!(c.ui_language.as_deref(), Some("pt"));
}

#[test]
fn missing_settings_fall_back() {
    let c = load_config_from(None);
    assert_eq!(triple(&c), ("lite".to_string(), false, None));
    let c = load_config_from(Some("{}"));
    assert_eq!(triple(&c), ("lite".to_string(), false, None));
}

#[test]
fn config_file_location() {
    let p = config_path(Some(Path::new("/data/dir"))).to_path_buf();
    assert_eq!(p, PathBuf::from("/data/dir/config.json"));
    let p = config_path(None).to_path_buf();
    assert!(p.ends_with("scriba/config.json"));
}
