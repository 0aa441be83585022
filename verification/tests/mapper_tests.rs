use argus::config::ArgusConfig;
use argus::mappers::{extract_dynamic_port, map_url, normalize_spoken_str};

#[test]
fn known_phrases_name_their_ports() {
    assert_eq!(extract_dynamic_port("kill port eighty eighty"), Some(8080));
    assert_eq!(extract_dynamic_port("kill port eighty eighty one"), Some(8081));
    assert_eq!(extract_dynamic_port("kill port eighty eight"), Some(88));
    assert_eq!(extract_dynamic_port("clear port fifty one seventy three"), Some(5173));
    assert_eq!(extract_dynamic_port("close port fifty four thirty two"), Some(5432));
    assert_eq!(extract_dynamic_port("close port thirty three oh six"), Some(3306));
    assert_eq!(extract_dynamic_port("terminate port sixty three seventy nine"), Some(6379));
    assert_eq!(extract_dynamic_port("kill port forty two oh oh"), Some(4200));
    // "forty two hundred" is not a known phrase: only "two zero zero" reads as digits.
    assert_eq!(extract_dynamic_port("kill port forty two hundred"), Some(200));
}

#[test]
fn digit_words_are_read_in_order() {
    assert_eq!(extract_dynamic_port("argus kill port three thousand"), Some(3000));
    assert_eq!(extract_dynamic_port("kill port five one seven three"), Some(5173));
    assert_eq!(extract_dynamic_port("kill port two hundred"), Some(200));
    assert_eq!(extract_dynamic_port("terminate port eight oh eight oh"), Some(8080));
    assert_eq!(extract_dynamic_port("august kill port zero"), Some(0));
}

#[test]
fn unreadable_ports_give_none() {
    assert_eq!(extract_dynamic_port("kill port banana"), None);
    assert_eq!(extract_dynamic_port("kill port"), None);
    assert_eq!(extract_dynamic_port("kill port nine nine nine nine nine"), None);
    assert_eq!(extract_dynamic_port("kill port one two three four five six"), None);
}

#[test]
fn mishearings_are_corrected() {
    assert_eq!(normalize_spoken_str("git hub"), "github");
    assert_eq!(normalize_spoken_str("get hub"), "github");
    assert_eq!(normalize_spoken_str("you tube"), "youtube");
    assert_eq!(normalize_spoken_str("local host"), "local");
    assert_eq!(normalize_spoken_str("veet"), "vite");
    assert_eq!(normalize_spoken_str("light"), "vite");
    assert_eq!(normalize_spoken_str("back end"), "backend");
}

fn sample_config() -> ArgusConfig {
    let pairs = vec![
        ("github".to_string(), "https://github.com".to_string()),
        ("youtube".to_string(), "https://youtube.com".to_string()),
        ("vite".to_string(), "http://localhost:5173".to_string()),
    ];
    ArgusConfig::from_pairs(&pairs)
}

#[test]
fn map_url_looks_up_corrected_names() {
    let config = sample_config();
    assert_eq!(map_url("git hub", &config), Some("https://github.com".to_string()));
    assert_eq!(map_url("you tube", &config), Some("https://youtube.com".to_string()));
    assert_eq!(map_url("light", &config), Some("http://localhost:5173".to_string()));
    assert_eq!(map_url("gitlab", &config), None);
}

#[test]
fn later_bookmarks_override_earlier_ones() {
    let pairs = vec![
        ("docs".to_string(), "https://old.example".to_string()),
        ("docs".to_string(), "https://new.example".to_string()),
    ];
    let config = ArgusConfig::from_pairs(&pairs);
    assert_eq!(config.entries().len(), 1);
    assert_eq!(map_url("docs", &config), Some("https://new.example".to_string()));
}

#[test]
fn inserted_bookmark_is_found() {
    let mut config = ArgusConfig::new();
    assert_eq!(config.bookmark("mail"), None);
    config.insert_bookmark("mail".to_string(), "https://mail.example".to_string());
    assert_eq!(config.bookmark("mail"), Some("https://mail.example".to_string()));
    config.insert_bookmark("mail".to_string(), "https://other.example".to_string());
    assert_eq!(config.bookmark("mail"), Some("https://other.example".to_string()));
    assert_eq!(config.entries().len(), 1);
}
