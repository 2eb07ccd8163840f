use mportal::config::{config_path, config_path_under, Config, ConfigError};
use mportal::paths::{extension_of, stem_of};
use mportal::text::{chars_of, contains_text, owned_words, same_text, split_words};

#[test]
fn default_config_has_one_placeholder_portal() {
    let c = Config::default();
    assert_eq!(c.portal.len(), 1);
    let p = &c.portal[0];
    assert_eq!(p.portal_name, "");
    assert_eq!(p.input_folder, "/path/to/the/input/folder");
    assert_eq!(p.output_folder, "/path/to/the/output/folder");
    assert_eq!(p.output_format, "mp4");
    assert_eq!(p.input_options, "");
    assert_eq!(p.output_options, "");
}

#[test]
fn config_file_lives_in_mportal_folder() {
    assert_eq!(config_path_under("/home/u/.config"), "/home/u/.config/MPortal/config.toml");
    assert_eq!(config_path_under("/home/u/.config/"), "/home/u/.config/MPortal/config.toml");
}

#[test]
fn config_path_is_under_user_config_dir() {
    assert_eq!(
        config_path(Some("/home/u/.config".to_string())),
        Ok("/home/u/.config/MPortal/config.toml".to_string())
    );
    assert_eq!(config_path(None), Err(ConfigError::DirectoryNotFound));
}

#[test]
fn extension_follows_final_dot() {
    assert_eq!(extension_of("a.b.c"), Some("c".to_string()));
    assert_eq!(extension_of("name."), Some("".to_string()));
    assert_eq!(extension_of(".hidden"), None);
    assert_eq!(extension_of(".hidden.mp4"), Some("mp4".to_string()));
    assert_eq!(extension_of("plain"), None);
    assert_eq!(extension_of(""), None);
}

#[test]
fn stem_precedes_final_dot() {
    assert_eq!(stem_of("a.b.c"), "a.b");
    assert_eq!(stem_of("name."), "name");
    assert_eq!(stem_of(".hidden"), ".hidden");
    assert_eq!(stem_of("plain"), "plain");
}

#[test]
fn stem_and_extension_rebuild_the_name() {
    for name in ["clip.mp4", "a.b.c", ".cfg.toml", "x."] {
        let e = extension_of(name).unwrap();
        assert_eq!(format!("{}.{}", stem_of(name), e), name);
    }
    assert_eq!(stem_of(".profile"), ".profile");
}

#[test]
fn std_agrees_on_stem_and_extension() {
    for name in ["clip.mp4", "a.b.c", ".cfg.toml", "x.", ".hidden", "plain", "über.MKV"] {
        let p = std::path::Path::new(name);
        assert_eq!(extension_of(name).as_deref(), p.extension().and_then(|e| e.to_str()));
        assert_eq!(Some(stem_of(name).as_str()), p.file_stem().and_then(|e| e.to_str()));
    }
}

#[test]
fn text_helpers() {
    assert!(contains_text("abc.conv.mp4", ".conv."));
    assert!(contains_text("abc", ""));
    assert!(!contains_text("ab", "abc"));
    assert!(same_text("été", "été"));
    assert!(!same_text("a", "ab"));
    assert_eq!(chars_of("añb"), vec!['a', 'ñ', 'b']);
    assert_eq!(split_words(" x  y "), vec!["x", "y"]);
    assert_eq!(owned_words("-i  a"), vec!["-i".to_string(), "a".to_string()]);
}

#[test]
fn documents_folder_holds_config_folder() {
    assert_eq!(
        config_path(Some("C:/Users/alice/Documents".to_string())),
        Ok("C:/Users/alice/Documents/MPortal/config.toml".to_string())
    );
}

#[test]
fn basic_config_path_matches_daemon() {
    for b in [Some("/h/.config".to_string()), None, Some(String::new())] {
        assert_eq!(mportal::basic::config::config_path(b.clone()), config_path(b));
    }
}

#[test]
fn joined_words_split_back() {
    for s in ["", "  a b\tc\n", "-c:v libx264  -crf 23", "\u{2003}x\u{3000}y\u{85}"] {
        let w = split_words(s);
        let joined = w.join(" ");
        assert_eq!(split_words(&joined), w);
    }
}

#[test]
fn every_unicode_whitespace_separates() {
    for c in [
        '\u{9}', '\u{A}', '\u{B}', '\u{C}', '\u{D}', ' ', '\u{85}', '\u{A0}', '\u{1680}',
        '\u{2000}', '\u{200A}', '\u{2028}', '\u{2029}', '\u{202F}', '\u{205F}', '\u{3000}',
    ] {
        let s = format!("a{}b", c);
        assert_eq!(split_words(&s), vec!["a", "b"]);
    }
    for c in ['\u{200B}', '\u{180E}', 'x', '\u{FEFF}'] {
        let s = format!("a{}b", c);
        assert_eq!(split_words(&s).len(), 1);
    }
}

#[test]
fn whitespace_agrees_with_std_everywhere() {
    for u in 0u32..=0x10FFFF {
        if let Some(c) = char::from_u32(u) {
            assert_eq!(mportal::text::is_whitespace(c), c.is_whitespace(), "U+{:04X}", u);
        }
    }
}
