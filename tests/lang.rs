use genie_scx::lang::{LangFile, MalformedStringBlock};

#[test]
fn ini_lines() {
    let mut lang = LangFile::new();
    assert!(lang.load_ini_line(
        "46523=The Uighurs will join if you kill Ornlu the wolf and return to tell the tale."
    ));
    assert!(!lang.load_ini_line("; a comment"));
    assert!(!lang.load_ini_line(""));
    assert!(!lang.load_ini_line("no separator"));
    assert!(!lang.load_ini_line("abc=not a number"));
    assert!(!lang.load_ini_line("99999999999=too large"));
    assert!(lang.load_ini_line("+7=a=b"));
    assert_eq!(
        lang.get(46523),
        Some("The Uighurs will join if you kill Ornlu the wolf and return to tell the tale.")
    );
    assert_eq!(lang.get(7), Some("a=b"));
    assert_eq!(lang.get(1), None);
    assert_eq!(lang.iter().len(), 2);
    assert_eq!(lang.iter()[0].0, 46523);
    assert!(lang.iter_named().is_empty());
}

#[test]
fn ini_line_replaces_earlier_entry() {
    let mut lang = LangFile::new();
    assert!(lang.load_ini_line("5=first"));
    assert!(lang.load_ini_line("6=other"));
    assert!(lang.load_ini_line("5=second"));
    assert_eq!(lang.get(5), Some("second"));
    assert_eq!(lang.get(6), Some("other"));
    assert_eq!(lang.iter().len(), 2);
}

#[test]
fn hd_lines() {
    let mut lang = LangFile::new();
    assert!(lang.load_hd_line(
        "46523 \"The Uighurs will join if you kill Ornlu the wolf and return to tell the tale.\""
    ));
    assert!(lang.load_hd_line("  LOBBYBROWSER_DATMOD_TITLE_FORMAT \"DatMod: \\\"%s\\\"\"  "));
    assert!(!lang.load_hd_line("// comment"));
    assert!(!lang.load_hd_line("   "));
    assert!(!lang.load_hd_line("lonely"));
    assert!(!lang.load_hd_line("99999999999 too large"));
    assert_eq!(
        lang.get(46523),
        Some("\"The Uighurs will join if you kill Ornlu the wolf and return to tell the tale.\"")
    );
    assert_eq!(
        lang.get_named("LOBBYBROWSER_DATMOD_TITLE_FORMAT"),
        Some("\"DatMod: \\\"%s\\\"\"")
    );
    assert_eq!(lang.get_named("MISSING"), None);
    assert_eq!(lang.iter_named().len(), 1);
}

#[test]
fn hd_line_signed_key_is_a_name() {
    let mut lang = LangFile::new();
    assert!(lang.load_hd_line("+5 plus"));
    assert_eq!(lang.get(5), None);
    assert_eq!(lang.get_named("+5"), Some("plus"));
}

#[test]
fn direct_inserts() {
    let mut lang = LangFile::new();
    lang.insert(3, "three".to_string());
    lang.insert_named("N".to_string(), "n".to_string());
    lang.insert_named("N".to_string(), "m".to_string());
    assert_eq!(lang.get(3), Some("three"));
    assert_eq!(lang.get_named("N"), Some("m"));
    assert_eq!(lang.iter_named().len(), 1);
}

#[test]
fn string_table_block() {
    let mut lang = LangFile::new();
    let block = [3, 0, b'a', 0, b'b', 0, b'c', 0, 0, 0, 1, 0, 0xe9, 0];
    assert_eq!(lang.load_pe_data(16, &block), Ok(()));
    assert_eq!(lang.get(16), Some("abc"));
    assert_eq!(lang.get(17), None);
    assert_eq!(lang.get(18), Some("\u{e9}"));
    assert_eq!(lang.iter().len(), 2);
}

#[test]
fn string_table_block_skips_invalid_utf16() {
    let mut lang = LangFile::new();
    let block = [1, 0, 0x00, 0xd8, 1, 0, b'z', 0];
    assert_eq!(lang.load_pe_data(0, &block), Ok(()));
    assert_eq!(lang.get(0), None);
    assert_eq!(lang.get(1), Some("z"));
}

#[test]
fn truncated_string_table_block() {
    let mut lang = LangFile::new();
    lang.insert(1, "kept".to_string());
    assert_eq!(lang.load_pe_data(0, &[1, 0, b'q', 0, 5, 0, b'a']), Err(MalformedStringBlock));
    assert_eq!(lang.load_pe_data(0, &[1]), Err(MalformedStringBlock));
    assert_eq!(lang.get(0), None);
    assert_eq!(lang.get(1), Some("kept"));
    assert_eq!(lang.iter().len(), 1);
}
