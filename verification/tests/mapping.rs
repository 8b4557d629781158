use emojy::mapping::load_translation;
use emojy::mapping::translate;
use emojy::mapping::Translation;

#[test]
fn single_character_line_maps_to_itself() {
    let t = load_translation("x");
    assert_eq!(t.lookup('x'), Some('x'));
    assert_eq!(translate("x", &t), "x");
}

#[test]
fn line_maps_first_character_to_last() {
    let t = load_translation("abc\n");
    assert_eq!(t.lookup('a'), Some('c'));
    assert_eq!(t.lookup('b'), None);
    assert_eq!(t.lookup('c'), None);
}

#[test]
fn later_lines_overwrite_earlier_duplicate_glyphs() {
    let t = load_translation("ab\nac\n");
    assert_eq!(t.lookup('a'), Some('c'));
}

#[test]
fn blank_lines_are_skipped() {
    let t = load_translation("\n\na\n\n");
    assert_eq!(t.lookup('a'), Some('a'));
    assert_eq!(t.lookup('\n'), None);
}

#[test]
fn carriage_return_line_endings_are_stripped() {
    let t = load_translation("ab\r\ncd\r\n");
    assert_eq!(t.lookup('a'), Some('b'));
    assert_eq!(t.lookup('c'), Some('d'));
    assert_eq!(t.lookup('\r'), None);
}

#[test]
fn final_line_without_newline_counts() {
    let t = load_translation("ab\ncd");
    assert_eq!(t.lookup('a'), Some('b'));
    assert_eq!(t.lookup('c'), Some('d'));
}

#[test]
fn empty_translation_source_maps_nothing() {
    let t = load_translation("");
    assert_eq!(t.lookup('a'), None);
    assert_eq!(translate("anything", &t), "");
}

#[test]
fn glyph_lines_translate_a_glyph_program() {
    let t = load_translation("\u{1F600}+\n\u{1F622}-\n");
    assert_eq!(t.lookup('\u{1F600}'), Some('+'));
    assert_eq!(t.lookup('\u{1F622}'), Some('-'));
    assert_eq!(translate("\u{1F600}\u{1F600}\u{1F622}", &t), "++-");
}

#[test]
fn identity_mapping_keeps_mapped_characters_only() {
    let mut t = Translation::new();
    t.insert('+', '+');
    t.insert('-', '-');
    assert_eq!(translate("+a-b+", &t), "+-+");
}

#[test]
fn translate_replaces_and_drops_in_order() {
    let mut t = Translation::new();
    t.insert('a', '>');
    t.insert('b', '<');
    assert_eq!(translate("aXbYa", &t), "><>");
}

#[test]
fn insert_and_lookup_roundtrip() {
    let mut t = Translation::new();
    assert_eq!(t.lookup('q'), None);
    t.insert('q', '.');
    assert_eq!(t.lookup('q'), Some('.'));
    t.insert('q', ',');
    assert_eq!(t.lookup('q'), Some(','));
}
