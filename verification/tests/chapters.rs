use mkv_chapters::chapters::ChapterError;
use mkv_chapters::emit::chapters_to_xml;
use mkv_chapters::parse::parse_chapter_xml;

const EXAMPLE: &str = "<EditionEntry><ChapterAtom><ChapterTimeStart>00:00:00.000000000</ChapterTimeStart><ChapterDisplay><ChapterString>Intro</ChapterString></ChapterDisplay></ChapterAtom></EditionEntry>";

const TWO_CHAPTERS: &str = "<?xml version=\"1.0\"?>\n<EditionEntry><ChapterAtom><ChapterTimeStart>00:00:00.000000000</ChapterTimeStart><ChapterTimeEnd>00:05:00.000000000</ChapterTimeEnd><ChapterDisplay><ChapterString>A</ChapterString></ChapterDisplay></ChapterAtom><ChapterAtom><ChapterTimeStart>00:05:00.000000000</ChapterTimeStart><ChapterDisplay><ChapterString>B</ChapterString></ChapterDisplay></ChapterAtom></EditionEntry>";

#[test]
fn parses_example_single_chapter() {
    let doc = parse_chapter_xml(EXAMPLE).unwrap();
    let atoms = doc.iter();
    assert_eq!(atoms.len(), 1);
    assert_eq!(atoms[0].start_time, "00:00:00.000000000");
    assert!(atoms[0].end_time.is_none());
    assert_eq!(atoms[0].display.title, "Intro");
}

#[test]
fn example_display_line_uses_placeholder() {
    let doc = parse_chapter_xml(EXAMPLE).unwrap();
    let text = doc.to_os_string();
    assert_eq!(text, "Start: 00:00:00.000000000 End: ???          Title: Intro\n");
}

#[test]
fn display_shows_end_time_when_present() {
    let doc = parse_chapter_xml(TWO_CHAPTERS).unwrap();
    let text = doc.to_os_string();
    let lines: Vec<&str> = text.lines().collect();
    assert_eq!(lines.len(), 2);
    assert_eq!(lines[0], "Start: 00:00:00.000000000 End: 00:05:00.000000000 Title: A");
    assert_eq!(lines[1], "Start: 00:05:00.000000000 End: ???          Title: B");
}

#[test]
fn missing_time_start_is_malformed() {
    let xml = "<EditionEntry><ChapterAtom><ChapterDisplay><ChapterString>Intro</ChapterString></ChapterDisplay></ChapterAtom></EditionEntry>";
    let err = parse_chapter_xml(xml).unwrap_err();
    assert_eq!(err, ChapterError::MalformedInput);
}

#[test]
fn zero_chapter_atoms_parse_to_empty_sequence() {
    let doc = parse_chapter_xml("<EditionEntry></EditionEntry>").unwrap();
    assert_eq!(doc.iter().len(), 0);
}

#[test]
fn zero_chapters_with_declaration_and_whitespace() {
    let doc = parse_chapter_xml("<?xml version=\"1.0\"?>\n<EditionEntry>\n</EditionEntry>\n").unwrap();
    assert_eq!(doc.iter().len(), 0);
}

#[test]
fn whitespace_between_elements_is_tolerated() {
    let xml = "<?xml version=\"1.0\"?>\n<EditionEntry>\n  <ChapterAtom>\n    <ChapterTimeStart>00:01:00.000000000</ChapterTimeStart>\n    <ChapterTimeEnd>00:02:00.000000000</ChapterTimeEnd>\n    <ChapterDisplay>\n      <ChapterString>Scene One</ChapterString>\n    </ChapterDisplay>\n  </ChapterAtom>\n</EditionEntry>\n";
    let doc = parse_chapter_xml(xml).unwrap();
    let atoms = doc.iter();
    assert_eq!(atoms.len(), 1);
    assert_eq!(atoms[0].start_time, "00:01:00.000000000");
    assert_eq!(atoms[0].end_time.as_deref(), Some("00:02:00.000000000"));
    assert_eq!(atoms[0].display.title, "Scene One");
}

#[test]
fn end_time_presence_is_preserved() {
    let doc = parse_chapter_xml(TWO_CHAPTERS).unwrap();
    let atoms = doc.iter();
    assert_eq!(atoms.len(), 2);
    assert_eq!(atoms[0].end_time.as_deref(), Some("00:05:00.000000000"));
    assert!(atoms[1].end_time.is_none());
}

#[test]
fn append_is_tail_insertion() {
    let mut doc = parse_chapter_xml(TWO_CHAPTERS).unwrap();
    doc.append_chapter("C", "00:10:00.000000000");
    let atoms = doc.iter();
    assert_eq!(atoms.len(), 3);
    assert_eq!(atoms[0].display.title, "A");
    assert_eq!(atoms[1].display.title, "B");
    assert_eq!(atoms[2].display.title, "C");
    assert_eq!(atoms[2].start_time, "00:10:00.000000000");
    assert!(atoms[2].end_time.is_none());
}

#[test]
fn serializes_to_canonical_xml() {
    let doc = parse_chapter_xml(EXAMPLE).unwrap();
    let xml = chapters_to_xml(&doc);
    assert_eq!(
        xml,
        "<?xml version=\"1.0\"?>\n<EditionEntry><ChapterAtom><ChapterTimeStart>00:00:00.000000000</ChapterTimeStart><ChapterDisplay><ChapterString>Intro</ChapterString></ChapterDisplay></ChapterAtom></EditionEntry>"
    );
}

#[test]
fn round_trip_preserves_chapter_sequence() {
    let doc = parse_chapter_xml(TWO_CHAPTERS).unwrap();
    let xml = chapters_to_xml(&doc);
    let again = parse_chapter_xml(&xml).unwrap();
    let before = doc.iter();
    let after = again.iter();
    assert_eq!(before.len(), after.len());
    for (a, b) in before.iter().zip(after.iter()) {
        assert_eq!(a.start_time, b.start_time);
        assert_eq!(a.end_time, b.end_time);
        assert_eq!(a.display.title, b.display.title);
    }
}

#[test]
fn round_trip_after_append() {
    let mut doc = parse_chapter_xml(EXAMPLE).unwrap();
    doc.append_chapter("Credits", "00:42:00.000000000");
    let xml = chapters_to_xml(&doc);
    let again = parse_chapter_xml(&xml).unwrap();
    let atoms = again.iter();
    assert_eq!(atoms.len(), 2);
    assert_eq!(atoms[1].display.title, "Credits");
    assert_eq!(atoms[1].start_time, "00:42:00.000000000");
    assert!(atoms[1].end_time.is_none());
}

#[test]
fn iter_mut_edits_are_visible_in_serialization() {
    let mut doc = parse_chapter_xml(EXAMPLE).unwrap();
    for atom in doc.iter_mut().iter_mut() {
        atom.display.title = String::from("Renamed");
    }
    let xml = chapters_to_xml(&doc);
    assert!(xml.contains("<ChapterString>Renamed</ChapterString>"));
    assert!(!xml.contains("Intro"));
}

#[test]
fn empty_input_is_malformed() {
    assert_eq!(parse_chapter_xml("").unwrap_err(), ChapterError::MalformedInput);
}

#[test]
fn wrong_root_element_is_malformed() {
    let xml = "<Chapters><EditionEntry></EditionEntry></Chapters>";
    assert_eq!(parse_chapter_xml(xml).unwrap_err(), ChapterError::MalformedInput);
}

#[test]
fn unclosed_atom_is_malformed() {
    let xml = "<EditionEntry><ChapterAtom><ChapterTimeStart>0</ChapterTimeStart><ChapterDisplay><ChapterString>t</ChapterString></ChapterDisplay></EditionEntry>";
    assert_eq!(parse_chapter_xml(xml).unwrap_err(), ChapterError::MalformedInput);
}

#[test]
fn trailing_garbage_is_malformed() {
    let xml = "<EditionEntry></EditionEntry>x";
    assert_eq!(parse_chapter_xml(xml).unwrap_err(), ChapterError::MalformedInput);
}

#[test]
fn misordered_elements_are_malformed() {
    let xml = "<EditionEntry><ChapterAtom><ChapterDisplay><ChapterString>t</ChapterString></ChapterDisplay><ChapterTimeStart>0</ChapterTimeStart></ChapterAtom></EditionEntry>";
    assert_eq!(parse_chapter_xml(xml).unwrap_err(), ChapterError::MalformedInput);
}

#[test]
fn element_text_is_preserved_verbatim() {
    let xml = "<EditionEntry><ChapterAtom><ChapterTimeStart>not checked semantically</ChapterTimeStart><ChapterDisplay><ChapterString>A &amp; B > C</ChapterString></ChapterDisplay></ChapterAtom></EditionEntry>";
    let doc = parse_chapter_xml(xml).unwrap();
    let atoms = doc.iter();
    assert_eq!(atoms[0].start_time, "not checked semantically");
    assert_eq!(atoms[0].display.title, "A &amp; B > C");
}
