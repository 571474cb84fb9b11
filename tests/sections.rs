use obsidian_notes::headings::{find_sections, parse_header_line, parse_section_header, HeaderProblem};
use obsidian_notes::section::{append_to_section, EditError};

#[test]
fn header_lines() {
    assert_eq!(parse_header_line("  ## Tasks  "), Some((2, "Tasks".to_string())));
    assert_eq!(parse_header_line("###### Six"), Some((6, "Six".to_string())));
    assert_eq!(parse_header_line("####### Seven"), None);
    assert_eq!(parse_header_line("##   "), None);
    assert_eq!(parse_header_line("text # not"), None);
}

#[test]
fn section_header_errors() {
    assert_eq!(parse_section_header("Tasks"), Err(HeaderProblem::MissingLevel));
    assert_eq!(parse_section_header("####### Deep"), Err(HeaderProblem::LevelTooDeep));
    assert_eq!(parse_section_header("###"), Err(HeaderProblem::EmptyTitle));
    assert_eq!(parse_section_header(" ## End day "), Ok((2, "End day".to_string())));
}

#[test]
fn sections_found_in_line_order() {
    let doc = "# A\n## Foo\ntext\n### Foo\n## Foo \n";
    let found = find_sections(doc, 2, " Foo");
    let lines: Vec<usize> = found.iter().map(|h| h.line).collect();
    assert_eq!(lines, vec![1, 4]);
    assert!(found.iter().all(|h| h.level == 2 && h.text == "Foo"));
}

#[test]
fn append_goes_before_next_heading_of_same_level() {
    let doc = "# Day\n## Foo\nfirst\n### Sub\nmore\n## Bar\nlast";
    let out = append_to_section(doc, "## Foo", "added").unwrap();
    assert_eq!(out, "# Day\n## Foo\nfirst\n### Sub\nmore\n\nadded\n## Bar\nlast");
    let foo = out.find("## Foo").unwrap();
    let added = out.find("added").unwrap();
    let bar = out.find("## Bar").unwrap();
    assert!(foo < added && added < bar);
}

#[test]
fn append_stops_at_higher_level() {
    let doc = "## Foo\nx\n# Top\ny";
    let out = append_to_section(doc, "## Foo", "z").unwrap();
    assert_eq!(out, "## Foo\nx\n\nz\n# Top\ny");
}

#[test]
fn append_at_end_of_document() {
    assert_eq!(append_to_section("## Foo\nx", "## Foo", "y").unwrap(), "## Foo\nx\n\ny");
    assert_eq!(append_to_section("## Foo\nx\n\n", "## Foo", "y").unwrap(), "## Foo\nx\n\ny");
    assert_eq!(append_to_section("## Foo\r\nx\r\n", "## Foo", "y").unwrap(), "## Foo\nx\n\ny");
}

#[test]
fn duplicate_headings_are_ambiguous() {
    let doc = "## Foo\na\n## Foo\nb";
    match append_to_section(doc, "## Foo", "t") {
        Err(EditError::AmbiguousSection(found)) => {
            let lines: Vec<usize> = found.iter().map(|h| h.line).collect();
            assert_eq!(lines, vec![0, 2]);
        }
        other => panic!("unexpected {:?}", other),
    }
}

#[test]
fn other_level_is_a_mismatch() {
    let doc = "# Foo\na\n### Foo\nb";
    match append_to_section(doc, "## Foo", "t") {
        Err(EditError::SectionLevelMismatch(found)) => {
            let seen: Vec<(usize, u32)> = found.iter().map(|h| (h.line, h.level)).collect();
            assert_eq!(seen, vec![(0, 1), (2, 3)]);
        }
        other => panic!("unexpected {:?}", other),
    }
}

#[test]
fn missing_section_and_bad_header() {
    assert_eq!(append_to_section("# A\ntext", "## Foo", "t"), Err(EditError::SectionNotFound));
    assert_eq!(
        append_to_section("# A", "Foo", "t"),
        Err(EditError::InvalidHeader(HeaderProblem::MissingLevel))
    );
    assert_eq!(
        append_to_section("# A", "## ", "t"),
        Err(EditError::InvalidHeader(HeaderProblem::EmptyTitle))
    );
}
