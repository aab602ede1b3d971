use ryu_rlm::chunk::{chunk_documents, Document, DEFAULT_TARGET_CHARS, MAX_CHARS};

fn doc(source: &str, text: &str) -> Document {
    Document::new(source, text)
}

#[test]
fn an_excerpt_numbers_its_lines_from_where_it_really_starts() {
    let chunks = chunk_documents(&[Document::excerpt("f.rs", "a\nb\nc", 400)], 6_000);
    assert_eq!(chunks[0].start_line, 400);
    assert_eq!(chunks[0].end_line, 402);
}

#[test]
fn a_chunk_never_straddles_two_documents() {
    let chunks = chunk_documents(&[doc("a.md", "alpha"), doc("b.md", "beta")], 6_000);
    assert_eq!(chunks.len(), 2);
    assert_eq!(chunks[0].source, "a.md");
    assert_eq!(chunks[1].source, "b.md");
    assert_eq!(chunks[1].id, 1, "ids run consecutively across the corpus");
}

#[test]
fn line_spans_are_true_and_one_based() {
    let text = (1..=200)
        .map(|i| format!("line {i} {}", "x".repeat(60)))
        .collect::<Vec<_>>()
        .join("\n");
    let chunks = chunk_documents(&[doc("big.txt", &text)], 1_000);
    assert!(chunks.len() > 1);
    assert_eq!(chunks[0].start_line, 1);
    for pair in chunks.windows(2) {
        assert_eq!(
            pair[1].start_line,
            pair[0].end_line + 1,
            "spans must tile the file with no gap and no overlap"
        );
    }
    assert_eq!(chunks.last().unwrap().end_line, 200);
}

#[test]
fn headings_open_new_chunks_once_there_is_content_to_close() {
    let text = "# One\n".to_owned()
        + &"body line\n".repeat(40)
        + "# Two\n"
        + &"other body\n".repeat(40);
    let chunks = chunk_documents(&[doc("d.md", &text)], 300);
    assert!(chunks.len() >= 2);
    assert_eq!(chunks[0].label, "One");
    assert!(
        chunks.iter().any(|c| c.label == "Two"),
        "the second heading must start a chunk, not be buried mid-chunk"
    );
}

#[test]
fn stacked_headings_do_not_produce_one_chunk_each() {
    let text = "# A\n## B\n### C\n#### D\n";
    let chunks = chunk_documents(&[doc("toc.md", text)], 6_000);
    assert_eq!(chunks.len(), 1);
}

#[test]
fn a_document_with_no_blank_lines_still_honours_the_target() {
    let text = (1..=200)
        .map(|i| format!("const x{i} = compute({i});"))
        .collect::<Vec<_>>()
        .join("\n");
    let chunks = chunk_documents(&[doc("a.ts", &text)], 1_000);
    assert!(
        chunks.len() > 1,
        "expected several chunks, got {}",
        chunks.len()
    );
    for c in &chunks {
        assert!(c.chars() <= 2_000, "chunk {} is {} chars", c.id, c.chars());
    }
}

#[test]
fn a_run_with_no_structure_is_still_cut_at_the_hard_ceiling() {
    let text = "x".repeat(400) + "\n";
    let text = text.repeat(100);
    let chunks = chunk_documents(&[doc("bundle.js", &text)], 6_000);
    assert!(chunks.len() > 1);
    for c in &chunks {
        assert!(
            c.chars() <= MAX_CHARS,
            "chunk {} exceeded the ceiling",
            c.id
        );
    }
}

#[test]
fn whitespace_only_regions_are_not_numbered() {
    let chunks = chunk_documents(&[doc("blank.txt", "\n\n\n\n")], 6_000);
    assert!(chunks.is_empty());
}

#[test]
fn neighbors_are_bounded_by_the_corpus() {
    let chunks = chunk_documents(&[doc("a.md", "one"), doc("b.md", "two")], 6_000);
    assert_eq!(chunks[0].neighbors(2), vec![1]);
    assert_eq!(chunks[1].neighbors(2), vec![0]);
}

#[test]
fn a_middle_chunk_has_two_neighbors_and_an_only_one_none() {
    let chunks = chunk_documents(
        &[doc("a", "one"), doc("b", "two"), doc("c", "three")],
        DEFAULT_TARGET_CHARS,
    );
    assert_eq!(chunks[1].neighbors(3), vec![0, 2]);
    assert_eq!(chunks[0].neighbors(1), Vec::<usize>::new());
}

#[test]
fn a_label_is_the_words_of_a_heading_or_the_line_as_it_is() {
    for (line, label) in [
        ("# One", "One"),
        ("  ###  Three # ", "Three #"),
        ("###### Six", "Six"),
        ("#include <x>", "#include <x>"),
        ("#!/bin/sh", "#!/bin/sh"),
        ("####### seven", "####### seven"),
        ("##", "##"),
        ("  plain # text ", "plain # text"),
    ] {
        let chunks = chunk_documents(&[doc("a", &format!("\n{line}\nmore"))], 6_000);
        assert_eq!(chunks[0].label, label);
    }
}

#[test]
fn a_long_label_is_cut_and_marked() {
    let chunks = chunk_documents(&[doc("a.md", &("# ".to_owned() + &"y".repeat(200)))], 6_000);
    assert_eq!(chunks[0].label.chars().count(), 97);
    assert!(chunks[0].label.ends_with('…'));
    assert!(chunks[0].label.starts_with("yyy"));
}

#[test]
fn a_tiny_target_is_not_honoured() {
    let text = "word\n".repeat(40);
    let chunks = chunk_documents(&[doc("a.txt", &text)], 1);
    assert_eq!(chunks.len(), 1);
}

#[test]
fn lines_with_carriage_returns_and_wide_characters_are_counted_alike() {
    let chunks = chunk_documents(&[doc("w.txt", "één\r\ntwee — drie\r\n")], 6_000);
    assert_eq!(chunks.len(), 1);
    assert_eq!((chunks[0].start_line, chunks[0].end_line), (1, 2));
    assert_eq!(chunks[0].text, "één\ntwee — drie");
    assert_eq!(chunks[0].chars(), 15);
}

#[test]
fn a_chunk_cut_again_keeps_its_lines() {
    let text = (1..=300)
        .map(|i| format!("line {i} of the file"))
        .collect::<Vec<_>>()
        .join("\n");
    let whole = chunk_documents(&[doc("f.txt", &text)], 2_000);
    let c = &whole[1];
    let again = chunk_documents(
        &[Document::excerpt(&c.source, &c.text, c.start_line)],
        500,
    );
    assert_eq!(again[0].start_line, c.start_line);
    assert_eq!(again.last().unwrap().end_line, c.end_line);
    assert!(again[0].text.starts_with(&format!("line {} ", c.start_line)));
}
