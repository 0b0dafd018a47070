use vault_layer::quality::text_quality_signals;

#[test]
fn status_only_chunks_show_few_words() {
    let s = text_quality_signals("Bezorgd.");
    assert!(!s.blank);
    assert_eq!(s.word_count, 1);
    assert_eq!(s.char_count, 8);
    assert_eq!(s.unique_words, 1);
    let s = text_quality_signals(
        "VaultLayer indexes Markdown sections with provenance, context, and retrieval signals.",
    );
    assert_eq!(s.word_count, 10);
    assert_eq!(s.unique_words, 10);
    assert_eq!(s.url_count, 0);
    assert!(!s.excalidraw_stub && !s.mail_header);
}

#[test]
fn boilerplate_urls_and_email_headers_are_flagged() {
    let s = text_quality_signals(
        "==⚠ Switch to EXCALIDRAW VIEW in the MORE OPTIONS menu of this document. ⚠==",
    );
    assert!(s.excalidraw_stub);
    let s = text_quality_signals(
        "- [MB14 vs SARO | Grand Beatbox LOOPSTATION Battle 2017 | SEMI FINAL - YouTube](https://www.youtube.com/watch?v=demo)",
    );
    assert_eq!(s.url_count, 1);
    let s = text_quality_signals(
        "**Aan:** user@example.com, other@example.com, third@example.com\nSubject: hello",
    );
    assert!(s.mail_header);
    assert_eq!(s.email_marker_count, 3);
}

#[test]
fn blank_text_and_repeated_words() {
    let s = text_quality_signals("  \n\t ");
    assert!(s.blank);
    assert_eq!(s.word_count, 0);
    assert_eq!(s.char_count, 0);
    let s = text_quality_signals("Done done DONE! -- done");
    assert_eq!(s.word_count, 4);
    assert_eq!(s.unique_words, 1);
    let s = text_quality_signals("see http://a and https://b and HTTPS://C");
    assert_eq!(s.url_count, 3);
}
