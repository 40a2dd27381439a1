use kingdom::type_writer::TypeWriter;

#[test]
fn new_trims_the_text() {
    let w = TypeWriter::new("  Hear me, my liege.\n".to_string());
    assert_eq!(w.string, "Hear me, my liege.");
    assert_eq!(w.last_len, 0);
    assert!(!w.is_finished);
    assert_eq!(w.slice(), "");
}

#[test]
fn increment_reveals_one_character_per_tick() {
    let mut w = TypeWriter::new("ab".to_string());
    w.increment();
    assert_eq!(w.slice(), "a");
    assert!(!w.is_finished);
    w.increment();
    assert_eq!(w.slice(), "ab");
    assert!(w.is_finished);
    w.increment();
    assert_eq!(w.last_len, 2);
    assert!(w.is_finished);
}

#[test]
fn finish_reveals_everything() {
    let mut w = TypeWriter::new("grant the festival".to_string());
    w.increment();
    w.finish();
    assert!(w.is_finished);
    assert_eq!(w.slice(), "grant the festival");
    assert_eq!(w.slice_with_line_wrap(), "grant the festival");
}

#[test]
fn line_wrap_pads_to_the_end_of_the_word() {
    let mut w = TypeWriter::new("hello world".to_string());
    assert_eq!(w.slice_with_line_wrap(), "     ");
    w.increment();
    w.increment();
    assert_eq!(w.slice_with_line_wrap(), "he   ");
    for _ in 0..4 {
        w.increment();
    }
    assert_eq!(w.slice(), "hello ");
    assert_eq!(w.slice_with_line_wrap(), "hello ");
    w.increment();
    w.increment();
    assert_eq!(w.slice_with_line_wrap(), "hello wo");
}

#[test]
fn line_wrap_counts_characters_not_bytes() {
    let mut w = TypeWriter::new("né là".to_string());
    w.increment();
    assert_eq!(w.slice(), "n");
    assert_eq!(w.slice_with_line_wrap(), "n ");
    w.increment();
    assert_eq!(w.slice(), "né");
    assert_eq!(w.slice_with_line_wrap(), "né");
}
