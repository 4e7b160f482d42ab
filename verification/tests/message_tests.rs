use ouch::message::{
    drain_messages, join_lines, map_message, MessageBuffer, MessageLevel, PrintMessage,
    BUFFER_CAPACITY,
};

fn info(text: &str, accessible: bool) -> PrintMessage {
    PrintMessage {
        contents: String::from(text),
        accessible,
        level: MessageLevel::Info,
    }
}

fn warning(text: &str) -> PrintMessage {
    PrintMessage {
        contents: String::from(text),
        accessible: true,
        level: MessageLevel::Warning,
    }
}

#[test]
fn formatting_by_level_and_mode() {
    assert_eq!(
        map_message(&info("hello", true), true),
        Some(String::from("Info: hello"))
    );
    assert_eq!(
        map_message(&info("hello", true), false),
        Some(String::from("[INFO] hello"))
    );
    assert_eq!(
        map_message(&info("hello", false), false),
        Some(String::from("[INFO] hello"))
    );
    assert_eq!(map_message(&info("hello", false), true), None);
    assert_eq!(
        map_message(&warning("careful"), true),
        Some(String::from("Warning: careful"))
    );
    assert_eq!(
        map_message(&warning("careful"), false),
        Some(String::from("[WARNING] careful"))
    );
}

#[test]
fn every_message_sent_before_shutdown_is_printed_in_order() {
    let mut msgs = Vec::new();
    for i in 0..25 {
        msgs.push(warning(&format!("message number {}", i)));
    }
    let out = drain_messages(&msgs, false);
    assert_eq!(out.len(), 25);
    for (i, line) in out.iter().enumerate() {
        assert_eq!(line, &format!("[WARNING] message number {}", i));
    }
}

#[test]
fn suppressed_messages_are_the_only_ones_missing() {
    let msgs = vec![
        info("shown", true),
        info("hidden", false),
        warning("always"),
    ];
    let out = drain_messages(&msgs, true);
    assert_eq!(
        out,
        vec![String::from("Info: shown"), String::from("Warning: always")]
    );
}

#[test]
fn buffer_flushes_exactly_at_capacity() {
    let mut buf = MessageBuffer::new();
    for i in 0..BUFFER_CAPACITY - 1 {
        let flushed = buf.handle(&warning(&format!("w{}", i)), false);
        assert!(flushed.is_none());
    }
    let flushed = buf.handle(&warning("last"), false);
    let batch = flushed.expect("capacity reached: the batch must be handed out");
    assert_eq!(batch.len(), BUFFER_CAPACITY);
    assert_eq!(batch[0], "[WARNING] w0");
    assert_eq!(batch[BUFFER_CAPACITY - 1], "[WARNING] last");
    let rest = buf.finish();
    assert!(rest.is_empty());
}

#[test]
fn remainder_is_flushed_at_shutdown() {
    let mut buf = MessageBuffer::new();
    assert!(buf.handle(&warning("one"), false).is_none());
    assert!(buf.handle(&warning("two"), false).is_none());
    let rest = buf.finish();
    assert_eq!(
        rest,
        vec![String::from("[WARNING] one"), String::from("[WARNING] two")]
    );
}

#[test]
fn in_memory_advisories_carry_their_format_name() {
    let zip = ouch::pipeline::warn_user_about_loading_zip_in_memory();
    assert!(zip.contents.contains("'.zip'"));
    assert!(zip.accessible);
    assert_eq!(zip.level, MessageLevel::Warning);
    let sevenz = ouch::pipeline::warn_user_about_loading_sevenz_in_memory();
    assert!(sevenz.contents.contains("'.7z'"));
    assert!(sevenz.accessible);
    assert_eq!(sevenz.level, MessageLevel::Warning);
}

#[test]
fn joining_a_batch_puts_one_newline_between_lines() {
    assert_eq!(join_lines(&vec![]), "");
    assert_eq!(join_lines(&vec![String::from("only")]), "only");
    assert_eq!(
        join_lines(&vec![String::from("a"), String::from("b"), String::from("c")]),
        "a\nb\nc"
    );
}

#[test]
fn success_message_names_the_output_and_is_accessible() {
    let m = ouch::pipeline::compression_success_message("out.tar.gz");
    assert_eq!(m.contents, "Successfully compressed 'out.tar.gz'.");
    assert!(m.accessible);
    assert_eq!(m.level, MessageLevel::Info);
}
