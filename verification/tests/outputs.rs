use vico_vee::provenance::content_hash_hex;
use vico_vee::sandbox::{file_kind_of, log_artifact, text_artifact, FileKind};
use vico_vee::types::artifact::{ImageFormat, LogLevel, TextFormat};

#[test]
fn stdout_becomes_a_text_artifact() {
    assert!(text_artifact("").is_none());
    let (content, format, lines) = text_artifact("hello world\nline 2").unwrap();
    assert_eq!(content, "hello world\nline 2");
    assert_eq!(format, TextFormat::Plain);
    assert_eq!(lines, 2);
    let (_, format, lines) = text_artifact("  {\"a\": 1}\n").unwrap();
    assert_eq!(format, TextFormat::Json);
    assert_eq!(lines, 1);
}

#[test]
fn stderr_becomes_a_log_with_level_counts() {
    assert!(log_artifact("").is_none());
    let (entries, counts) = log_artifact("warning: something\nerror: oops\nERROR again\nplain").unwrap();
    assert_eq!(entries.len(), 4);
    assert_eq!(entries[0], (LogLevel::Warn, "warning: something".to_string()));
    assert_eq!(entries[1].0, LogLevel::Error);
    assert_eq!(entries[2].0, LogLevel::Error);
    assert_eq!(entries[3].0, LogLevel::Info);
    assert_eq!(counts.len(), 6);
    let count = |l: LogLevel| counts.iter().find(|(x, _)| *x == l).unwrap().1;
    assert_eq!(count(LogLevel::Error), 2);
    assert_eq!(count(LogLevel::Warn), 1);
    assert_eq!(count(LogLevel::Info), 1);
    assert_eq!(count(LogLevel::Fatal), 0);
}

#[test]
fn content_hash_is_lower_hex_sha256() {
    assert_eq!(
        content_hash_hex(b"abc"),
        "ba7816bf8f01cfea414140de5dae2223b00361a396177a9cb410ff61f20015ad"
    );
    assert_eq!(content_hash_hex(b"").len(), 64);
}

#[test]
fn output_files_are_classified_from_their_bytes() {
    assert_eq!(file_kind_of("json", 9, Some(&b"{\"a\": [1]}"[..])), FileKind::Json);
    assert_eq!(file_kind_of("json", 3, Some(&b"[1,"[..])), FileKind::Reference);
    assert_eq!(file_kind_of("json", 2, Some(&[0xff, 0xfe][..])), FileKind::Reference);
    assert_eq!(file_kind_of("json", 2, None), FileKind::Reference);
    assert_eq!(file_kind_of("txt", 2, Some(&b"{}"[..])), FileKind::Reference);
    assert_eq!(file_kind_of("json", 6_000_000, Some(&b"{}"[..])), FileKind::Reference);
    assert_eq!(file_kind_of("png", 4, Some(&b"\x89PNG"[..])), FileKind::Image(ImageFormat::Png));
    assert_eq!(file_kind_of("jpeg", 4, Some(&b"abcd"[..])), FileKind::Image(ImageFormat::Jpg));
}
