use watcher::text::{ends_with, split_on_str, starts_with, str_eq, to_forward_slashes};
use watcher::adobe_media_encoder_log::{decode_log_text, malformed_completion_lines, read_block, AdobeMediaEncoderLog, Entry};
use watcher::tailer::{outbound_record, rewrite_path, Tailer};
use watcher::doc::Doc;

fn utf16_le(text: &str) -> Vec<u8> {
    let mut out = Vec::new();
    for unit in text.encode_utf16() {
        out.push((unit & 0xff) as u8);
        out.push((unit >> 8) as u8);
    }
    out
}

fn block(output: &str, preset: &str, when: &str) -> String {
    format!(
        "\r\n - Source File: C:\\in\\clip.mov\r\n - Output File: {}\r\n - Preset Used: {}\r\n{} : File Successfully Encoded\r\n",
        output, preset, when
    )
}

fn two_records_with_malformed_line() -> String {
    let mut text = String::new();
    text.push_str(&block("H:\\NTS2018 mp4s\\first.mp4", "Match Source", "03/15/2018 10:20:30 AM"));
    text.push_str("\r\n - Output File: H:\\NTS2018 mp4s\\broken.mp4\r\nnot a date : File Successfully Encoded\r\n");
    text.push_str(&block("H:\\NTS2018 mp4s\\second.mp4", "H.264", "03/15/2018 10:05:00 PM"));
    text
}

#[test]
fn two_records_and_one_malformed_line() {
    let log = AdobeMediaEncoderLog::parse(&two_records_with_malformed_line());
    assert_eq!(log.entries.len(), 2);
    assert_eq!(log.entries[0].date_time, 1521109230);
    assert_eq!(log.entries[0].output_filename.as_deref(), Some("H:/NTS2018 mp4s/first.mp4"));
    assert_eq!(log.entries[0].preset.as_deref(), Some("Match Source"));
    assert_eq!(log.entries[1].date_time, 1521151500);
    assert_eq!(log.entries[1].output_filename.as_deref(), Some("H:/NTS2018 mp4s/second.mp4"));
}

#[test]
fn open_decodes_utf16() {
    let bytes = utf16_le(&two_records_with_malformed_line());
    let log = AdobeMediaEncoderLog::open(&bytes).unwrap();
    assert_eq!(log.entries.len(), 2);
    assert_eq!(log.entries[1].preset.as_deref(), Some("H.264"));
}

#[test]
fn open_refuses_a_lone_surrogate() {
    let bytes = vec![0x00, 0xd8, 0x41, 0x00];
    assert!(AdobeMediaEncoderLog::open(&bytes).is_err());
}

#[test]
fn empty_log_has_no_entries() {
    assert_eq!(AdobeMediaEncoderLog::parse("").entries.len(), 0);
    assert_eq!(AdobeMediaEncoderLog::open(&[]).unwrap().entries.len(), 0);
}

#[test]
fn block_without_empty_line_above_is_skipped() {
    let text = " - Output File: a.mp4\r\n03/15/2018 10:20:30 AM : File Successfully Encoded\r\n";
    assert_eq!(AdobeMediaEncoderLog::parse(text).entries.len(), 0);
}

#[test]
fn input_and_output_are_kept_apart() {
    let text = "\r\n - Input File: C:\\src\\a.mov\r\n - Output File: D:\\out\\a.mp4\r\n03/16/2018 09:00:00 AM : File Successfully Encoded";
    let log = AdobeMediaEncoderLog::parse(text);
    assert_eq!(log.entries.len(), 1);
    assert_eq!(log.entries[0].input_filename.as_deref(), Some("C:/src/a.mov"));
    assert_eq!(log.entries[0].output_filename.as_deref(), Some("D:/out/a.mp4"));
    assert_eq!(log.entries[0].preset, None);
    assert_eq!(log.entries[0].date_time, 1521190800);
}

fn entry(t: i64) -> Entry {
    Entry { date_time: t, input_filename: None, output_filename: None, preset: None }
}

fn emitted_in_one_cycle(tailer: &mut Tailer, log: &AdobeMediaEncoderLog) -> Vec<i64> {
    let mut sent = Vec::new();
    while let Some(i) = tailer.next_record(log) {
        let t = log.entries[i].date_time;
        sent.push(t);
        tailer.record_sent(t);
    }
    sent
}

#[test]
fn replay_resumes_after_checkpoint() {
    let log = AdobeMediaEncoderLog { entries: vec![entry(100), entry(200), entry(300)] };
    let mut tailer = Tailer::new(Some(100));
    assert_eq!(emitted_in_one_cycle(&mut tailer, &log), vec![200, 300]);
    assert_eq!(tailer.checkpoint, Some(300));
}

#[test]
fn records_go_out_in_time_order_once() {
    let log = AdobeMediaEncoderLog { entries: vec![entry(300), entry(100), entry(200), entry(200)] };
    let mut tailer = Tailer::new(None);
    assert_eq!(emitted_in_one_cycle(&mut tailer, &log), vec![100, 200, 300]);
    assert_eq!(emitted_in_one_cycle(&mut tailer, &log), Vec::<i64>::new());
}

#[test]
fn checkpoint_never_moves_back() {
    let mut tailer = Tailer::new(Some(500));
    tailer.record_sent(400);
    assert_eq!(tailer.checkpoint, Some(500));
    tailer.record_sent(600);
    assert_eq!(tailer.checkpoint, Some(600));
    assert!(!tailer.should_emit(600));
    assert!(tailer.should_emit(601));
}

#[test]
fn failed_send_keeps_record_for_next_cycle() {
    let log = AdobeMediaEncoderLog { entries: vec![entry(10), entry(20)] };
    let mut tailer = Tailer::new(None);
    let first = tailer.next_record(&log).unwrap();
    tailer.record_sent(log.entries[first].date_time);
    // the send of the next record fails: the checkpoint stays
    let second = tailer.next_record(&log).unwrap();
    assert_eq!(log.entries[second].date_time, 20);
    assert_eq!(tailer.next_record(&log), Some(second));
}

#[test]
fn rewrite_swaps_mount_prefix() {
    let once = rewrite_path("H:/NTS2018 mp4s/a/b.mp4", "H:/NTS2018 mp4s/", "/tmp/");
    assert_eq!(once, "/tmp/a/b.mp4");
    assert_eq!(rewrite_path(&once, "H:/NTS2018 mp4s/", "/tmp/"), once);
    assert_eq!(rewrite_path("D:/other/c.mp4", "H:/NTS2018 mp4s/", "/tmp/"), "D:/other/c.mp4");
    assert_eq!(rewrite_path("xm", "m", "r"), "xr");
    assert_eq!(rewrite_path("m/a/m/b", "m", "root"), "root/a/root/b");
    assert_eq!(rewrite_path("aaa", "aa", "b"), "ba");
    assert_eq!(rewrite_path("abc", "", "zz"), "abc");
}

fn text_field<'a>(d: &'a Doc, key: &str) -> Option<&'a str> {
    match d.get(key) {
        Some(Doc::Str(s)) => Some(s.as_str()),
        _ => None,
    }
}

#[test]
fn outbound_record_payload() {
    let e = Entry {
        date_time: 1521294310,
        input_filename: Some("C:/src/x.mov".to_string()),
        output_filename: Some("H:/NTS2018 mp4s/x.mp4".to_string()),
        preset: Some("Match Source".to_string()),
    };
    let d = outbound_record(&e, "H:/NTS2018 mp4s/", "/tmp/");
    assert_eq!(text_field(&d, "date_time"), Some("2018-03-17T13:45:10"));
    assert_eq!(text_field(&d, "output_filename"), Some("/tmp/x.mp4"));
    assert_eq!(text_field(&d, "preset"), Some("Match Source"));
    assert!(d.get("input_filename").is_none());
}

#[test]
fn outbound_record_without_paths() {
    let d = outbound_record(&entry(0), "m", "r");
    assert_eq!(text_field(&d, "date_time"), Some("1970-01-01T00:00:00"));
    match d {
        Doc::Object(fields) => assert_eq!(fields.len(), 1),
        _ => panic!("not an object"),
    }
}

#[test]
fn text_helpers() {
    assert_eq!(split_on_str("a\r\nb\r\n", "\r\n"), vec!["a", "b", ""]);
    assert_eq!(split_on_str("", "\r\n"), vec![""]);
    assert_eq!(split_on_str("a\rb", "\r\n"), vec!["a\rb"]);
    assert!(starts_with(" - Preset Used: x", " - Preset Used: "));
    assert!(!starts_with("ab", "abc"));
    assert!(ends_with("x : File Successfully Encoded", " : File Successfully Encoded"));
    assert!(str_eq("héllo", "héllo"));
    assert!(!str_eq("hello", "hellO"));
    assert_eq!(to_forward_slashes("C:\\a\\b"), "C:/a/b");
}

#[test]
fn malformed_completion_lines_are_listed() {
    let text = two_records_with_malformed_line();
    assert_eq!(malformed_completion_lines(&text), vec![7]);
    assert_eq!(malformed_completion_lines(""), Vec::<usize>::new());
    assert_eq!(malformed_completion_lines(&block("a.mp4", "p", "03/15/2018 10:20:30 AM")), Vec::<usize>::new());
}

#[test]
fn block_reading_on_given_lines() {
    let lines: Vec<String> = vec!["", " - Input File: C:\\in\\a.mov", " - Output File: D:\\o\\a.mp4", " - Preset Used: P", "done"]
        .into_iter()
        .map(String::from)
        .collect();
    let e = read_block(&lines, 4, 77).unwrap();
    assert_eq!(e.date_time, 77);
    assert_eq!(e.input_filename.as_deref(), Some("C:/in/a.mov"));
    assert_eq!(e.output_filename.as_deref(), Some("D:/o/a.mp4"));
    assert_eq!(e.preset.as_deref(), Some("P"));
    assert!(read_block(&lines[1..].to_vec(), 3, 77).is_none());
    assert!(read_block(&lines, 0, 1).is_none());
}

#[test]
fn empty_bytes_give_no_entries() {
    assert_eq!(AdobeMediaEncoderLog::open(&[0x41]).unwrap().entries.len(), 0);
}

#[test]
fn log_text_decoding() {
    assert_eq!(decode_log_text(&[0x41, 0x00, 0x42, 0x00]).as_deref(), Some("AB"));
    assert_eq!(decode_log_text(&[]).as_deref(), Some(""));
    assert!(decode_log_text(&[0x00, 0xd8]).is_none());
}
