use runde::logs::{
    export_step, log_archive_name, log_archive_name_now, ExportAction, ExportEvent, LogEntry,
};
use runde::pump::{pump_step, PumpAction, PumpEvent, BUF};

fn pump(source: &[&[u8]]) -> Vec<u8> {
    let mut chunks = source.iter();
    let mut buffer: Vec<u8> = vec![0; BUF];
    let mut sink = Vec::new();
    let mut action = PumpAction::Read;
    loop {
        action = match action {
            PumpAction::Read => match chunks.next() {
                Some(chunk) => {
                    buffer[..chunk.len()].copy_from_slice(chunk);
                    pump_step(PumpEvent::DidRead(chunk.len()))
                }
                None => pump_step(PumpEvent::DidRead(0)),
            },
            PumpAction::Write(n) => {
                sink.extend_from_slice(&buffer[..n]);
                pump_step(PumpEvent::DidWrite)
            }
            PumpAction::Flush => pump_step(PumpEvent::DidFlush),
            PumpAction::Done => return sink,
            PumpAction::Fail => panic!("nothing failed"),
        };
    }
}

#[test]
fn everything_arrives() {
    assert_eq!(pump(&[]), b"");
    assert_eq!(pump(&[b"hello", b" ", b"world"]), b"hello world");
    let long = vec![7u8; BUF];
    assert_eq!(pump(&[&long, b"x"]).len(), BUF + 1);
}

#[test]
fn the_pump_fails_with_what_it_asked_for() {
    assert_eq!(pump_step(PumpEvent::Failed), PumpAction::Fail);
    assert_eq!(pump_step(PumpEvent::DidRead(3)), PumpAction::Write(3));
    assert_eq!(pump_step(PumpEvent::DidRead(0)), PumpAction::Flush);
    assert_eq!(BUF, 65536);
}

fn entry(name: &str, is_file: bool) -> LogEntry {
    LogEntry { name: name.to_string(), is_file }
}

#[test]
fn the_archive_holds_the_files() {
    let mut entries =
        vec![entry("b.log", true), entry("old", false), entry("a.log", true)].into_iter();
    let mut current = String::new();
    let mut archive: Vec<String> = Vec::new();
    let mut action = ExportAction::NextEntry;
    loop {
        action = match action {
            ExportAction::NextEntry => match entries.next() {
                Some(entry) => {
                    current = entry.name.clone();
                    export_step(&ExportEvent::Entry(entry))
                }
                None => export_step(&ExportEvent::NoMoreEntries),
            },
            ExportAction::AddFile => {
                archive.push(current.clone());
                export_step(&ExportEvent::FileAdded)
            }
            ExportAction::Finish => export_step(&ExportEvent::Finished),
            ExportAction::Done => break,
            ExportAction::Fail => panic!("nothing failed"),
        };
    }
    assert_eq!(archive, vec!["b.log", "a.log"]);
    assert_eq!(export_step(&ExportEvent::Failed), ExportAction::Fail);
}

#[test]
fn archives_are_named_by_their_time() {
    assert_eq!(log_archive_name("20260102-030405"), "runde-logs-20260102-030405.zip");
    let name = log_archive_name_now();
    assert!(name.starts_with("runde-logs-20"));
    assert!(name.ends_with(".zip"));
    assert!(!name.contains('/') && !name.contains('\\'));
    let stamp = &name["runde-logs-".len()..name.len() - ".zip".len()];
    assert_eq!(stamp.len(), 15);
    for (i, c) in stamp.chars().enumerate() {
        assert!(if i == 8 { c == '-' } else { c.is_ascii_digit() });
    }
    let two = |i: usize| stamp[i..i + 2].parse::<u32>().unwrap();
    assert!((1..=12).contains(&two(4)) && (1..=31).contains(&two(6)));
    assert!(two(9) <= 23 && two(11) <= 59 && two(13) <= 60);
}

#[test]
fn a_failed_read_ends_the_pump_behind_what_was_written() {
    let mut sink = b"before".to_vec();
    assert_eq!(pump_step(PumpEvent::DidRead(3)), PumpAction::Write(3));
    sink.extend_from_slice(b"abc");
    assert_eq!(pump_step(PumpEvent::DidWrite), PumpAction::Read);
    assert_eq!(pump_step(PumpEvent::Failed), PumpAction::Fail);
    assert_eq!(sink, b"beforeabc");
}
