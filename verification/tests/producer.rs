use shared_storage::entry::PathComponent;
use shared_storage::import::ImportEvent;
use shared_storage::util::{is_executable, FSImportStream, StreamStep};

fn path(text: &str) -> Vec<PathComponent> {
    text.split('/').map(|n| PathComponent::Normal(n.as_bytes().to_vec())).collect()
}

fn text(p: &[PathComponent]) -> String {
    let names: Vec<String> = p
        .iter()
        .map(|c| match c {
            PathComponent::Normal(n) => String::from_utf8(n.clone()).unwrap(),
            other => panic!("{:?}", other),
        })
        .collect();
    names.join("/")
}

fn generate_testdir() -> FSImportStream {
    let mut stream = FSImportStream::new(b"/tmp/testing".to_vec());
    stream.push_dir(path("bin"));
    stream.push_file(path("bin"), b"program".to_vec(), 23, true);
    stream.push_file(path("bin"), b"program2".to_vec(), 29, true);
    stream.push_dir(path("lib"));
    stream.push_dir(path("share"));
    stream.push_dir(path("share/doc"));
    stream.push_file(path("share/doc"), b"README".to_vec(), 24, false);
    stream.push_file(Vec::new(), b"README".to_vec(), 24, false);
    stream
}

fn read(file: &[u8]) -> Result<Vec<u8>, String> {
    match file {
        b"/tmp/testing/README" | b"/tmp/testing/share/doc/README" => {
            Ok(b"This is the README file\n".to_vec())
        }
        b"/tmp/testing/bin/program" => Ok(b"This is a program file\n".to_vec()),
        b"/tmp/testing/bin/program2" => Ok(b"This is another program file\n".to_vec()),
        other => Err(format!("no such file: {:?}", other)),
    }
}

fn next(stream: &mut FSImportStream) -> Option<ImportEvent> {
    match stream.next_event() {
        StreamStep::End => None,
        StreamStep::Event(event) => Some(event),
        StreamStep::Read(file) => Some(stream.supply(read(&file))),
    }
}

#[test]
fn check_import_stream() {
    let mut fstream = generate_testdir();
    let mut dirs = Vec::new();
    let mut files = Vec::new();
    let mut expecting_data = false;
    while let Some(event) = next(&mut fstream) {
        match event {
            ImportEvent::Error(e) => panic!("{:?}", e),
            ImportEvent::Directory(d) => {
                if expecting_data {
                    panic!("Got directory {:?} when expecting file data", d);
                }
                dirs.push(text(&d));
            }
            ImportEvent::File(pd, fname, size, exec) => {
                if expecting_data {
                    panic!("Got file entry when expecting file data!");
                }
                files.push((pd, fname, size, exec, None));
                expecting_data = true;
            }
            ImportEvent::FileData(d) => {
                if !expecting_data {
                    panic!("Got unexpected file data");
                }
                let lastidx = files.len() - 1;
                files[lastidx].4 = Some(d);
                expecting_data = false;
            }
        }
    }
    assert!(dirs.contains(&String::from("bin")));
    assert!(dirs.contains(&String::from("lib")));
    assert!(dirs.contains(&String::from("share")));
    assert!(dirs.contains(&String::from("share/doc")));
    for f in &files {
        assert!(f.4.is_some());
    }
    assert_eq!(files.len(), 4);
    assert!(files[3].0.is_none());
    assert_eq!(text(files[2].0.as_ref().unwrap()), "share/doc");
    assert_eq!(files[1].1, b"program2".to_vec());
    assert_eq!(files[1].2, 29);
    assert!(files[1].3 && !files[2].3);
    assert_eq!(files[1].4, Some(b"This is another program file\n".to_vec()));
    assert!(matches!(fstream.next_event(), StreamStep::End));
}

#[test]
fn empty_scan_yields_nothing() {
    let mut stream = FSImportStream::new(b"/nowhere".to_vec());
    assert!(matches!(stream.next_event(), StreamStep::End));
    assert!(matches!(stream.next_event(), StreamStep::End));
}

#[test]
fn failed_read_ends_the_stream_with_an_error() {
    let mut stream = FSImportStream::new(b"/tmp/testing".to_vec());
    stream.push_file(Vec::new(), b"missing".to_vec(), 3, false);
    stream.push_dir(path("after"));
    assert!(matches!(next(&mut stream), Some(ImportEvent::File(None, _, 3, false))));
    match stream.next_event() {
        StreamStep::Read(file) => assert_eq!(file, b"/tmp/testing/missing".to_vec()),
        other => panic!("{:?}", other),
    }
    match stream.next_event() {
        StreamStep::Read(file) => assert_eq!(file, b"/tmp/testing/missing".to_vec()),
        other => panic!("{:?}", other),
    }
    match stream.supply(Err(String::from("gone"))) {
        ImportEvent::Error(cause) => assert_eq!(cause, "gone"),
        other => panic!("{:?}", other),
    }
    assert!(matches!(stream.next_event(), StreamStep::End));
}

#[test]
fn executable_is_any_execute_bit() {
    assert!(is_executable(0o755));
    assert!(is_executable(0o100));
    assert!(is_executable(0o010));
    assert!(is_executable(0o001));
    assert!(!is_executable(0o644));
    assert!(!is_executable(0o666));
    assert!(!is_executable(0));
}
