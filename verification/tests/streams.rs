//! Standard-stream behaviour: the non-blocking read discipline, the
//! key-press poll, and directory iteration.

use neotron_sdk::Error;
use neotron_sdk::Flags;
use neotron_sdk::RamHost;
use neotron_sdk::ReadDir;
use neotron_sdk::WaitForKey;

fn p(s: &str) -> neotron_sdk::Path<'_> {
    neotron_sdk::Path::new(s).unwrap()
}

#[test]
fn read_with_no_data_returns_zero_without_error() {
    let mut host = RamHost::new();
    let inp = neotron_sdk::stdin();
    let mut buffer = vec![0u8; 8];
    assert_eq!(inp.read(&mut host, &mut buffer).unwrap(), 0);
    assert_eq!(buffer, vec![0u8; 8]);
}

#[test]
fn read_returns_data_once_it_exists() {
    let mut host = RamHost::new();
    let inp = neotron_sdk::stdin();
    let mut buffer = vec![0u8; 8];
    assert_eq!(inp.read(&mut host, &mut buffer).unwrap(), 0);
    host.queue_input(b"hi");
    let count = inp.read(&mut host, &mut buffer).unwrap();
    assert_eq!(count, 2);
    assert_eq!(&buffer[0..2], b"hi");
    assert_eq!(inp.read(&mut host, &mut buffer).unwrap(), 0);
}

#[test]
fn short_buffer_drains_the_queue_in_pieces() {
    let mut host = RamHost::new();
    let inp = neotron_sdk::stdin();
    host.queue_input(b"abc");
    let mut buffer = vec![0u8; 2];
    assert_eq!(inp.read(&mut host, &mut buffer).unwrap(), 2);
    assert_eq!(&buffer[..], b"ab");
    assert_eq!(inp.read(&mut host, &mut buffer).unwrap(), 1);
    assert_eq!(buffer[0], b'c');
}

#[test]
fn writes_to_standard_streams_are_captured() {
    let mut host = RamHost::new();
    let out = neotron_sdk::stdout();
    let err = neotron_sdk::stderr();
    out.write(&mut host, b"to out").unwrap();
    err.write_str(&mut host, "to err").unwrap();
    assert_eq!(host.stdout_data, b"to out".to_vec());
    assert_eq!(host.stderr_data, b"to err".to_vec());
}

#[test]
fn reading_from_standard_output_is_bad_handle() {
    let mut host = RamHost::new();
    let out = neotron_sdk::stdout();
    let mut buffer = vec![0u8; 4];
    assert_eq!(out.read(&mut host, &mut buffer), Err(Error::BadHandle));
}

#[test]
fn key_poll_with_no_input_decides_nothing() {
    let mut host = RamHost::new();
    let decision = neotron_sdk::wait_for_key_step(&mut host, 0);
    assert_eq!(decision, None);
    let shown = String::from_utf8(host.stdout_data.clone()).unwrap();
    assert_eq!(shown, "\rPress Space for more, 'q' to quit... |");
}

#[test]
fn key_poll_cycles_the_spinner() {
    let mut host = RamHost::new();
    neotron_sdk::wait_for_key_step(&mut host, 1);
    let shown = String::from_utf8(host.stdout_data.clone()).unwrap();
    assert!(shown.ends_with('/'));
    host.stdout_data.clear();
    neotron_sdk::wait_for_key_step(&mut host, 2);
    assert_eq!(*host.stdout_data.last().unwrap(), b'-');
    host.stdout_data.clear();
    neotron_sdk::wait_for_key_step(&mut host, 3);
    assert_eq!(*host.stdout_data.last().unwrap(), b'\\');
}

#[test]
fn space_asks_for_more() {
    let mut host = RamHost::new();
    host.queue_input(b" ");
    assert_eq!(
        neotron_sdk::wait_for_key_step(&mut host, 0),
        Some(WaitForKey::More)
    );
}

#[test]
fn either_case_of_q_asks_to_quit() {
    let mut host = RamHost::new();
    host.queue_input(b"q");
    assert_eq!(
        neotron_sdk::wait_for_key_step(&mut host, 0),
        Some(WaitForKey::Quit)
    );
    host.queue_input(b"Q");
    assert_eq!(
        neotron_sdk::wait_for_key_step(&mut host, 1),
        Some(WaitForKey::Quit)
    );
}

#[test]
fn other_keys_decide_nothing() {
    let mut host = RamHost::new();
    host.queue_input(b"x");
    assert_eq!(neotron_sdk::wait_for_key_step(&mut host, 0), None);
    assert_eq!(neotron_sdk::classify_key(b'z'), None);
    assert_eq!(neotron_sdk::classify_key(b' '), Some(WaitForKey::More));
}

#[test]
fn clearing_the_prompt_wipes_the_line() {
    let mut host = RamHost::new();
    neotron_sdk::wait_for_key_clear(&mut host);
    let shown = String::from_utf8(host.stdout_data.clone()).unwrap();
    assert!(shown.starts_with('\r'));
    assert!(shown.ends_with('\r'));
    assert!(shown[1..shown.len() - 1].chars().all(|c| c == ' '));
}

#[test]
fn directory_iteration_visits_every_file_then_ends() {
    let mut host = RamHost::new();
    host.add_file("ONE.TXT", b"1");
    host.add_file("TWO.TXT", b"22");
    let dir = ReadDir::open(&mut host, p("HD0:/")).unwrap();
    let first = dir.next_entry(&mut host).unwrap().unwrap();
    assert_eq!(first.name, b"ONE.TXT".to_vec());
    assert_eq!(first.properties.file_size, 1);
    let second = dir.next_entry(&mut host).unwrap().unwrap();
    assert_eq!(second.name, b"TWO.TXT".to_vec());
    assert_eq!(second.properties.file_size, 2);
    assert_eq!(dir.next_entry(&mut host).unwrap(), None);
    assert_eq!(dir.next_entry(&mut host).unwrap(), None);
    dir.close(&mut host).unwrap();
}

#[test]
fn directory_end_is_not_an_error() {
    let mut host = RamHost::new();
    let dir = ReadDir::open(&mut host, p("HD0:/")).unwrap();
    let outcome = dir.next_entry(&mut host);
    assert_eq!(outcome, Ok(None));
    dir.release(&mut host);
    let stale = dir_handle_copy(&mut host);
    assert_eq!(stale, Err(Error::BadHandle));
}

fn dir_handle_copy(host: &mut RamHost) -> Result<Option<neotron_sdk::Entry>, Error> {
    let dir = ReadDir {
        handle: neotron_sdk::DirHandle::new(3),
    };
    dir.next_entry(host)
}

#[test]
fn deleted_files_are_skipped_by_iteration() {
    let mut host = RamHost::new();
    host.add_file("KEEP.TXT", b"k");
    host.add_file("DROP.TXT", b"d");
    neotron_sdk::delete(&mut host, p("DROP.TXT")).unwrap();
    let dir = ReadDir::open(&mut host, p("HD0:/")).unwrap();
    let only = dir.next_entry(&mut host).unwrap().unwrap();
    assert_eq!(only.name, b"KEEP.TXT".to_vec());
    assert_eq!(dir.next_entry(&mut host).unwrap(), None);
    dir.close(&mut host).unwrap();
}

#[test]
fn create_can_reuse_a_deleted_name() {
    let mut host = RamHost::new();
    host.add_file("R.TXT", b"first");
    neotron_sdk::delete(&mut host, p("R.TXT")).unwrap();
    let f = neotron_sdk::File::open(&mut host, p("R.TXT"),
        Flags::write().union(Flags::create()),
    )
    .unwrap();
    assert_eq!(f.stat(&mut host).unwrap().file_size, 0);
    f.release(&mut host);
}
