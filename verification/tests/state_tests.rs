use moves::errors::DaemonError;
use moves::state::encode_state;
use moves::state::parse_state;
use moves::state::State;
use moves::state::StateStore;

#[test]
fn test_missing_file_reads_as_not_paused() {
    let store = StateStore::new(None);
    let state = store.load().unwrap();
    assert!(!state.paused);
}

#[test]
fn test_save_then_load_round_trips() {
    let mut store = StateStore::new(None);
    store.save(State { paused: true });
    assert!(store.load().unwrap().paused);
    store.save(State { paused: false });
    assert!(!store.load().unwrap().paused);
}

#[test]
fn test_encoding_is_the_expected_record() {
    assert_eq!(
        encode_state(State { paused: true }),
        b"{\n  \"paused\": true\n}".to_vec()
    );
    assert_eq!(
        encode_state(State { paused: false }),
        b"{\n  \"paused\": false\n}".to_vec()
    );
}

#[test]
fn test_parse_accepts_whitespace_variations() {
    assert_eq!(parse_state(&b"{\"paused\":true}".to_vec()), Some(true));
    assert_eq!(parse_state(&b"{ \"paused\" : false }".to_vec()), Some(false));
    assert_eq!(
        parse_state(&b"  {\n\t\"paused\"\r\n:\ntrue\n}  ".to_vec()),
        Some(true)
    );
}

#[test]
fn test_parse_rejects_corrupt_records() {
    assert_eq!(parse_state(&b"".to_vec()), None);
    assert_eq!(parse_state(&b"garbage".to_vec()), None);
    assert_eq!(parse_state(&b"{}".to_vec()), None);
    assert_eq!(parse_state(&b"{\"paused\":tru}".to_vec()), None);
    assert_eq!(parse_state(&b"{\"paused\":true".to_vec()), None);
    assert_eq!(parse_state(&b"{\"paused\":true}x".to_vec()), None);
    assert_eq!(parse_state(&b"{\"pau sed\":true}".to_vec()), None);
    assert_eq!(parse_state(&b"{\"paused\":maybe}".to_vec()), None);
}

#[test]
fn test_corrupt_contents_surface_as_corrupt_state() {
    let store = StateStore::new(Some(b"not a record".to_vec()));
    assert_eq!(store.load(), Err(DaemonError::CorruptState));
}

#[test]
fn test_state_new_is_not_paused() {
    assert!(!State::new().paused);
}
