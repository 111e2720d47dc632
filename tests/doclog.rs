use paenkodb::doclog::{DocLog, Error};

fn lid() -> u128 {
    uuid::Uuid::parse_str("3d30aa56-98b2-4891-aec5-847cee6e1703").unwrap().as_u128()
}

#[test]
fn test_current_term() {
    let mut store = DocLog::new("/tmp", lid());
    assert_eq!(0, store.current_term());
    store.set_voted_for(Some(0));
    store.set_current_term(42);
    assert_eq!(None, store.voted_for());
    assert_eq!(42, store.current_term());
    store.inc_current_term();
    assert_eq!(43, store.current_term());
}

#[test]
fn test_voted_for() {
    let mut store = DocLog::new("/tmp", lid());
    assert_eq!(None, store.voted_for());
    let id = 0u64;
    store.set_voted_for(Some(id));
    assert_eq!(Some(id), store.voted_for());
}

#[test]
fn test_append_entries() {
    let mut store = DocLog::new("/tmp", lid());
    assert_eq!(0, store.latest_log_index());
    assert_eq!(0, store.latest_log_term());

    // [0.1, 0.2, 0.3, 1.4]
    store.append_entries(1, &[(0, &[1]), (0, &[2]), (0, &[3]), (1, &[4])]);
    assert_eq!(4, store.latest_log_index());
    assert_eq!(1, store.latest_log_term());
    assert_eq!((0, &*vec![1u8]), store.entry(1).unwrap());
    assert_eq!((0, &*vec![2u8]), store.entry(2).unwrap());
    assert_eq!((0, &*vec![3u8]), store.entry(3).unwrap());
    assert_eq!((1, &*vec![4u8]), store.entry(4).unwrap());

    // [0.1, 0.2, 0.3]
    store.append_entries(4, &[]);
    assert_eq!(3, store.latest_log_index());
    assert_eq!(0, store.latest_log_term());
    assert_eq!((0, &*vec![1u8]), store.entry(1).unwrap());
    assert_eq!((0, &*vec![2u8]), store.entry(2).unwrap());
    assert_eq!((0, &*vec![3u8]), store.entry(3).unwrap());

    // [0.1, 0.2, 2.3, 3.4]
    store.append_entries(3, &[(2, &[3]), (3, &[4])]);
    assert_eq!(4, store.latest_log_index());
    assert_eq!(3, store.latest_log_term());
    assert_eq!((0, &*vec![1u8]), store.entry(1).unwrap());
    assert_eq!((0, &*vec![2u8]), store.entry(2).unwrap());
    assert_eq!((2, &*vec![3u8]), store.entry(3).unwrap());
    assert_eq!((3, &*vec![4u8]), store.entry(4).unwrap());
}

#[test]
fn set_current_term_clears_the_vote() {
    let mut store = DocLog::new("/tmp", lid());
    store.set_voted_for(Some(7));
    store.set_current_term(3);
    assert_eq!(store.voted_for(), None);
    store.set_voted_for(Some(8));
    assert_eq!(store.inc_current_term(), 4);
    assert_eq!(store.current_term(), 4);
    assert_eq!(store.voted_for(), None);
}

#[test]
fn append_nothing_truncates() {
    let mut store = DocLog::new("/tmp", lid());
    store.append_entries(1, &[(1, &[1]), (1, &[2]), (2, &[3])]);
    store.append_entries(2, &[]);
    assert_eq!(store.latest_log_index(), 1);
    assert_eq!(store.entry(1), Ok((1, &[1u8][..])));
    store.append_entries(1, &[]);
    assert_eq!(store.latest_log_index(), 0);
    assert_eq!(store.latest_log_term(), 0);
}

#[test]
fn entry_out_of_range() {
    let mut store = DocLog::new("/tmp", lid());
    assert_eq!(store.entry(1), Err(Error::IndexOutOfRange));
    store.append_entries(1, &[(5, &[1, 2])]);
    assert_eq!(store.entry(0), Err(Error::IndexOutOfRange));
    assert_eq!(store.entry(2), Err(Error::IndexOutOfRange));
    assert_eq!(store.entry(1), Ok((5, &[1u8, 2][..])));
}

#[test]
fn truncate_keeps_entries_before_index() {
    let mut store = DocLog::new("/tmp", lid());
    store.append_entries(1, &[(1, &[1]), (1, &[2]), (2, &[3]), (2, &[4])]);
    store.truncate(9);
    assert_eq!(store.latest_log_index(), 4);
    store.truncate(3);
    assert_eq!(store.latest_log_index(), 2);
    assert_eq!(store.latest_log_term(), 1);
    store.truncate(0);
    assert_eq!(store.latest_log_index(), 0);
}

#[test]
fn rollback_copies_entries_from_index() {
    let mut store = DocLog::new("/tmp", lid());
    store.append_entries(1, &[(1, &[1]), (1, &[2]), (2, &[3])]);
    assert_eq!(store.rollback(2), vec![(1u64, vec![2u8]), (2u64, vec![3u8])]);
    assert_eq!(store.rollback(1).len(), 3);
    assert_eq!(store.rollback(0).len(), 3);
    assert_eq!(store.rollback(4), Vec::<(u64, Vec<u8>)>::new());
    assert_eq!(store.rollback(9), Vec::<(u64, Vec<u8>)>::new());
    assert_eq!(store.latest_log_index(), 3);
}

#[test]
fn volume_and_file_path() {
    let store = DocLog::new("/data/logs", lid());
    assert_eq!(store.get_volume(), "/data/logs");
    assert_eq!(
        store.file_path("term"),
        "/data/logs/3d30aa56-98b2-4891-aec5-847cee6e1703_term"
    );
}

#[test]
fn term_bytes_round_trip() {
    let mut store = DocLog::new("/tmp", lid());
    store.set_current_term(0x0102);
    let bytes = store.encode_term();
    assert_eq!(bytes, vec![2u8, 1, 0, 0, 0, 0, 0, 0]);
    let mut other = DocLog::new("/tmp", lid());
    assert_eq!(other.restore_term(&bytes), Ok(()));
    assert_eq!(other.current_term(), 0x0102);
    assert_eq!(other.restore_term(&[1u8, 2]), Err(Error::Corrupt));
    assert_eq!(other.current_term(), 0x0102);
}

#[test]
fn vote_bytes_round_trip() {
    let mut store = DocLog::new("/tmp", lid());
    assert_eq!(store.encode_vote(), vec![0u8]);
    store.set_voted_for(Some(3));
    let bytes = store.encode_vote();
    assert_eq!(bytes, vec![1u8, 3, 0, 0, 0, 0, 0, 0, 0]);
    let mut other = DocLog::new("/tmp", lid());
    assert_eq!(other.restore_vote(&bytes), Ok(()));
    assert_eq!(other.voted_for(), Some(3));
    assert_eq!(other.restore_vote(&[0u8]), Ok(()));
    assert_eq!(other.voted_for(), None);
    assert_eq!(other.restore_vote(&[2u8]), Err(Error::Corrupt));
}

#[test]
fn entries_bytes_round_trip() {
    let mut store = DocLog::new("/tmp", lid());
    store.append_entries(1, &[(1, &[7, 8]), (4, &[])]);
    let bytes = store.snapshot();
    assert_eq!(
        bytes,
        vec![
            2u8, 0, 0, 0, 0, 0, 0, 0, 1, 0, 0, 0, 0, 0, 0, 0, 2, 0, 0, 0, 0, 0, 0, 0, 7, 8, 4, 0,
            0, 0, 0, 0, 0, 0, 0, 0, 0, 0, 0, 0, 0, 0,
        ]
    );
    let mut other = DocLog::new("/tmp", lid());
    assert_eq!(other.restore_snapshot(&bytes), Ok(()));
    assert_eq!(other.rollback(1), store.rollback(1));
    assert_eq!(other.restore_snapshot(&bytes[..bytes.len() - 1]), Err(Error::Corrupt));
    assert_eq!(other.latest_log_index(), 2);
}
