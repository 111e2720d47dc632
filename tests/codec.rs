use paenkodb::codec::{decode_collection, encode_collection};
use paenkodb::document::Document;
use paenkodb::message::Message;

#[test]
fn document_bytes_are_exact() {
    let document = Document { id: 1, payload: vec![9u8, 8], version: 3 };
    let mut expected = vec![1u8];
    expected.extend_from_slice(&[0u8; 15]);
    expected.extend_from_slice(&[2u8, 0, 0, 0, 0, 0, 0, 0, 9, 8]);
    expected.extend_from_slice(&[3u8, 0, 0, 0, 0, 0, 0, 0]);
    assert_eq!(document.encode(), expected);
    assert_eq!(Document::decode(&expected), Some(document));
}

#[test]
fn document_decode_refuses_leftover_and_short_bytes() {
    let document = Document { id: 77, payload: vec![1u8, 2, 3], version: 0 };
    let mut bytes = document.encode();
    assert_eq!(Document::decode(&bytes[..bytes.len() - 1]), None);
    bytes.push(0);
    assert_eq!(Document::decode(&bytes), None);
    assert_eq!(Document::decode(&[]), None);
}

#[test]
fn message_round_trips() {
    let document = Document::new(vec![5u8, 6, 7]);
    let messages = vec![
        Message::Get(document.id),
        Message::Post(document.clone()),
        Message::Remove(document.id),
        Message::Put(document.id, vec![1u8, 2]),
    ];
    for (tag, message) in messages.iter().enumerate() {
        let bytes = message.encode();
        assert_eq!(bytes[0] as usize, tag);
        let back = Message::decode(&bytes).unwrap();
        assert_eq!(back.encode(), bytes);
    }
}

#[test]
fn get_message_bytes_are_exact() {
    let bytes = Message::Get(0x0201).encode();
    let mut expected = vec![0u8, 1, 2];
    expected.extend_from_slice(&[0u8; 14]);
    assert_eq!(bytes, expected);
}

#[test]
fn message_decode_refuses_unknown_tag() {
    let mut bytes = Message::Get(3).encode();
    bytes[0] = 4;
    assert!(Message::decode(&bytes).is_none());
    assert!(Message::decode(&[]).is_none());
}

#[test]
fn collection_round_trip() {
    let docs = vec![
        Document { id: 1, payload: vec![1u8], version: 0 },
        Document { id: 2, payload: vec![], version: 5 },
    ];
    let bytes = encode_collection(&docs);
    assert_eq!(&bytes[..8], &[2u8, 0, 0, 0, 0, 0, 0, 0]);
    assert_eq!(decode_collection(&bytes), Some(docs));
    assert_eq!(decode_collection(&bytes[..bytes.len() - 2]), None);
}
