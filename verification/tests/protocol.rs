use shardlite::net::protocol::{frame_length, read_message, write_message, MAX_FRAME_BYTES};

#[test]
fn an_oversized_length_prefix_is_refused_before_allocating() {
    let mut framed = Vec::new();
    framed.extend_from_slice(&u32::MAX.to_be_bytes());
    let err = read_message(&framed).unwrap_err().to_text();
    assert!(err.contains("over the"), "expected a limit error, got: {err}");
}

#[test]
fn a_truncated_message_is_an_error_not_a_hang() {
    // The request for a node's info has no fields: its encoding is the number of its kind.
    let info = bincode::serde::encode_to_vec(8u32, bincode::config::standard()).unwrap();
    let mut buf = write_message(&info).unwrap();
    buf.truncate(buf.len() - 1);
    assert!(read_message(&buf).is_err());
}

#[test]
fn a_message_is_read_back_whatever_follows_it() {
    let body = vec![1, 2, 3, 255];
    let mut framed = write_message(&body).unwrap();
    assert_eq!(framed, vec![0, 0, 0, 4, 1, 2, 3, 255]);
    framed.extend_from_slice(&[9, 9]);
    assert_eq!(read_message(&framed).unwrap(), body);
    let empty = write_message(&Vec::new()).unwrap();
    assert_eq!(read_message(&empty).unwrap(), Vec::<u8>::new());
}

#[test]
fn every_cut_of_a_message_is_an_error() {
    let framed = write_message(&vec![7; 20]).unwrap();
    for n in 0..framed.len() {
        assert!(read_message(&framed[..n].to_vec()).is_err(), "{n}");
    }
}

#[test]
fn the_limit_is_inclusive() {
    assert_eq!(frame_length((MAX_FRAME_BYTES as u32).to_be_bytes()).unwrap(), MAX_FRAME_BYTES);
    let over = frame_length((MAX_FRAME_BYTES as u32 + 1).to_be_bytes()).unwrap_err();
    assert_eq!(
        over.to_text(),
        "peer announced a 16777217 byte message, over the 16777216 byte limit"
    );
    let long = write_message(&vec![0; MAX_FRAME_BYTES + 1]).unwrap_err();
    assert_eq!(long.to_text(), "message of 16777217 bytes exceeds the 16777216 byte limit");
}
