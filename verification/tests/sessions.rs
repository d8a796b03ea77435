use voxelcore::coords::Coords;
use voxelcore::server::{Dispatch, ProtocolError, Server};
use voxelcore::worldgen::ColumnHeights;

fn flat_heights(basalt: i64, granite: i64) -> Vec<ColumnHeights> {
    vec![ColumnHeights { basalt, granite }; 1024]
}

fn done(r: Result<Dispatch, ProtocolError>) -> Vec<(u64, Vec<u8>)> {
    match r {
        Ok(Dispatch::Done(v)) => v,
        Ok(Dispatch::NeedChunk(_)) => panic!("expected frames, got a terrain request"),
        Err(_) => panic!("expected frames, got an error"),
    }
}

fn need(r: Result<Dispatch, ProtocolError>) -> Coords {
    match r {
        Ok(Dispatch::NeedChunk(c)) => c,
        _ => panic!("expected a terrain request"),
    }
}

fn inflate(data: &[u8]) -> Vec<u8> {
    let mut dec = flate2::read::DeflateDecoder::new(data);
    let mut out = Vec::new();
    std::io::Read::read_to_end(&mut dec, &mut out).unwrap();
    out
}

#[test]
fn version_handshake() {
    let mut s = Server::new(0, Vec::new());
    s.connect(1);
    let ok = s.process_message(1, b"V,2");
    assert!(matches!(ok, Ok(Dispatch::Done(ref v)) if v.is_empty()));
    let bad = s.process_message(1, b"V,1");
    assert!(matches!(bad, Err(ProtocolError::BadVersion)));
    let short = s.process_message(1, b"V");
    assert!(matches!(short, Err(ProtocolError::WrongFieldCount)));
}

#[test]
fn join_announcements() {
    let mut s = Server::new(0, Vec::new());
    let first = s.connect(1);
    assert_eq!(
        first,
        vec![
            (1u64, b"U,1,0,0,0,0,0".to_vec()),
            (1u64, b"E,0,600".to_vec()),
        ]
    );
    let frames = s.connect(2);
    assert_eq!(
        frames,
        vec![
            (1u64, b"N,2,person2".to_vec()),
            (1u64, b"T,person2 has joined".to_vec()),
            (1u64, b"P,2,0,0,0,0,0".to_vec()),
            (2u64, b"U,2,0,0,0,0,0".to_vec()),
            (2u64, b"E,0,600".to_vec()),
            (2u64, b"P,1,0,0,0,0,0".to_vec()),
            (2u64, b"N,1,person1".to_vec()),
        ]
    );
}

#[test]
fn join_time_sync_reports_day_seconds() {
    let mut s = Server::new(1200, Vec::new());
    let frames = s.connect(7);
    assert_eq!(
        frames,
        vec![
            (7u64, b"U,7,0,0,0,0,0".to_vec()),
            (7u64, b"E,60,600".to_vec()),
        ]
    );
}

#[test]
fn block_edit_broadcast_includes_editor() {
    let mut s = Server::new(0, Vec::new());
    s.connect(1);
    s.connect(2);
    let cc = need(s.process_message(1, b"B,10,5,10,3"));
    assert_eq!(cc, Coords(0, 0, 0));
    let h = flat_heights(0, 0);
    s.supply_chunk(cc, &h);
    let frames = done(s.process_message(1, b"B,10,5,10,3"));
    assert_eq!(
        frames,
        vec![
            (2u64, b"B,10,5,10,3".to_vec()),
            (1u64, b"B,10,5,10,3".to_vec()),
        ]
    );
    assert_eq!(s.world().get_block(Coords(10, 5, 10)).matter, 3);
}

#[test]
fn chat_echoes_to_sender_with_nickname() {
    let mut s = Server::new(0, Vec::new());
    s.connect(1);
    s.connect(2);
    done(s.process_message(1, b"T,/nick bob"));
    let frames = done(s.process_message(1, b"T,hi there"));
    assert_eq!(
        frames,
        vec![
            (2u64, b"T,[bob] hi there".to_vec()),
            (1u64, b"T,[bob] hi there".to_vec()),
        ]
    );
}

#[test]
fn nick_command_variants() {
    let mut s = Server::new(0, Vec::new());
    s.connect(1);
    s.connect(2);
    let rename = done(s.process_message(1, b"T,/nick Bob"));
    assert_eq!(
        rename,
        vec![
            (2u64, b"T,person1 is now Bob".to_vec()),
            (2u64, b"N,1,Bob".to_vec()),
            (1u64, b"T,person1 is now Bob".to_vec()),
            (1u64, b"N,1,Bob".to_vec()),
        ]
    );
    let query = done(s.process_message(1, b"T,/nick"));
    assert_eq!(query, vec![(1u64, b"T,You are Bob".to_vec())]);
    let unknown = done(s.process_message(1, b"T,/foo x y"));
    assert_eq!(
        unknown,
        vec![(1u64, b"T,Unknown command: /foo[2]".to_vec())]
    );
}

#[test]
fn position_update_broadcasts_to_others_only() {
    let mut s = Server::new(0, Vec::new());
    s.connect(1);
    s.connect(2);
    let frames = done(s.process_message(1, b"P,1.5,2,3,0.5,0.25"));
    assert_eq!(frames, vec![(2u64, b"P,1,1.5,2,3,0.5,0.25".to_vec())]);
    let bad = s.process_message(1, b"P,xx,2,3,0.5,0.25");
    assert!(matches!(bad, Err(ProtocolError::BadNumber)));
}

#[test]
fn disconnect_notifies_remaining_sessions() {
    let mut s = Server::new(0, Vec::new());
    s.connect(1);
    s.connect(2);
    let (frames, saved) = s.disconnect(2);
    assert_eq!(
        frames,
        vec![
            (1u64, b"D,2".to_vec()),
            (1u64, b"T,person2 has left".to_vec()),
        ]
    );
    assert_eq!(saved.len(), 0);
}

#[test]
fn chunk_request_skips_all_air() {
    let mut s = Server::new(0, Vec::new());
    s.connect(1);
    let cc = need(s.process_message(1, b"C,0,10,0,99"));
    assert_eq!(cc, Coords(0, 10, 0));
    let h = flat_heights(0, 0);
    s.supply_chunk(cc, &h);
    let reply = s.process_message(1, b"C,0,10,0,99");
    assert!(matches!(reply, Ok(Dispatch::Done(ref v)) if v.is_empty()));
}

#[test]
fn chunk_request_returns_raw_reply() {
    let mut s = Server::new(0, Vec::new());
    s.connect(1);
    let cc = need(s.process_message(1, b"C,0,0,0,7"));
    let h = flat_heights(0, 0);
    s.supply_chunk(cc, &h);
    let frames = done(s.process_message(1, b"C,0,0,0,7"));
    assert_eq!(frames.len(), 1);
    assert_eq!(frames[0].0, 1u64);
    let payload = &frames[0].1;
    assert_eq!(payload[0], b'C');
    assert_eq!(&payload[1..25], &[0u8; 24]);
    let raw = inflate(&payload[25..]);
    assert_eq!(raw.len(), 32768);
    assert!(raw.iter().all(|&b| b == 2));
}

#[test]
fn negative_chunk_request_coordinates() {
    let mut s = Server::new(0, Vec::new());
    s.connect(1);
    let cc = need(s.process_message(1, b"C,-1,0,-2,0"));
    assert_eq!(cc, Coords(-1, 0, -2));
    let h = flat_heights(0, 0);
    s.supply_chunk(cc, &h);
    let frames = done(s.process_message(1, b"C,-1,0,-2,0"));
    let payload = &frames[0].1;
    assert_eq!(payload[0], b'C');
    assert_eq!(&payload[1..9], &[0xff; 8]);
}

#[test]
fn malformed_messages_fail_only_with_errors() {
    let mut s = Server::new(0, Vec::new());
    s.connect(1);
    assert!(matches!(s.process_message(1, b"T"), Err(ProtocolError::Malformed)));
    assert!(matches!(
        s.process_message(1, b"B,1,2"),
        Err(ProtocolError::WrongFieldCount)
    ));
    assert!(matches!(
        s.process_message(1, b"C,a,b,c,d"),
        Err(ProtocolError::BadNumber)
    ));
    assert!(matches!(
        s.process_message(1, b"Z,1"),
        Err(ProtocolError::UnknownMessage)
    ));
    assert!(matches!(
        s.process_message(1, b"P,1,2,3,4"),
        Err(ProtocolError::WrongFieldCount)
    ));
}

#[test]
fn server_tick_saves_past_threshold() {
    let mut s = Server::new(0, Vec::new());
    let none = s.tick(600);
    assert!(none.is_none());
    let some = s.tick(601);
    assert!(some.is_some());
    assert_eq!(some.unwrap().len(), 0);
    assert_eq!(s.world().get_time(), 1201);
}

#[test]
fn day_counter_wraps_through_server_ticks() {
    let mut s = Server::new(0, Vec::new());
    s.tick(12000);
    assert_eq!(s.world().get_time(), 0);
}

#[test]
fn nick_with_extra_arguments_is_unknown() {
    let mut s = Server::new(0, Vec::new());
    s.connect(1);
    let frames = done(s.process_message(1, b"T,/nick a b"));
    assert_eq!(
        frames,
        vec![(1u64, b"T,Unknown command: /nick[2]".to_vec())]
    );
}

#[test]
fn out_of_range_coordinates_are_rejected() {
    let mut s = Server::new(0, Vec::new());
    s.connect(1);
    // larger than any supported world coordinate
    let far = s.process_message(1, b"B,1152921504606846977,0,0,1");
    assert!(matches!(far, Err(ProtocolError::BadNumber)));
    let overflow = s.process_message(1, b"B,99999999999999999999,0,0,1");
    assert!(matches!(overflow, Err(ProtocolError::BadNumber)));
    let bad_id = s.process_message(1, b"B,1,2,3,256");
    assert!(matches!(bad_id, Err(ProtocolError::BadNumber)));
}

#[test]
fn position_fields_follow_the_decimal_grammar() {
    let mut s = Server::new(0, Vec::new());
    s.connect(1);
    s.connect(2);
    let ok = done(s.process_message(1, b"P,-1.5,0,0,0,0"));
    assert_eq!(ok, vec![(2u64, b"P,1,-1.5,0,0,0,0".to_vec())]);
    // a bare trailing dot is not a well-formed field
    let bad = s.process_message(1, b"P,1.,0,0,0,0");
    assert!(matches!(bad, Err(ProtocolError::BadNumber)));
}
