use tftp_client::parser::{Error as ParseError, ErrorCode, Packet, RequestMode};
use tftp_client::transfer::{Action, Endpoint, Phase, Timing, Transfer};
use tftp_client::Error;

const LOCALHOST: u128 = 0xffff_7f00_0001;

fn server() -> Endpoint {
    Endpoint { ip: LOCALHOST, port: 69 }
}

fn peer(port: u16) -> Endpoint {
    Endpoint { ip: LOCALHOST, port }
}

fn timing() -> Timing {
    Timing { base_timeout_ns: 100_000_000, max_timeout_ns: 5_000_000_000, max_retries: 8 }
}

fn expect_send(t: &mut Transfer) -> (Packet, Endpoint) {
    match t.next_action() {
        Action::Send { bytes, to } => (Packet::from_bytes(&bytes).unwrap(), to),
        other => panic!("expected a send, got {:?}", other),
    }
}

fn expect_receive(t: &mut Transfer) -> u64 {
    match t.next_action() {
        Action::Receive { timeout_ns } => timeout_ns,
        other => panic!("expected a receive, got {:?}", other),
    }
}

fn expect_finished(t: &mut Transfer) {
    assert!(matches!(t.next_action(), Action::Finished));
}

fn reply(t: &mut Transfer, from: Endpoint, p: Packet) -> Result<(), Error> {
    expect_receive(t);
    t.on_datagram(from, &p.to_bytes())
}

fn data(block_n: u16, d: Vec<u8>) -> Packet {
    Packet::Data { block_n, data: d }
}

fn ack(block_n: u16) -> Packet {
    Packet::Acknowledgment { block_n }
}

#[test]
fn read_four_bytes() {
    let mut t = Transfer::start_download(b"/f", server(), timing()).unwrap();
    let (p, to) = expect_send(&mut t);
    assert_eq!(p, Packet::ReadRequest { filename: b"/f".to_vec(), mode: RequestMode::Octet });
    assert_eq!(to, server());
    reply(&mut t, peer(4000), data(1, vec![0xDE, 0xAD, 0xBE, 0xEF])).unwrap();
    assert_eq!(t.server(), peer(4000));
    assert_eq!(expect_send(&mut t), (ack(1), peer(4000)));
    expect_finished(&mut t);
    assert_eq!(t.into_data(), vec![0xDE, 0xAD, 0xBE, 0xEF]);
}

#[test]
fn read_exactly_one_block() {
    let mut t = Transfer::start_download(b"/f", server(), timing()).unwrap();
    expect_send(&mut t);
    reply(&mut t, peer(4000), data(1, vec![5u8; 512])).unwrap();
    assert_eq!(expect_send(&mut t), (ack(1), peer(4000)));
    reply(&mut t, peer(4000), data(2, vec![])).unwrap();
    assert_eq!(expect_send(&mut t), (ack(2), peer(4000)));
    expect_finished(&mut t);
    assert_eq!(t.into_data(), vec![5u8; 512]);
}

#[test]
fn write_four_bytes() {
    let payload = vec![0xb0, 0xba, 0xca, 0xfe];
    let mut t = Transfer::start_upload(b"/test", payload.clone(), server(), timing()).unwrap();
    let (p, to) = expect_send(&mut t);
    assert_eq!(p, Packet::WriteRequest { filename: b"/test".to_vec(), mode: RequestMode::Octet });
    assert_eq!(to, server());
    reply(&mut t, peer(4001), ack(0)).unwrap();
    assert_eq!(expect_send(&mut t), (data(1, payload), peer(4001)));
    reply(&mut t, peer(4001), ack(1)).unwrap();
    assert_eq!(t.phase(), Phase::Done);
    expect_finished(&mut t);
}

#[test]
fn write_two_full_blocks() {
    let payload: Vec<u8> = (0..1024u32).map(|i| (i % 251) as u8).collect();
    let mut t = Transfer::start_upload(b"/big", payload.clone(), server(), timing()).unwrap();
    expect_send(&mut t);
    reply(&mut t, peer(4002), ack(0)).unwrap();
    assert_eq!(expect_send(&mut t).0, data(1, payload[..512].to_vec()));
    reply(&mut t, peer(4002), ack(1)).unwrap();
    assert_eq!(expect_send(&mut t).0, data(2, payload[512..].to_vec()));
    reply(&mut t, peer(4002), ack(2)).unwrap();
    assert_eq!(expect_send(&mut t).0, data(3, vec![]));
    reply(&mut t, peer(4002), ack(3)).unwrap();
    expect_finished(&mut t);
}

#[test]
fn duplicate_ack_is_not_answered() {
    let mut t = Transfer::start_upload(b"/f", vec![1u8; 512], server(), timing()).unwrap();
    expect_send(&mut t);
    reply(&mut t, peer(4003), ack(0)).unwrap();
    assert_eq!(expect_send(&mut t).0, data(1, vec![1u8; 512]));
    let mut sends_of_block_two = 0;
    reply(&mut t, peer(4003), ack(1)).unwrap();
    if expect_send(&mut t).0 == data(2, vec![]) {
        sends_of_block_two += 1;
    }
    let retries = t.retries_left();
    reply(&mut t, peer(4003), ack(1)).unwrap();
    assert_eq!(t.phase(), Phase::Recv);
    assert_eq!(t.retries_left(), retries);
    assert_eq!(t.pending(), &data(2, vec![]));
    reply(&mut t, peer(4003), ack(2)).unwrap();
    expect_finished(&mut t);
    assert_eq!(sends_of_block_two, 1);
}

#[test]
fn server_error_fails_without_resending() {
    let mut t = Transfer::start_download(b"/missing", server(), timing()).unwrap();
    expect_send(&mut t);
    let r = reply(&mut t, peer(4004), Packet::Error { code: ErrorCode::NoFile, msg: b"not found".to_vec() });
    match r {
        Err(Error::Protocol { code, msg }) => {
            assert_eq!(code, ErrorCode::NoFile);
            assert_eq!(msg, b"not found".to_vec());
        }
        other => panic!("unexpected {:?}", other),
    }
    expect_finished(&mut t);
}

#[test]
fn silent_server_times_out() {
    let timing = Timing { base_timeout_ns: 10_000_000, max_timeout_ns: 50_000_000, max_retries: 4 };
    let mut t = Transfer::start_download(b"/f", server(), timing).unwrap();
    let mut sends = 0;
    let mut waits = vec![];
    let result = loop {
        match t.next_action() {
            Action::Send { .. } => sends += 1,
            Action::Receive { timeout_ns } => {
                waits.push(timeout_ns);
                if let Err(e) = t.on_timeout() {
                    break e;
                }
            }
            Action::Finished => panic!("no reply was given"),
        }
    };
    assert!(matches!(result, Error::Timeout));
    assert_eq!(sends, 4);
    assert_eq!(waits, vec![10_000_000, 15_000_000, 22_500_000, 33_750_000]);
}

#[test]
fn backoff_is_capped() {
    let timing = Timing { base_timeout_ns: 10, max_timeout_ns: 20, max_retries: 10 };
    let mut t = Transfer::start_download(b"/f", server(), timing).unwrap();
    expect_send(&mut t);
    let mut waits = vec![];
    for _ in 0..4 {
        waits.push(expect_receive(&mut t));
        t.on_timeout().unwrap();
        expect_send(&mut t);
    }
    assert_eq!(waits, vec![10, 15, 20, 20]);
}

#[test]
fn progress_resets_retry_counters() {
    let mut t = Transfer::start_download(b"/f", server(), timing()).unwrap();
    expect_send(&mut t);
    expect_receive(&mut t);
    t.on_timeout().unwrap();
    expect_send(&mut t);
    assert_eq!(t.retries_left(), 7);
    assert_eq!(t.timeout_ns(), 150_000_000);
    reply(&mut t, peer(4005), data(1, vec![1u8; 512])).unwrap();
    assert_eq!(t.retries_left(), 8);
    assert_eq!(t.timeout_ns(), 100_000_000);
}

#[test]
fn foreign_datagrams_are_ignored() {
    let mut t = Transfer::start_download(b"/f", server(), timing()).unwrap();
    expect_send(&mut t);
    reply(&mut t, peer(4006), data(1, vec![1u8; 512])).unwrap();
    expect_send(&mut t);
    expect_receive(&mut t);
    t.on_timeout().unwrap();
    expect_send(&mut t);
    let retries = t.retries_left();
    reply(&mut t, peer(4007), data(2, vec![9])).unwrap();
    reply(&mut t, Endpoint { ip: 1, port: 4006 }, data(2, vec![9])).unwrap();
    assert_eq!(t.retries_left(), retries);
    assert_eq!(t.phase(), Phase::Recv);
    assert_eq!(t.last_block_n(), 1);
    reply(&mut t, peer(4006), data(2, vec![3])).unwrap();
    expect_send(&mut t);
    expect_finished(&mut t);
    let mut expected = vec![1u8; 512];
    expected.push(3);
    assert_eq!(t.into_data(), expected);
}

#[test]
fn first_reply_may_come_from_another_address() {
    let mut t = Transfer::start_download(b"/f", server(), timing()).unwrap();
    expect_send(&mut t);
    let other = Endpoint { ip: 0xffff_0a00_0002, port: 5000 };
    reply(&mut t, other, data(1, vec![])).unwrap();
    assert_eq!(t.server(), other);
    assert_eq!(expect_send(&mut t), (ack(1), other));
}

#[test]
fn filename_with_nul_is_refused() {
    assert!(matches!(Transfer::start_download(b"a\0b", server(), timing()), Err(Error::BadFilename)));
    assert!(matches!(Transfer::start_upload(b"\0", vec![], server(), timing()), Err(Error::BadFilename)));
}

#[test]
fn garbage_from_peer_is_a_parse_error() {
    let mut t = Transfer::start_download(b"/f", server(), timing()).unwrap();
    expect_send(&mut t);
    expect_receive(&mut t);
    let r = t.on_datagram(peer(4008), &[0, 9, 0, 0]);
    assert!(matches!(r, Err(Error::Parse(ParseError::BadOpcode(9)))));
    assert_eq!(t.phase(), Phase::Done);
}

#[test]
fn ack_on_download_is_unexpected() {
    let mut t = Transfer::start_download(b"/f", server(), timing()).unwrap();
    expect_send(&mut t);
    let r = reply(&mut t, peer(4009), ack(1));
    assert!(matches!(r, Err(Error::UnexpectedPacket(Packet::Acknowledgment { block_n: 1 }))));
}

#[test]
fn data_on_upload_is_unexpected() {
    let mut t = Transfer::start_upload(b"/f", vec![1], server(), timing()).unwrap();
    expect_send(&mut t);
    let r = reply(&mut t, peer(4010), data(1, vec![]));
    assert!(matches!(r, Err(Error::UnexpectedPacket(Packet::Data { .. }))));
}

#[test]
fn oversize_data_is_unexpected() {
    let mut t = Transfer::start_download(b"/f", server(), timing()).unwrap();
    expect_send(&mut t);
    let r = reply(&mut t, peer(4011), data(1, vec![0u8; 513]));
    assert!(matches!(r, Err(Error::UnexpectedPacket(_))));
}

#[test]
fn ack_beyond_last_block_is_unexpected() {
    let mut t = Transfer::start_upload(b"/f", vec![1, 2], server(), timing()).unwrap();
    expect_send(&mut t);
    let r = reply(&mut t, peer(4012), ack(2));
    assert!(matches!(r, Err(Error::UnexpectedPacket(Packet::Acknowledgment { block_n: 2 }))));
}

fn count_data_packets(len: usize) -> usize {
    let payload = vec![7u8; len];
    let mut t = Transfer::start_upload(b"/f", payload, server(), timing()).unwrap();
    expect_send(&mut t);
    reply(&mut t, peer(4013), ack(0)).unwrap();
    let mut n: u16 = 0;
    let mut count = 0;
    loop {
        if t.phase() == Phase::Done {
            expect_finished(&mut t);
            return count;
        }
        match expect_send(&mut t).0 {
            Packet::Data { block_n, data } => {
                assert_eq!(block_n, n + 1);
                assert!(data.len() == 512 || data.len() == len % 512);
            }
            other => panic!("unexpected {:?}", other),
        }
        count += 1;
        n += 1;
        // a repeated acknowledgment of the previous block produces nothing
        if n >= 2 {
            reply(&mut t, peer(4013), ack(n - 1)).unwrap();
            assert_eq!(t.phase(), Phase::Recv);
        }
        reply(&mut t, peer(4013), ack(n)).unwrap();
    }
}

#[test]
fn upload_block_counts() {
    assert_eq!(count_data_packets(0), 1);
    assert_eq!(count_data_packets(1), 1);
    assert_eq!(count_data_packets(511), 1);
    assert_eq!(count_data_packets(512), 2);
    assert_eq!(count_data_packets(513), 2);
    assert_eq!(count_data_packets(1024), 3);
    assert_eq!(count_data_packets(1500), 3);
}

#[test]
fn events_outside_their_phase_change_nothing() {
    let mut t = Transfer::start_download(b"/f", server(), timing()).unwrap();
    assert!(t.on_timeout().is_ok());
    assert!(t.on_datagram(peer(1), &data(1, vec![]).to_bytes()).is_ok());
    assert_eq!(t.phase(), Phase::Send);
    assert_eq!(t.last_block_n(), -1);
}
