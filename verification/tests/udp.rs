use gliff::udp::assemble::{AssembledFrame, Assembler, Event};
use gliff::udp::cache::PartCache;
use gliff::udp::packet::{packet_to_vec, take_packet, Packet};
use gliff::udp::probe::{
    client_events, on_probe_due, on_server_packet, on_tick, path_found, ClientEvent, Probes, Probing, DEFAULT_RTT, PROBES_LOST,
};
use gliff::udp::replay::ReplayWindow;
use gliff::udp::seal::{Opener, Sealer, DIR_CLIENT, DIR_SERVER, KEY_LEN, MAX_DATAGRAM};
use gliff::udp::serve::{probe_targets, Addr, OutFrame, Reply, ServerPath, MIN_PACE, PACE_BATCH};
use gliff::udp::split::{part_payload_len, split_frame, FrameInfo};

const MS: u64 = 1_000_000;

fn key() -> [u8; KEY_LEN] {
    [7u8; KEY_LEN]
}

fn info(id: u64) -> FrameInfo {
    FrameInfo { frame_id: id, keyframe: id == 0, reference: (id > 0).then(|| id - 1), pts_us: id * 16_667 }
}

#[test]
fn seal_and_open_round_trip_and_reject_tampering() {
    let mut sealer = Sealer::new(&key(), DIR_SERVER);
    let mut opener = Opener::new(&key(), DIR_SERVER);
    let d = sealer.seal_packet(&Packet::Probe { t: 5 });
    assert!(d.len() <= MAX_DATAGRAM);
    assert_eq!(opener.open(&d), Some((Packet::Probe { t: 5 }, Vec::new())));
    // A replay is dropped.
    assert_eq!(opener.open(&d), None);
    let mut bad = sealer.seal_packet(&Packet::Probe { t: 6 });
    bad[12] ^= 1;
    assert_eq!(opener.open(&bad), None);
    // The other direction's key stream does not open it.
    let mut wrong_dir = Opener::new(&key(), DIR_CLIENT);
    assert_eq!(wrong_dir.open(&sealer.seal_packet(&Packet::Probe { t: 7 })), None);
}

#[test]
fn replay_window_tracks_out_of_order_sequences() {
    let mut w = ReplayWindow::default();
    assert!(!w.is_fresh(0));
    w.mark(10);
    assert!(w.is_fresh(9));
    w.mark(9);
    assert!(!w.is_fresh(9));
    assert!(!w.is_fresh(10));
    assert!(w.is_fresh(11));
    w.mark(10 + ReplayWindow::BITS);
    assert!(!w.is_fresh(10));
    assert!(w.is_fresh(11 + ReplayWindow::BITS));
}

#[test]
fn split_parts_fit_the_datagram_and_reassemble() {
    let main = vec![1u8; 5000];
    let aux = vec![2u8; 3000];
    let parts = split_frame(&info(3), &main, &aux);
    let mut sealer = Sealer::new(&key(), DIR_SERVER);
    let mut opener = Opener::new(&key(), DIR_SERVER);
    let mut frames = Assembler::new();
    frames.next = 3;
    let mut events = Vec::new();
    for p in &parts {
        let d = sealer.seal(p);
        assert!(d.len() <= MAX_DATAGRAM, "{}", d.len());
        let (pkt, bytes) = opener.open(&d).unwrap();
        events.extend(frames.on_packet(pkt, bytes, 0));
    }
    assert_eq!(events, vec![Event::Frame(AssembledFrame { info: info(3), main, aux })]);
    assert!(frames.outgoing.is_empty());
}

fn feed(frames: &mut Assembler, parts: &[Vec<u8>], skip: &[usize], now: u64) -> Vec<Event> {
    let mut events = Vec::new();
    for (i, p) in parts.iter().enumerate() {
        if skip.contains(&i) {
            continue;
        }
        let (pkt, n) = take_packet(p).unwrap();
        events.extend(frames.on_packet(pkt, p[n..].to_vec(), now));
    }
    events
}

#[test]
fn a_missing_part_is_nacked_then_delivered_in_order() {
    let mut frames = Assembler::new();
    let t0 = 0;
    let f0 = split_frame(&info(0), &vec![0u8; 3000], &[]);
    let f1 = split_frame(&info(1), &vec![1u8; 3000], &[]);
    assert_eq!(feed(&mut frames, &f0, &[], t0).len(), 1);
    // Frame 1 loses its middle part; the gap shows when part 2 lands.
    let ev = feed(&mut frames, &f1, &[1], t0);
    assert!(ev.is_empty());
    assert_eq!(frames.outgoing, vec![Packet::Nack { frame_id: 1, missing: vec![1] }]);
    // Frame 2 completes but waits behind frame 1.
    let f2 = split_frame(&info(2), &vec![2u8; 100], &[]);
    assert!(feed(&mut frames, &f2, &[], t0).is_empty());
    // The retransmit arrives: both frames come out, in order.
    let ev = feed(&mut frames, &f1[1..2], &[], t0 + 5 * MS);
    let ids: Vec<u64> = ev
        .iter()
        .map(|e| match e {
            Event::Frame(f) => f.info.frame_id,
            Event::Lost(id) => *id,
        })
        .collect();
    assert_eq!(ids, vec![1, 2]);
    assert_eq!(frames.stats.repaired, 1);
}

#[test]
fn a_frame_is_given_up_after_unanswered_nacks() {
    let mut frames = Assembler::new();
    frames.set_rtt(20 * MS);
    let t0 = 0;
    let f0 = split_frame(&info(0), &vec![0u8; 3000], &[]);
    assert!(feed(&mut frames, &f0, &[2], t0).is_empty());
    // Tail loss: nothing later arrives, so the timer asks.
    assert!(frames.tick(t0 + 13 * MS).is_empty());
    assert_eq!(frames.outgoing.len(), 1);
    assert!(frames.tick(t0 + 40 * MS).is_empty());
    assert_eq!(frames.outgoing.len(), 2);
    let ev = frames.tick(t0 + 70 * MS);
    assert_eq!(ev, vec![Event::Lost(0)]);
    assert_eq!(frames.outgoing.last(), Some(&Packet::Ack { frame_id: 0, decoded_at_ms: 0 }));
    assert_eq!(frames.stats.lost, 1);
    // A late part of the dropped frame is ignored.
    assert!(feed(&mut frames, &f0[2..3], &[], t0 + 80 * MS).is_empty());
    assert_eq!(frames.pending(), 0);
}

#[test]
fn part_cache_serves_recent_parts_only() {
    let mut cache = PartCache::new();
    for id in 0..20u64 {
        cache.insert(id, vec![vec![id as u8; 10], vec![id as u8 + 100; 10]]);
    }
    assert_eq!(cache.part(19, 1), Some(&[119u8; 10][..]));
    assert_eq!(cache.part(19, 2), None);
    assert_eq!(cache.part(1, 0), None);
}

#[test]
fn the_cache_is_bounded_by_bytes() {
    let mut cache = PartCache::new();
    cache.insert(0, vec![vec![0; PartCache::MAX_BYTES]]);
    assert!(cache.part(0, 0).is_some());
    cache.insert(1, vec![vec![1; 1]]);
    assert!(cache.part(0, 0).is_none());
    assert_eq!(cache.part(1, 0), Some(&[1u8][..]));
}

#[test]
fn packets_have_postcard_bytes() {
    let packets = [
        Packet::Probe { t: 300 },
        Packet::ProbeAck { t: 1 },
        Packet::Part {
            frame_id: 5,
            index: 1,
            count: 2,
            keyframe: true,
            reference: Some(4),
            pts_us: 16_667,
            main_len: 10,
            total_len: 12,
        },
        Packet::Nack { frame_id: 9, missing: vec![0, 200] },
        Packet::Ack { frame_id: 1, decoded_at_ms: 2 },
        Packet::Recover { last_good: None },
    ];
    // Numbers as postcard writes them: seven bits a byte, lowest first.
    let expected: [&[u8]; 6] = [
        &[0, 0xac, 0x02],
        &[1, 1],
        &[2, 5, 1, 2, 1, 1, 4, 0x9b, 0x82, 0x01, 10, 12],
        &[3, 9, 2, 0, 0xc8, 0x01],
        &[4, 1, 2],
        &[5, 0],
    ];
    for (p, bytes) in packets.iter().zip(expected) {
        assert_eq!(packet_to_vec(p), bytes, "{p:?}");
        let mut longer = bytes.to_vec();
        longer.push(77);
        assert_eq!(take_packet(&longer), Some((p.clone(), bytes.len())));
    }
    assert_eq!(take_packet(&[]), None);
    assert_eq!(take_packet(&[6, 0]), None);
}

#[test]
fn numbers_agree_with_postcard() {
    for t in [0u64, 1, 127, 128, 16_383, 16_384, u32::MAX as u64, u64::MAX] {
        let mut want = vec![0];
        want.extend(postcard::to_allocvec(&t).unwrap());
        assert_eq!(packet_to_vec(&Packet::Probe { t }), want);
    }
    let list = vec![0u16, 127, 128, u16::MAX];
    let mut want = vec![3, 7];
    want.extend(postcard::to_allocvec(&list).unwrap());
    assert_eq!(packet_to_vec(&Packet::Nack { frame_id: 7, missing: list }), want);
    for last in [None, Some(300u64)] {
        let mut want = vec![5];
        want.extend(postcard::to_allocvec(&last).unwrap());
        assert_eq!(packet_to_vec(&Packet::Recover { last_good: last }), want);
    }
}

#[test]
fn parts_join_to_the_frame() {
    assert_eq!(part_payload_len(), 1127);
    let main: Vec<u8> = (0..3000).map(|i| (i % 251) as u8).collect();
    let aux = vec![9u8; 500];
    let mut joined = Vec::new();
    let parts = split_frame(&info(1), &main, &aux);
    assert_eq!(parts.len(), 4);
    for (i, p) in parts.iter().enumerate() {
        let (packet, n) = take_packet(p).unwrap();
        assert_eq!(
            packet,
            Packet::Part {
                frame_id: 1,
                index: i as u16,
                count: 4,
                keyframe: false,
                reference: Some(0),
                pts_us: 16_667,
                main_len: 3000,
                total_len: 3500,
            }
        );
        joined.extend_from_slice(&p[n..]);
    }
    let mut whole = main;
    whole.extend(aux);
    assert_eq!(joined, whole);
    assert_eq!(split_frame(&info(1), &[], &[]).len(), 1);
}

#[test]
fn sealed_bytes_are_not_the_plaintext() {
    let mut sealer = Sealer::new(&key(), DIR_SERVER);
    let d = sealer.seal(b"a plaintext of some length");
    assert_eq!(d.len(), 8 + 26 + 16);
    assert!(!d.windows(5).any(|w| w == b"plain"));
    // Each datagram has a sequence number of its own.
    assert_ne!(sealer.seal(b"a plaintext of some length"), d);
}

#[test]
fn answers_measure_the_round_trip() {
    let mut probes = Probes::new();
    assert_eq!(probes.probe(0, 10 * MS), Packet::Probe { t: 1 });
    assert_eq!(probes.probe(500, 20 * MS), Packet::Probe { t: 500 });
    assert_eq!(probes.first_rtt(500, 50 * MS), 30 * MS);
    assert_eq!(probes.first_rtt(7, 50 * MS), DEFAULT_RTT);
    assert_eq!(probes.on_answer(7, 50 * MS), None);
    assert_eq!(probes.on_answer(1, 50 * MS), Some(40 * MS));
    assert!(probes.sent.is_empty());
}

#[test]
fn a_path_without_answers_is_down() {
    let mut probes = Probes::new();
    let mut last = 0;
    for i in 0..PROBES_LOST as u64 {
        let p = on_probe_due(&mut probes, &mut last, i, i * 500 * MS);
        assert!(matches!(p, Probing::Send { packet: Packet::Probe { .. }, .. }));
    }
    assert!(matches!(on_probe_due(&mut probes, &mut last, 99, 99), Probing::Down));
    // Counters went out every second.
    assert_eq!(last, 4_000 * MS);
}

#[test]
fn packets_of_the_server_are_sorted_out() {
    let mut frames = Assembler::new();
    let mut probes = Probes::new();
    probes.probe(5, 0);
    let h = on_server_packet(&mut frames, &mut probes, Packet::ProbeAck { t: 5 }, Vec::new(), 3 * MS);
    assert_eq!(h.rtt, Some(3 * MS));
    let parts = split_frame(&info(0), &[1, 2], &[3]);
    let (packet, n) = take_packet(&parts[0]).unwrap();
    let h = on_server_packet(&mut frames, &mut probes, packet, parts[0][n..].to_vec(), 3 * MS);
    let out = client_events(h.events);
    assert!(matches!(&out[0], ClientEvent::Frame(f) if f.main == [1, 2] && f.aux == [3]));
    let h = on_server_packet(&mut frames, &mut probes, Packet::Probe { t: 1 }, Vec::new(), 0);
    assert!(h.events.is_empty() && h.rtt.is_none());
    assert!(on_tick(&mut frames, 10 * MS).is_empty());
}

fn addr(port: u16, v6: bool) -> Addr {
    Addr { ip: 1, v6, port, flow: 0, scope: 0 }
}

#[test]
fn only_a_new_probe_moves_the_peer() {
    let mut path = ServerPath::new();
    let f = OutFrame { info: info(0), main: vec![1; 5000], aux: Vec::new(), pace_bps: 8_000_000 };
    assert!(!path.send_frame(&f));
    assert!(matches!(path.on_packet(Packet::Probe { t: 3 }, addr(1, false)), Reply::Answer(Packet::ProbeAck { t: 3 })));
    assert_eq!(path.peer, Some(addr(1, false)));
    // A replayed probe does not redirect the stream.
    path.on_packet(Packet::Probe { t: 3 }, addr(2, false));
    assert_eq!(path.peer, Some(addr(1, false)));
    path.on_packet(Packet::Ack { frame_id: 0, decoded_at_ms: 0 }, addr(2, false));
    assert_eq!(path.peer, Some(addr(1, false)));
}

#[test]
fn parts_leave_at_the_pace_of_their_frame() {
    let mut path = ServerPath::new();
    path.on_packet(Packet::Probe { t: 1 }, addr(1, false));
    let f = OutFrame { info: info(0), main: vec![1; 5000], aux: Vec::new(), pace_bps: 0 };
    assert!(path.send_frame(&f));
    assert_eq!(path.waiting.len(), 5);
    assert_eq!(path.waiting[0].pace, MIN_PACE);
    let b = path.next_batch();
    assert_eq!((b.parts.len(), b.done), (PACE_BATCH, 0));
    assert!(b.delay > 0);
    let b = path.next_batch();
    assert_eq!((b.parts.len(), b.done), (1, 1));
    // What went out is kept for a resend.
    let wanted = split_frame(&info(0), &f.main, &[]);
    match path.on_packet(Packet::Nack { frame_id: 0, missing: vec![2, 99] }, addr(1, false)) {
        Reply::Resend(parts) => assert_eq!(parts, vec![wanted[2].clone()]),
        other => panic!("{other:?}"),
    }
}

#[test]
fn a_family_probes_its_own_addresses() {
    let all = [addr(1, false), addr(2, true), addr(3, false)];
    assert_eq!(probe_targets(&all, false), vec![addr(1, false), addr(3, false)]);
    assert_eq!(probe_targets(&all, true), vec![addr(2, true)]);
}

#[test]
fn only_an_address_that_was_probed_opens_the_path() {
    let mut probes = Probes::new();
    probes.probe(5, 10 * MS);
    let targets = [addr(1, false), addr(2, false)];
    let answer = Packet::ProbeAck { t: 5 };
    assert_eq!(path_found(&probes, &targets, addr(2, false), &answer, 40 * MS), Some(30 * MS));
    assert_eq!(path_found(&probes, &targets, addr(3, false), &answer, 40 * MS), None);
    assert_eq!(path_found(&probes, &targets, addr(1, false), &Packet::Probe { t: 5 }, 40 * MS), None);
}

#[test]
fn parts_may_come_in_any_order_and_twice() {
    let main: Vec<u8> = (0..5000u32).map(|i| i as u8).collect();
    let aux = vec![9u8; 700];
    let mut parts = split_frame(&info(4), &main, &aux);
    parts.reverse();
    parts.insert(2, parts[0].clone());
    parts.push(parts[1].clone());
    let mut frames = Assembler::new();
    let events = feed(&mut frames, &parts, &[], 0);
    assert_eq!(events, vec![Event::Frame(AssembledFrame { info: info(4), main, aux })]);
    assert_eq!(frames.next, 5);
    assert_eq!(frames.pending(), 0);
}

#[test]
fn resent_parts_complete_the_frame() {
    let main = vec![3u8; 6000];
    let parts = split_frame(&info(0), &main, &[]);
    let mut frames = Assembler::new();
    assert!(feed(&mut frames, &parts, &[1, 3], 0).is_empty());
    let asked: Vec<Packet> = frames.outgoing.drain(..).collect();
    let Some(Packet::Nack { frame_id: 0, missing }) = asked.last() else { panic!("no parts were asked for") };
    assert!(missing.contains(&1));
    let lost = [parts[3].clone(), parts[1].clone()];
    let events = feed(&mut frames, &lost, &[], 2 * MS);
    assert_eq!(events, vec![Event::Frame(AssembledFrame { info: info(0), main, aux: Vec::new() })]);
    assert!(frames.outgoing.is_empty());
}

#[test]
fn a_frame_that_contradicts_its_header_is_lost_and_acked() {
    let mut frames = Assembler::new();
    let part = Packet::Part {
        frame_id: 0,
        index: 0,
        count: 1,
        keyframe: true,
        reference: None,
        pts_us: 0,
        main_len: 4,
        total_len: 4,
    };
    assert_eq!(frames.on_packet(part, vec![1, 2, 3], 0), vec![Event::Lost(0)]);
    assert_eq!(frames.outgoing, vec![Packet::Ack { frame_id: 0, decoded_at_ms: 0 }]);
    assert_eq!((frames.next, frames.stats.lost), (1, 1));
}

#[test]
fn a_frame_is_given_up_when_too_many_wait_behind_it() {
    let mut frames = Assembler::new();
    assert!(frames.has_room());
    let first = split_frame(&info(0), &vec![0u8; 3000], &[]);
    assert!(feed(&mut frames, &first, &[2], 0).is_empty());
    for id in 1..=Assembler::MAX_AHEAD as u64 {
        assert!(feed(&mut frames, &split_frame(&info(id), &[1], &[]), &[], 0).is_empty(), "{id}");
    }
    let last = Assembler::MAX_AHEAD as u64 + 1;
    let events = feed(&mut frames, &split_frame(&info(last), &[1], &[]), &[], 100 * MS);
    assert_eq!(events[0], Event::Lost(0));
    assert_eq!(events.len(), Assembler::MAX_AHEAD + 2);
    frames.stats.lost = u64::MAX;
    assert!(!frames.has_room());
}

#[test]
fn the_cache_keeps_the_longest_end() {
    let mut cache = PartCache::new();
    for id in 0..16 {
        cache.insert(id, vec![vec![0; 1]]);
    }
    assert!(cache.part(0, 0).is_some());
    cache.insert(16, vec![vec![0; PartCache::MAX_BYTES - 2]]);
    // The newest frame leaves room for two of the others.
    assert!(cache.part(13, 0).is_none());
    assert!(cache.part(14, 0).is_some());
    assert!(cache.part(16, 0).is_some());
    // A frame that is too large by itself leaves nothing.
    cache.insert(17, vec![vec![0; PartCache::MAX_BYTES + 1]]);
    assert!(cache.part(16, 0).is_none());
    assert!(cache.part(17, 0).is_none());
}

#[test]
fn a_sealed_packet_has_its_number_and_its_tag() {
    let mut sealer = Sealer::new(&key(), DIR_SERVER);
    // Two bytes of packet, eight of number, sixteen of tag.
    assert_eq!(sealer.seal_packet(&Packet::Probe { t: 5 }).len(), 26);
}

#[test]
fn a_datagram_opens_after_its_forgery() {
    let mut sealer = Sealer::new(&key(), DIR_SERVER);
    let mut opener = Opener::new(&key(), DIR_SERVER);
    let mut d = sealer.seal_packet(&Packet::Probe { t: 6 });
    d[12] ^= 1;
    assert_eq!(opener.open(&d), None);
    d[12] ^= 1;
    assert_eq!(opener.open(&d[..23]), None);
    assert_eq!(opener.open(&d), Some((Packet::Probe { t: 6 }, Vec::new())));
}
