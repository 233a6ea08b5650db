use bytes::Bytes;
use rustdds::dds::ddsdata::{ChangeKind, DDSData};
use rustdds::rtps::fragment_assembler::{AssemblyBuffer, DataFrag, FragmentAssembler};
use rustdds::structure::guid::EntityId;
use rustdds::structure::sequence_number::{FragmentNumber, SequenceNumber};
use rustdds::structure::time::Timestamp;

fn datafrag(start: u32, k: u16, frag_size: u16, data_size: u32, payload: Vec<u8>) -> DataFrag {
    DataFrag {
        reader_id: EntityId::unknown(),
        writer_id: EntityId::unknown(),
        writer_sn: SequenceNumber::default(),
        fragment_starting_num: FragmentNumber::new(start),
        fragments_in_submessage: k,
        fragment_size: frag_size,
        data_size,
        serialized_payload: Bytes::from(payload),
    }
}

fn now() -> Timestamp {
    Timestamp { seconds: 100, fraction: 0 }
}

#[test]
fn reassemble_multi_fragment_datafrag() {
    let frag_size = 1024u16;
    let data_size = 2600u32; // three fragments: 1024, 1024, 552
    let whole: Vec<u8> = (0..data_size as usize).map(|i| (i % 251) as u8).collect();

    let first = datafrag(1, 2, frag_size, data_size, whole[0..2048].to_vec());
    let mut ab = AssemblyBuffer::new(&first, now()).expect("valid first fragment");
    assert!(!ab.is_complete());
    ab.insert_frags(&first, frag_size, now());
    assert!(!ab.is_complete(), "still missing the tail fragment");

    let tail = datafrag(3, 1, frag_size, data_size, whole[2048..2600].to_vec());
    ab.insert_frags(&tail, frag_size, now());
    assert!(ab.is_complete(), "all fragments received");
    assert_eq!(
        &ab.buffer_bytes[..],
        &whole[..],
        "reassembled bytes must match the original sample"
    );
}

#[test]
fn reassemble_single_submessage_all_fragments() {
    let frag_size = 512u16;
    let data_size = 1500u32; // three fragments: 512, 512, 476
    let whole: Vec<u8> = (0..data_size as usize).map(|i| (i % 97) as u8).collect();

    let all = datafrag(1, 3, frag_size, data_size, whole.clone());
    let mut ab = AssemblyBuffer::new(&all, now()).expect("valid fragment set");
    ab.insert_frags(&all, frag_size, now());
    assert!(ab.is_complete());
    assert_eq!(&ab.buffer_bytes[..], &whole[..]);
}

#[test]
fn reject_fragment_span_beyond_total() {
    let frag_size = 256u16;
    let data_size = 512u32; // two fragments
    let bad = datafrag(2, 2, frag_size, data_size, vec![0u8; 256]);
    let mut ab = AssemblyBuffer::new(&bad, now()).expect("buffer for valid data_size");
    assert!(!ab.insert_frags(&bad, frag_size, now()));
    assert!(!ab.is_complete());
}

#[test]
fn fragment_assembler_rejects_span_beyond_total() {
    let frag_size = 256u16;
    let data_size = 512u32;
    let bad = datafrag(2, 2, frag_size, data_size, vec![0u8; 256]);
    let mut fa = FragmentAssembler::new(frag_size, true);
    assert!(fa.new_datafrag(&bad, false, now()).is_none());
    assert!(!fa.is_partially_received(bad.writer_sn));
}

#[test]
fn rejected_runs_leave_no_buffers() {
    let mut fa = FragmentAssembler::new(256, true);
    for n in 1..=129 {
        let mut bad = datafrag(2, 2, 256, 512, vec![0u8; 256]);
        bad.writer_sn = SequenceNumber::new(n);
        assert!(fa.new_datafrag(&bad, false, now()).is_none());
    }
    assert!((1..=129).all(|n| !fa.is_partially_received(SequenceNumber::new(n))));
}

#[test]
fn rejected_run_keeps_what_was_received() {
    let mut fa = FragmentAssembler::new(256, true);
    let sn = SequenceNumber::default();
    assert!(fa.new_datafrag(&datafrag(1, 1, 256, 512, vec![7u8; 256]), false, now()).is_none());
    assert!(fa.new_datafrag(&datafrag(2, 2, 256, 512, vec![0u8; 256]), false, now()).is_none());
    assert!(fa.is_partially_received(sn));
    assert_eq!(fa.missing_frags_for(sn), vec![FragmentNumber::new(2)]);
}

#[test]
fn number_of_samples_in_assembly_is_bounded() {
    for reliable in [true, false] {
        let mut fa = FragmentAssembler::new(256, reliable);
        for n in 1..=200 {
            let mut part = datafrag(1, 1, 256, 512, vec![0u8; 256]);
            part.writer_sn = SequenceNumber::new(n);
            assert!(fa.new_datafrag(&part, false, now()).is_none());
        }
        let held: Vec<i64> =
            (1..=200).filter(|n| fa.is_partially_received(SequenceNumber::new(*n))).collect();
        assert_eq!(held.len(), 128);
        assert_eq!(held[0], if reliable { 1 } else { 73 });
    }
}

#[test]
fn completed_sample_comes_out_and_its_buffer_goes() {
    let whole: Vec<u8> = (0..10u8).collect();
    let mut fa = FragmentAssembler::new(4, true);
    let sn = SequenceNumber::default();
    assert!(fa.new_datafrag(&datafrag(3, 1, 4, 10, whole[8..].to_vec()), false, now()).is_none());
    assert!(fa.is_partially_received(sn));
    assert_eq!(fa.missing_frags_for(sn), vec![FragmentNumber::new(1), FragmentNumber::new(2)]);
    match fa.new_datafrag(&datafrag(1, 2, 4, 10, whole[..8].to_vec()), false, now()) {
        Some(DDSData::Data { serialized_payload }) => {
            assert_eq!(serialized_payload.representation_identifier.byte_1, 1);
            assert_eq!(&serialized_payload.value[..], &whole[4..]);
        }
        _ => panic!("not complete"),
    }
    assert!(!fa.is_partially_received(sn));
    assert!(fa.missing_frags_for(sn).is_empty());
}

#[test]
fn completed_key_ends_an_instance() {
    let mut fa = FragmentAssembler::new(8, true);
    match fa.new_datafrag(&datafrag(1, 1, 8, 8, vec![0, 1, 0, 0, 9, 9, 9, 9]), true, now()) {
        Some(DDSData::DisposeByKey { change_kind, key }) => {
            assert_eq!(change_kind, ChangeKind::NotAliveDisposed);
            assert_eq!(&key.value[..], &[9u8, 9, 9, 9][..]);
        }
        _ => panic!("not a key"),
    }
}

#[test]
fn stale_buffers_are_collected() {
    let mut fa = FragmentAssembler::new(4, false);
    let sn = SequenceNumber::default();
    assert!(fa.new_datafrag(&datafrag(1, 1, 4, 10, vec![0; 4]), false, now()).is_none());
    fa.garbage_collect_before(now());
    assert!(fa.is_partially_received(sn));
    fa.garbage_collect_before(Timestamp { seconds: 101, fraction: 0 });
    assert!(!fa.is_partially_received(sn));
}

#[test]
fn number_of_fragments_is_rounded_up() {
    assert_eq!(datafrag(1, 1, 1024, 2600, vec![]).total_number_of_fragments(), FragmentNumber::new(3));
    assert_eq!(datafrag(1, 1, 1024, 2048, vec![]).total_number_of_fragments(), FragmentNumber::new(2));
}
