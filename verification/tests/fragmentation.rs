use rustdds::rtps::fragmentation::{
    frags_of, frags_per_datafrag, FragmentationIter, FragmentationIterState,
};
use rustdds::rtps::message::Submessage;
use rustdds::rtps::writer_send_buffer::WriterSendBuffer;
use rustdds::structure::guid::GUID;
use rustdds::structure::sequence_number::SequenceNumber;

// A sample slightly over one fragment goes out in a single datagram.
#[test]
fn small_mtu_packs_1k_sample_into_one_datafrag() {
    assert_eq!(frags_per_datafrag(20, 1452, 1, 2, 1024, 1036), 2);
}

#[test]
fn small_mtu_large_sample_one_fragment_per_datagram() {
    assert_eq!(frags_per_datafrag(20, 1452, 1, 10, 1024, 10240), 1);
}

#[test]
fn jumbo_mtu_packs_several_fragments() {
    assert_eq!(frags_per_datafrag(20, 8952, 1, 10, 1024, 10240), 8);
}

#[test]
fn tail_run_includes_partial_last_fragment() {
    assert_eq!(frags_per_datafrag(20, 100_000, 9, 10, 1024, 10240), 2);
}

#[test]
fn tiny_budget_still_emits_one_fragment() {
    assert_eq!(frags_per_datafrag(20, 100, 1, 5, 1024, 5120), 1);
}

#[test]
fn k_capped_by_remaining_fragments() {
    assert_eq!(frags_per_datafrag(20, 100_000, 1, 3, 1024, 2600), 3);
}

#[test]
fn fragments_cover_the_payload() {
    assert_eq!(frags_of(2600), (3, 1024));
    assert_eq!(frags_of(2048), (2, 1024));
}

#[test]
fn run_is_no_longer_than_can_be_announced() {
    let mut it = FragmentationIter {
        writer_sn: SequenceNumber::new(1),
        source_timestamp: None,
        target: None,
        budget: 1_000_000_000,
        data_size: 70_000 * 1024,
        heartbeat: false,
        finished: false,
        state: FragmentationIterState::Fragments {
            next: 1,
            num_frags: 70_000,
            fragment_size: 1024,
        },
    };
    let buffer = WriterSendBuffer::new(
        GUID::unknown(),
        "t".to_string(),
        false,
        false,
        true,
        1,
        1,
        1,
    );
    let mut runs = Vec::new();
    let mut count = 1;
    while let Some((_, m)) = it.next(&buffer, &mut count) {
        for s in &m.submessages {
            if let Submessage::DataFrag { fragment_starting_num, fragments_in_submessage, .. } = s {
                runs.push((fragment_starting_num.value, *fragments_in_submessage));
            }
        }
    }
    assert_eq!(runs, vec![(1, 65_535), (65_536, 4_465)]);
    assert_eq!(frags_per_datafrag(20, 1_000_000_000, 1, 70_000, 1024, 70_000 * 1024), 70_000);
}
