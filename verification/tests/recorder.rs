use bugs::bug::{Bug, Pos};
use bugs::event::{CompactGenome, DeathCause, SimulationEvent};
use bugs::recorder::{frame, next_frame, unpack_snapshots, EventReader, EventWriter, RecordError};
use bugs::snapshot::{nearest_index, Snapshot};
use bugs::world::World;
use std::io::{Read, Write};

#[test]
fn size_estimates_by_kind() {
    let pos = Pos::new(1, 2);
    let genome = CompactGenome { gene_count: 16, generation: 0, parent_id: None };
    let moved = SimulationEvent::BugMoved { id: 1, from: pos, to: pos, facing: 0, weight: 5 };
    let born = SimulationEvent::BugBorn {
        id: 2,
        parent_id: 1,
        pos,
        genome,
        ethnicity_r: 1,
        ethnicity_g: 2,
        ethnicity_b: 3,
    };
    let died = SimulationEvent::BugDied { id: 1, cause: DeathCause::Starvation, age: 7 };
    let food = SimulationEvent::FoodChanged { pos, amount: -100 };
    let action = SimulationEvent::BugAction { id: 1, action: 1, weight_change: 100 };
    let mated = SimulationEvent::BugsMated { id1: 1, id2: 2 };
    let tick = SimulationEvent::Tick { tick: 9, bug_count: 3 };
    assert_eq!(moved.size_estimate(), 32);
    assert_eq!(born.size_estimate(), 64);
    assert_eq!(died.size_estimate(), 24);
    assert_eq!(food.size_estimate(), 16);
    assert_eq!(action.size_estimate(), 20);
    assert_eq!(mated.size_estimate(), 16);
    assert_eq!(tick.size_estimate(), 12);
}

#[test]
fn tick_marker_of_a_world() {
    let mut world = World::new();
    world.add_bug(Bug::new(0, Pos::new(1, 1), 0));
    world.current_tick = 12;
    match SimulationEvent::tick_of(&world) {
        SimulationEvent::Tick { tick, bug_count } => assert_eq!((tick, bug_count), (12, 1)),
        _ => unreachable!(),
    }
}

#[test]
fn a_frame_is_a_little_endian_length_and_the_payload() {
    assert_eq!(frame(&[]).unwrap(), vec![0, 0, 0, 0]);
    assert_eq!(frame(&[7, 8, 9]).unwrap(), vec![3, 0, 0, 0, 7, 8, 9]);
    let long = vec![1u8; 0x01_02_03];
    let record = frame(&long).unwrap();
    assert_eq!(&record[..4], &[3, 2, 1, 0]);
    assert_eq!(&record[..4], &(long.len() as u32).to_le_bytes());
    assert_eq!(record.len(), long.len() + 4);
}

#[test]
fn frames_are_found_where_they_were_written() {
    let mut stream = frame(&[1, 2]).unwrap();
    stream.extend(frame(&[]).unwrap());
    stream.extend(frame(&[3, 4, 5]).unwrap());
    assert_eq!(next_frame(&stream, 0), Ok(Some((4, 6))));
    assert_eq!(next_frame(&stream, 6), Ok(Some((10, 10))));
    assert_eq!(next_frame(&stream, 10), Ok(Some((14, 17))));
    assert_eq!(&stream[14..17], &[3, 4, 5]);
    assert_eq!(next_frame(&stream, 17), Ok(None));
    assert_eq!(next_frame(&stream, 500), Ok(None));
}

#[test]
fn a_cut_prefix_ends_the_stream_and_a_cut_payload_is_an_error() {
    let stream = frame(&[1, 2, 3]).unwrap();
    assert_eq!(next_frame(&stream[..3], 0), Ok(None));
    assert_eq!(next_frame(&stream[..4], 0), Err(RecordError::Truncated));
    assert_eq!(next_frame(&stream[..6], 0), Err(RecordError::Truncated));
    assert_eq!(next_frame(&stream[..7], 0), Ok(Some((4, 7))));
    assert_eq!(RecordError::Truncated.message(), "stream ends inside a record");
}

#[test]
fn writer_counts_events_and_bytes() {
    let mut writer = EventWriter::new(1000);
    assert_eq!((writer.events_written(), writer.bytes_written()), (0, 0));
    writer.write_event(&[9; 12]).unwrap();
    writer.write_event(&[8; 3]).unwrap();
    assert_eq!(writer.events_written(), 2);
    assert_eq!(writer.bytes_written(), 16 + 7);
    let bytes = writer.take_events();
    assert_eq!(bytes.len(), 23);
    assert_eq!(&bytes[..4], &[12, 0, 0, 0]);
    assert_eq!(&bytes[16..], &[3, 0, 0, 0, 8, 8, 8]);
    assert!(writer.take_events().is_empty());
    // Handing bytes over does not reset the counters.
    writer.write_event(&[1]).unwrap();
    assert_eq!((writer.events_written(), writer.bytes_written()), (3, 28));
}

#[test]
fn snapshots_are_due_when_the_interval_has_elapsed() {
    let mut writer = EventWriter::new(1000);
    assert!(writer.snapshot_due(0));
    writer.maybe_write_snapshot(0, b"state at 0").unwrap();
    assert!(!writer.snapshot_due(1));
    assert!(!writer.snapshot_due(999));
    assert!(writer.snapshot_due(1000));
    let before = writer.take_snapshots();
    assert!(!before.is_empty());
    writer.maybe_write_snapshot(999, b"not due").unwrap();
    assert!(writer.take_snapshots().is_empty());
    writer.maybe_write_snapshot(1500, b"state at 1500").unwrap();
    assert!(!writer.take_snapshots().is_empty());
    assert!(!writer.snapshot_due(2499));
    assert!(writer.snapshot_due(2500));
    // A forced snapshot does not move the schedule.
    writer.write_snapshot(b"final").unwrap();
    assert!(!writer.snapshot_due(2499));
}

#[test]
fn the_interval_arithmetic_does_not_overflow() {
    let writer = EventWriter::new(i32::MIN);
    assert!(writer.snapshot_due(i32::MAX));
    assert!(!writer.snapshot_due(i32::MIN));
    let writer = EventWriter::new(i32::MAX);
    assert!(writer.snapshot_due(0));
    assert!(!writer.snapshot_due(-1));
}

fn lz4_of(data: &[u8]) -> Vec<u8> {
    let mut encoder = lz4::EncoderBuilder::new().level(4).build(Vec::new()).unwrap();
    encoder.write_all(data).unwrap();
    let (out, result) = encoder.finish();
    result.unwrap();
    out
}

#[test]
fn snapshots_are_compressed_then_framed() {
    let payload: Vec<u8> = (0..5000u32).map(|i| (i % 7) as u8).collect();
    let mut writer = EventWriter::new(1);
    writer.write_snapshot(&payload).unwrap();
    let stream = writer.take_snapshots();
    let compressed = lz4_of(&payload);
    assert!(compressed.len() < payload.len());
    assert_eq!(stream, frame(&compressed).unwrap());
    let mut decoded = Vec::new();
    lz4::Decoder::new(&stream[4..]).unwrap().read_to_end(&mut decoded).unwrap();
    assert_eq!(decoded, payload);
}

#[test]
fn snapshot_streams_unpack_to_what_was_written() {
    let first: Vec<u8> = (0..3000u32).map(|i| (i % 5) as u8).collect();
    let second = b"second snapshot".to_vec();
    let mut writer = EventWriter::new(10);
    writer.write_snapshot(&first).unwrap();
    writer.write_snapshot(&[]).unwrap();
    writer.write_snapshot(&second).unwrap();
    let stream = writer.take_snapshots();
    assert_eq!(unpack_snapshots(&stream), Ok(vec![first, vec![], second]));
    assert_eq!(unpack_snapshots(&[]), Ok(vec![]));
    assert_eq!(unpack_snapshots(&stream[..stream.len() - 1]), Err(RecordError::Truncated));
}

#[test]
fn a_record_that_is_no_lz4_frame_is_a_codec_error() {
    let stream = frame(b"this is not an lz4 frame at all").unwrap();
    assert_eq!(unpack_snapshots(&stream), Err(RecordError::Codec));
}

fn snapshot_at(tick: i32, offset: u64) -> Snapshot {
    let mut world = World::new();
    world.current_tick = tick;
    Snapshot::new(tick, world, offset)
}

#[test]
fn seeking_selects_the_latest_snapshot_at_or_before_the_tick() {
    let snapshots = vec![snapshot_at(0, 0), snapshot_at(1000, 7), snapshot_at(2000, 14)];
    assert_eq!(nearest_index(&snapshots, 1500), Some(1));
    assert_eq!(nearest_index(&snapshots, 1000), Some(1));
    assert_eq!(nearest_index(&snapshots, 999), Some(0));
    assert_eq!(nearest_index(&snapshots, 2000), Some(2));
    assert_eq!(nearest_index(&snapshots, i32::MAX), Some(2));
    assert_eq!(nearest_index(&snapshots, -1), None);
    assert_eq!(nearest_index(&[], 5), None);

    let reader = EventReader::new(Vec::new(), snapshots);
    let found = reader.get_nearest_snapshot(1500).unwrap();
    assert_eq!(found.tick, 1000);
    assert_eq!(found.world.current_tick, 1000);
    assert_ne!(found.tick, 2000);
    assert!(reader.get_nearest_snapshot(-5).is_none());
    assert_eq!(reader.snapshots().len(), 3);
}

#[test]
fn seeking_replays_from_the_offset_of_the_snapshot() {
    // Three tick markers of one byte each; a snapshot was taken after the
    // first and after the second.
    let mut writer = EventWriter::new(1);
    let mut snapshots = vec![];
    for tick in [0u8, 10, 20] {
        writer.write_event(&[tick]).unwrap();
        if tick < 20 {
            snapshots.push(snapshot_at(tick as i32, writer.bytes_written()));
        }
    }
    let mut reader = EventReader::new(writer.take_events(), snapshots);
    assert_eq!(reader.read_event(), Ok(Some(vec![0])));
    let start = reader.seek(15).unwrap();
    assert_eq!((start.tick, start.file_offset), (10, 10));
    assert_eq!(reader.current_tick(), 10);
    assert_eq!(reader.read_event(), Ok(Some(vec![20])));
    assert_eq!(reader.read_event(), Ok(None));
    assert_eq!(reader.read_event(), Ok(None));
    let start = reader.seek(5).unwrap();
    assert_eq!(start.tick, 0);
    assert_eq!(reader.read_event(), Ok(Some(vec![10])));
    assert!(reader.seek(-1).is_none());
    assert_eq!(reader.current_tick(), 0);
}

#[test]
fn reading_a_cut_event_stream_is_an_error() {
    let mut writer = EventWriter::new(1);
    writer.write_event(&[1, 2, 3]).unwrap();
    let mut bytes = writer.take_events();
    bytes.pop();
    let mut reader = EventReader::new(bytes, vec![]);
    assert_eq!(reader.read_event(), Err(RecordError::Truncated));
}

#[test]
fn tick_markers_set_the_current_tick() {
    let mut reader = EventReader::new(Vec::new(), Vec::new());
    assert_eq!(reader.current_tick(), 0);
    reader.track(&SimulationEvent::BugsMated { id1: 1, id2: 2 });
    assert_eq!(reader.current_tick(), 0);
    reader.track(&SimulationEvent::Tick { tick: 41, bug_count: 2 });
    assert_eq!(reader.current_tick(), 41);
}

#[test]
fn snapshot_clone_copies_the_world() {
    let mut snapshot = snapshot_at(3, 99);
    let id = snapshot.world.add_bug(Bug::new(0, Pos::new(4, 4), 0));
    let copy = snapshot.clone();
    snapshot.world.remove_bug(id);
    assert_eq!((copy.tick, copy.file_offset), (3, 99));
    assert_eq!(copy.world.bug_count(), 1);
}

#[test]
fn errors_have_words() {
    assert_eq!(RecordError::TooLong.message(), "record too long");
    assert_eq!(RecordError::Truncated.message(), "stream ends inside a record");
    assert_eq!(RecordError::Codec.message(), "compression failed");
}

#[test]
fn a_capture_is_tagged_with_the_length_of_the_event_stream() {
    let mut writer = EventWriter::new(5);
    writer.write_event(&[1, 2, 3]).unwrap();
    writer.write_event(&[4]).unwrap();
    let mut world = World::new();
    world.current_tick = 12;
    world.add_bug(Bug::new(0, Pos::new(7, 7), 0));
    let snapshot = writer.capture(12, world);
    assert_eq!((snapshot.tick, snapshot.file_offset), (12, 12));
    assert_eq!(snapshot.world.bug_count(), 1);
    assert_eq!((writer.events_written(), writer.bytes_written()), (2, 12));
    // Replay from the offset starts at the first event written afterwards.
    writer.write_event(&[9, 9]).unwrap();
    let mut reader = EventReader::new(writer.take_events(), vec![snapshot]);
    reader.seek(12).unwrap();
    assert_eq!(reader.read_event(), Ok(Some(vec![9, 9])));
}
