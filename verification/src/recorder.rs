use crate::event::SimulationEvent;
use crate::fixed::{clamp_i32, to_i32};
use crate::snapshot::{nearest_index, nearest_upto, ticks_of, Snapshot};
use crate::world::World;
use std::io::Read;
use std::io::Write;
use vstd::prelude::*;
use vstd::slice::{slice_subrange, slice_to_vec};

verus! {

/// `std::io::Error`, carried through as it comes.
#[verifier::external_type_specification]
#[verifier::external_body]
pub struct ExIoError(std::io::Error);

/// The LZ4 frame into which the encoder of the `lz4` crate compresses
/// `data` at the given level, with its other settings as they come; `None`
/// where it fails.
pub uninterp spec fn lz4_frame(level: u32, data: Seq<u8>) -> Option<Seq<u8>>;

/// The bytes that the decoder of the `lz4` crate reads out of `frame`;
/// `None` where it fails.
pub uninterp spec fn lz4_content(frame: Seq<u8>) -> Option<Seq<u8>>;

/// `lz4::EncoderBuilder::level` and `build`, `Write::write_all` and
/// `lz4::Encoder::finish`: compresses `data` into one LZ4 frame. Short of
/// memory running out, the frame, or the failure, is set by the level and
/// the data alone.
#[verifier::external_body]
fn lz4_compress(data: &[u8], level: u32) -> (r: Result<Vec<u8>, std::io::Error>)
    ensures
        match r {
            Ok(v) => lz4_frame(level, data@) == Some(v@),
            Err(_) => lz4_frame(level, data@) is None,
        },
{
    let mut encoder = lz4::EncoderBuilder::new().level(level).build(Vec::new())?;
    encoder.write_all(data)?;
    let (out, result) = encoder.finish();
    result?;
    Ok(out)
}

/// `lz4::Decoder::new` and `Read::read_to_end`: decompresses an LZ4 frame.
/// Short of memory running out, what is read out of a frame, or the
/// failure, is set by the frame alone.
#[verifier::external_body]
fn lz4_decompress(frame: &[u8]) -> (r: Result<Vec<u8>, std::io::Error>)
    ensures
        match r {
            Ok(v) => lz4_content(frame@) == Some(v@),
            Err(_) => lz4_content(frame@) is None,
        },
{
    let mut decoder = lz4::Decoder::new(frame)?;
    let mut out = Vec::new();
    decoder.read_to_end(&mut out)?;
    Ok(out)
}

/// The level at which snapshots are compressed.
pub const SNAPSHOT_LEVEL: u32 = 4;

/// What can go wrong with a record.
#[derive(Debug, Clone, Copy, PartialEq, Eq, Structural)]
pub enum RecordError {
    /// The payload is too long for a 32-bit length prefix, or the stream has
    /// outgrown its counters.
    TooLong,
    /// The stream ends inside a record.
    Truncated,
    /// Compression or decompression failed.
    Codec,
}

impl RecordError {
    /// The error in words.
    pub fn message(&self) -> (s: &'static str)
        ensures
            s@ == match self {
                RecordError::TooLong => "record too long"@,
                RecordError::Truncated => "stream ends inside a record"@,
                RecordError::Codec => "compression failed"@,
            },
    {
        match self {
            RecordError::TooLong => "record too long",
            RecordError::Truncated => "stream ends inside a record",
            RecordError::Codec => "compression failed",
        }
    }
}

/// The four bytes of a 32-bit length, least significant first.
pub open spec fn le32(n: nat) -> Seq<u8> {
    seq![
        (n % 256) as u8,
        (n / 256 % 256) as u8,
        (n / 65536 % 256) as u8,
        (n / 16777216 % 256) as u8,
    ]
}

/// The length that the four bytes at `offset` spell, least significant first.
pub open spec fn le32_at(stream: Seq<u8>, offset: int) -> nat {
    (stream[offset] + 256 * stream[offset + 1] + 65536 * stream[offset + 2] + 16777216
        * stream[offset + 3]) as nat
}

/// A record: the length of the payload in four bytes, then the payload.
pub open spec fn framed(payload: Seq<u8>) -> Seq<u8> {
    le32(payload.len()) + payload
}

/// What stands at `offset` of a stream of records: nothing, if fewer than
/// four bytes are left; a record whose payload runs from the first to the
/// second place given; or a record that the stream cuts short.
pub open spec fn frame_at(stream: Seq<u8>, offset: int) -> Result<Option<(int, int)>, RecordError> {
    if offset < 0 || offset + 4 > stream.len() {
        Ok(None)
    } else if offset + 4 + le32_at(stream, offset) > stream.len() {
        Err(RecordError::Truncated)
    } else {
        Ok(Some((offset + 4, offset + 4 + le32_at(stream, offset))))
    }
}

/// The contents of the first `fuel` snapshots of a stream from `offset`
/// on, each decompressed as it is reached, or the first error on the way: a
/// record that the stream cuts short, or one whose payload the decoder
/// fails on.
pub open spec fn unpacked_from(stream: Seq<u8>, offset: int, fuel: nat) -> Result<
    Seq<Seq<u8>>,
    RecordError,
>
    decreases fuel,
{
    if fuel == 0 {
        Ok(Seq::empty())
    } else {
        match frame_at(stream, offset) {
            Err(e) => Err(e),
            Ok(None) => Ok(Seq::empty()),
            Ok(Some((from, to))) => match lz4_content(stream.subrange(from, to)) {
                None => Err(RecordError::Codec),
                Some(content) => match unpacked_from(stream, to, (fuel - 1) as nat) {
                    Err(e) => Err(e),
                    Ok(rest) => Ok(seq![content] + rest),
                },
            },
        }
    }
}

/// The contents of all snapshots of a stream, or the first error on the
/// way.
pub open spec fn unpacked(stream: Seq<u8>) -> Result<Seq<Seq<u8>>, RecordError> {
    unpacked_from(stream, 0, stream.len() + 1)
}

/// A record that was written can be read back: behind any stream, and
/// before anything that follows, the record stands at its offset with its
/// payload unchanged.
pub proof fn lemma_frame_roundtrip(head: Seq<u8>, payload: Seq<u8>, tail: Seq<u8>)
    requires
        payload.len() <= u32::MAX,
    ensures
        frame_at(head + framed(payload) + tail, head.len() as int) == Ok::<
            Option<(int, int)>,
            RecordError,
        >(Some(((head.len() + 4) as int, (head.len() + 4 + payload.len()) as int))),
        (head + framed(payload) + tail).subrange(
            (head.len() + 4) as int,
            (head.len() + 4 + payload.len()) as int,
        ) == payload,
{
    let stream = head + framed(payload) + tail;
    let at = head.len() as int;
    let n = payload.len();
    assert(stream[at] == (n % 256) as u8);
    assert(stream[at + 1] == (n / 256 % 256) as u8);
    assert(stream[at + 2] == (n / 65536 % 256) as u8);
    assert(stream[at + 3] == (n / 16777216 % 256) as u8);
    assert(le32_at(stream, at) == n);
    assert(stream.subrange(at + 4, at + 4 + n) =~= payload);
}

/// Wraps a payload into a record.
pub fn frame(payload: &[u8]) -> (r: Result<Vec<u8>, RecordError>)
    ensures
        match r {
            Ok(v) => payload@.len() <= u32::MAX && v@ == framed(payload@),
            Err(e) => payload@.len() > u32::MAX && e == RecordError::TooLong,
        },
{
    let n: usize = payload.len();
    if n > u32::MAX as usize {
        return Err(RecordError::TooLong);
    }
    let mut out: Vec<u8> = Vec::new();
    out.push((n % 256) as u8);
    out.push((n / 256 % 256) as u8);
    out.push((n / 65536 % 256) as u8);
    out.push((n / 16777216 % 256) as u8);
    out.extend_from_slice(payload);
    assert(out@ =~= framed(payload@));
    Ok(out)
}

/// Finds the record at `offset` of a stream of records.
pub fn next_frame(stream: &[u8], offset: usize) -> (r: Result<Option<(usize, usize)>, RecordError>)
    ensures
        match r {
            Ok(Some((from, to))) => frame_at(stream@, offset as int) == Ok::<
                Option<(int, int)>,
                RecordError,
            >(Some((from as int, to as int))) && offset < from <= to <= stream@.len(),
            Ok(None) => frame_at(stream@, offset as int) == Ok::<Option<(int, int)>, RecordError>(
                None,
            ),
            Err(e) => frame_at(stream@, offset as int) == Err::<Option<(int, int)>, RecordError>(e),
        },
{
    if offset > stream.len() || stream.len() - offset < 4 {
        return Ok(None);
    }
    let n: u64 = stream[offset] as u64 + 256 * stream[offset + 1] as u64 + 65536 * stream[offset
        + 2] as u64 + 16777216 * stream[offset + 3] as u64;
    if n > (stream.len() - offset - 4) as u64 {
        return Err(RecordError::Truncated);
    }
    Ok(Some((offset + 4, offset + 4 + n as usize)))
}

/// What a writer is.
pub struct WriterModel {
    /// Records of events not yet handed over.
    pub events: Seq<u8>,
    /// Records of snapshots not yet handed over.
    pub snapshots: Seq<u8>,
    pub events_written: usize,
    /// Length of the event stream so far.
    pub bytes_written: u64,
    pub last_snapshot_tick: i32,
    pub snapshot_interval: i32,
}

impl WriterModel {
    /// Whether a snapshot is due at `tick`: the interval has elapsed since
    /// the last one.
    pub open spec fn due(self, tick: i32) -> bool {
        tick - self.last_snapshot_tick >= self.snapshot_interval
    }

    /// Whether an event payload of `len` bytes can still be recorded: its
    /// length fits the prefix, and the counters of events and bytes have
    /// room.
    pub open spec fn fits(self, len: nat) -> bool {
        len <= u32::MAX && self.bytes_written + 4 + len <= u64::MAX && self.events_written
            < usize::MAX
    }

    /// The writer after an event payload has been recorded.
    pub open spec fn logged(self, payload: Seq<u8>) -> WriterModel {
        WriterModel {
            events: self.events + framed(payload),
            events_written: (self.events_written + 1) as usize,
            bytes_written: (self.bytes_written + 4 + payload.len()) as u64,
            ..self
        }
    }

    /// The writer after a compressed snapshot has been recorded.
    pub open spec fn stored(self, compressed: Seq<u8>) -> WriterModel {
        WriterModel { snapshots: self.snapshots + framed(compressed), ..self }
    }
}

/// Builds the event stream and the snapshot stream of a run, record by
/// record, and counts what it has written.
pub struct EventWriter {
    events: Vec<u8>,
    snapshots: Vec<u8>,
    events_written: usize,
    bytes_written: u64,
    last_snapshot_tick: i32,
    snapshot_interval: i32,
}

impl View for EventWriter {
    type V = WriterModel;

    closed spec fn view(&self) -> WriterModel {
        WriterModel {
            events: self.events@,
            snapshots: self.snapshots@,
            events_written: self.events_written,
            bytes_written: self.bytes_written,
            last_snapshot_tick: self.last_snapshot_tick,
            snapshot_interval: self.snapshot_interval,
        }
    }
}

impl EventWriter {
    /// A writer that has written nothing and whose first snapshot is due at
    /// tick 0.
    pub fn new(snapshot_interval: i32) -> (w: Self)
        ensures
            w@ == (WriterModel {
                events: Seq::empty(),
                snapshots: Seq::empty(),
                events_written: 0,
                bytes_written: 0,
                last_snapshot_tick: clamp_i32(-snapshot_interval),
                snapshot_interval,
            }),
    {
        Self {
            events: Vec::new(),
            snapshots: Vec::new(),
            events_written: 0,
            bytes_written: 0,
            last_snapshot_tick: to_i32(-(snapshot_interval as i64)),
            snapshot_interval,
        }
    }

    /// Appends one serialized event to the event stream.
    pub fn write_event(&mut self, encoded: &[u8]) -> (r: Result<(), RecordError>)
        ensures
            match r {
                Ok(_) => old(self)@.fits(encoded@.len()) && final(self)@ == old(self)@.logged(
                    encoded@,
                ),
                Err(e) => !old(self)@.fits(encoded@.len()) && e == RecordError::TooLong && final(self)@ == old(self)@,
            },
    {
        if encoded.len() > u32::MAX as usize || self.bytes_written > u64::MAX - 4
            - encoded.len() as u64 || self.events_written == usize::MAX {
            return Err(RecordError::TooLong);
        }
        match frame(encoded) {
            Ok(record) => {
                self.events.extend_from_slice(record.as_slice());
                assert(self.events@ =~= old(self).events@ + framed(encoded@));
                self.events_written = self.events_written + 1;
                self.bytes_written = self.bytes_written + 4 + encoded.len() as u64;
                Ok(())
            },
            Err(e) => Err(e),
        }
    }

    /// Whether a snapshot is due at `tick`.
    pub fn snapshot_due(&self, tick: i32) -> (due: bool)
        ensures
            due == self@.due(tick),
    {
        tick as i64 - self.last_snapshot_tick as i64 >= self.snapshot_interval as i64
    }

    /// Appends one compressed snapshot to the snapshot stream.
    pub fn append_snapshot(&mut self, compressed: &[u8]) -> (r: Result<(), RecordError>)
        ensures
            match r {
                Ok(_) => compressed@.len() <= u32::MAX && final(self)@ == old(self)@.stored(
                    compressed@,
                ),
                Err(e) => compressed@.len() > u32::MAX && e == RecordError::TooLong && final(self)@ == old(self)@,
            },
    {
        match frame(compressed) {
            Ok(record) => {
                self.snapshots.extend_from_slice(record.as_slice());
                assert(self.snapshots@ =~= old(self).snapshots@ + framed(compressed@));
                Ok(())
            },
            Err(e) => Err(e),
        }
    }

    /// The snapshot of `world` at `tick` as this writer takes it: it is
    /// tagged with the length of the event stream so far, the offset from
    /// which events are to be replayed.
    pub fn capture(&self, tick: i32, world: World) -> (s: Snapshot)
        ensures
            s.tick == tick,
            s.world == world,
            s.file_offset == self@.bytes_written,
    {
        Snapshot::new(tick, world, self.bytes_written)
    }

    /// Compresses one serialized snapshot and appends the frame, as one
    /// record, to the snapshot stream.
    pub fn write_snapshot(&mut self, encoded: &[u8]) -> (r: Result<(), RecordError>)
        ensures
            match lz4_frame(SNAPSHOT_LEVEL, encoded@) {
                Some(c) => if c.len() <= u32::MAX {
                    r is Ok && final(self)@ == old(self)@.stored(c)
                } else {
                    r == Err::<(), RecordError>(RecordError::TooLong) && final(self)@ == old(self)@
                },
                None => r == Err::<(), RecordError>(RecordError::Codec) && final(self)@ == old(self)@,
            },
    {
        match lz4_compress(encoded, SNAPSHOT_LEVEL) {
            Ok(compressed) => self.append_snapshot(compressed.as_slice()),
            Err(_) => Err(RecordError::Codec),
        }
    }

    /// Writes a snapshot if one is due at `tick`, and notes the tick if it
    /// was written.
    pub fn maybe_write_snapshot(&mut self, tick: i32, encoded: &[u8]) -> (r: Result<
        (),
        RecordError,
    >)
        ensures
            !old(self)@.due(tick) ==> r is Ok && final(self)@ == old(self)@,
            old(self)@.due(tick) ==> match lz4_frame(SNAPSHOT_LEVEL, encoded@) {
                Some(c) => if c.len() <= u32::MAX {
                    r is Ok && final(self)@ == (WriterModel {
                        last_snapshot_tick: tick,
                        ..old(self)@.stored(c)
                    })
                } else {
                    r == Err::<(), RecordError>(RecordError::TooLong) && final(self)@ == old(self)@
                },
                None => r == Err::<(), RecordError>(RecordError::Codec) && final(self)@ == old(self)@,
            },
    {
        if self.snapshot_due(tick) {
            match self.write_snapshot(encoded) {
                Ok(_) => {
                    self.last_snapshot_tick = tick;
                    Ok(())
                },
                Err(e) => Err(e),
            }
        } else {
            Ok(())
        }
    }

    /// Hands over the event records written since the last call.
    pub fn take_events(&mut self) -> (bytes: Vec<u8>)
        ensures
            bytes@ == old(self)@.events,
            final(self)@ == (WriterModel { events: Seq::empty(), ..old(self)@ }),
    {
        let mut bytes: Vec<u8> = Vec::new();
        std::mem::swap(&mut bytes, &mut self.events);
        bytes
    }

    /// Hands over the snapshot records written since the last call.
    pub fn take_snapshots(&mut self) -> (bytes: Vec<u8>)
        ensures
            bytes@ == old(self)@.snapshots,
            final(self)@ == (WriterModel { snapshots: Seq::empty(), ..old(self)@ }),
    {
        let mut bytes: Vec<u8> = Vec::new();
        std::mem::swap(&mut bytes, &mut self.snapshots);
        bytes
    }

    /// The number of events recorded so far.
    pub fn events_written(&self) -> (n: usize)
        ensures
            n == self@.events_written,
    {
        self.events_written
    }

    /// The length of the event stream so far, in bytes.
    pub fn bytes_written(&self) -> (n: u64)
        ensures
            n == self@.bytes_written,
    {
        self.bytes_written
    }
}

/// Splits a snapshot stream into its records and decompresses each.
pub fn unpack_snapshots(stream: &[u8]) -> (r: Result<Vec<Vec<u8>>, RecordError>)
    ensures
        match unpacked(stream@) {
            Ok(contents) => r is Ok && r->Ok_0@.len() == contents.len() && forall|i: int|
                0 <= i < contents.len() ==> (#[trigger] r->Ok_0@[i])@ == contents[i],
            Err(e) => r == Err::<Vec<Vec<u8>>, RecordError>(e),
        },
{
    let mut out: Vec<Vec<u8>> = Vec::new();
    let mut offset: usize = 0;
    let ghost mut done: Seq<Seq<u8>> = Seq::empty();
    loop
        invariant
            offset <= stream@.len(),
            done.len() == out@.len(),
            done.len() <= offset,
            forall|i: int| 0 <= i < out@.len() ==> (#[trigger] out@[i])@ == done[i],
            match unpacked_from(stream@, offset as int, (stream@.len() + 1 - done.len()) as nat) {
                Ok(rest) => unpacked(stream@) == Ok::<Seq<Seq<u8>>, RecordError>(done + rest),
                Err(e) => unpacked(stream@) == Err::<Seq<Seq<u8>>, RecordError>(e),
            },
        decreases stream@.len() - offset,
    {
        match next_frame(stream, offset) {
            Err(e) => {
                return Err(e);
            },
            Ok(None) => {
                assert(done + Seq::<Seq<u8>>::empty() =~= done);
                return Ok(out);
            },
            Ok(Some((from, to))) => {
                let ghost fuel = (stream@.len() + 1 - done.len()) as nat;
                assert(fuel > 0);
                let payload = slice_subrange(stream, from, to);
                match lz4_decompress(payload) {
                    Ok(content) => {
                        proof {
                            let rest = unpacked_from(stream@, to as int, (fuel - 1) as nat);
                            if rest is Ok {
                                assert(done + (seq![content@] + rest->Ok_0) =~= done.push(
                                    content@,
                                ) + rest->Ok_0);
                            }
                            done = done.push(content@);
                        }
                        out.push(content);
                        offset = to;
                    },
                    Err(_) => {
                        return Err(RecordError::Codec);
                    },
                }
            },
        }
    }
}

/// What a reader is.
pub struct ReaderModel {
    pub events: Seq<u8>,
    /// Offset of the next record to read.
    pub cursor: usize,
    pub snapshots: Seq<Snapshot>,
    pub current_tick: i32,
}

impl ReaderModel {
    /// The reader after seeking to `tick`: it stands at the offset and the
    /// tick of the last snapshot taken at or before `tick`, or where it
    /// stood if there is none.
    pub open spec fn sought(self, tick: i32) -> ReaderModel {
        match nearest_upto(ticks_of(self.snapshots), tick, self.snapshots.len()) {
            Some(i) => ReaderModel {
                cursor: if self.snapshots[i].file_offset <= usize::MAX {
                    self.snapshots[i].file_offset as usize
                } else {
                    usize::MAX
                },
                current_tick: self.snapshots[i].tick,
                ..self
            },
            None => self,
        }
    }

    /// The reader after it has been shown an event it read: a tick marker
    /// sets the current tick.
    pub open spec fn shown(self, event: SimulationEvent) -> ReaderModel {
        match event {
            SimulationEvent::Tick { tick, .. } => ReaderModel { current_tick: tick, ..self },
            _ => self,
        }
    }
}

/// Reads an event stream record by record, and finds the snapshot to start
/// from for a tick.
pub struct EventReader {
    events: Vec<u8>,
    cursor: usize,
    snapshots: Vec<Snapshot>,
    current_tick: i32,
}

impl View for EventReader {
    type V = ReaderModel;

    closed spec fn view(&self) -> ReaderModel {
        ReaderModel {
            events: self.events@,
            cursor: self.cursor,
            snapshots: self.snapshots@,
            current_tick: self.current_tick,
        }
    }
}

impl EventReader {
    /// A reader at the start of an event stream.
    pub fn new(events: Vec<u8>, snapshots: Vec<Snapshot>) -> (r: Self)
        ensures
            r@ == (ReaderModel { events: events@, cursor: 0, snapshots: snapshots@, current_tick: 0 }),
    {
        Self { events, cursor: 0, snapshots, current_tick: 0 }
    }

    /// Reads the payload of the next record; `None` at the end of the
    /// stream.
    pub fn read_event(&mut self) -> (r: Result<Option<Vec<u8>>, RecordError>)
        ensures
            match r {
                Ok(Some(payload)) => match frame_at(old(self)@.events, old(self)@.cursor as int) {
                    Ok(Some((from, to))) => payload@ == old(self)@.events.subrange(from, to)
                        && final(self)@ == (ReaderModel { cursor: to as usize, ..old(self)@ }),
                    _ => false,
                },
                Ok(None) => frame_at(old(self)@.events, old(self)@.cursor as int) == Ok::<
                    Option<(int, int)>,
                    RecordError,
                >(None) && final(self)@ == old(self)@,
                Err(e) => frame_at(old(self)@.events, old(self)@.cursor as int) == Err::<
                    Option<(int, int)>,
                    RecordError,
                >(e) && final(self)@ == old(self)@,
            },
    {
        match next_frame(self.events.as_slice(), self.cursor) {
            Err(e) => Err(e),
            Ok(None) => Ok(None),
            Ok(Some((from, to))) => {
                let payload = slice_to_vec(slice_subrange(self.events.as_slice(), from, to));
                self.cursor = to;
                Ok(Some(payload))
            },
        }
    }

    /// Takes note of an event that was read.
    pub fn track(&mut self, event: &SimulationEvent)
        ensures
            final(self)@ == old(self)@.shown(*event),
    {
        match event {
            SimulationEvent::Tick { tick, .. } => {
                self.current_tick = *tick;
            },
            _ => {},
        }
    }

    /// The snapshot to start from when seeking to `tick`: the last one
    /// taken at or before it.
    pub fn get_nearest_snapshot(&self, tick: i32) -> (r: Option<&Snapshot>)
        ensures
            match r {
                Some(s) => match nearest_upto(
                    ticks_of(self@.snapshots),
                    tick,
                    self@.snapshots.len(),
                ) {
                    Some(i) => *s == self@.snapshots[i],
                    None => false,
                },
                None => nearest_upto(ticks_of(self@.snapshots), tick, self@.snapshots.len())
                    is None,
            },
            r is Some ==> r->0.tick <= tick,
    {
        match nearest_index(self.snapshots.as_slice(), tick) {
            Some(i) => Some(&self.snapshots[i]),
            None => None,
        }
    }

    /// Moves to the last snapshot taken at or before `tick`, from whose
    /// offset the events are to be replayed, and returns it.
    pub fn seek(&mut self, tick: i32) -> (r: Option<&Snapshot>)
        ensures
            final(self)@ == old(self)@.sought(tick),
            match r {
                Some(s) => match nearest_upto(
                    ticks_of(old(self)@.snapshots),
                    tick,
                    old(self)@.snapshots.len(),
                ) {
                    Some(i) => *s == old(self)@.snapshots[i],
                    None => false,
                },
                None => nearest_upto(
                    ticks_of(old(self)@.snapshots),
                    tick,
                    old(self)@.snapshots.len(),
                ) is None,
            },
    {
        match nearest_index(self.snapshots.as_slice(), tick) {
            Some(i) => {
                let offset: u64 = self.snapshots[i].file_offset;
                self.cursor = if offset <= usize::MAX as u64 {
                    offset as usize
                } else {
                    usize::MAX
                };
                self.current_tick = self.snapshots[i].tick;
                Some(&self.snapshots[i])
            },
            None => None,
        }
    }

    /// All snapshots.
    pub fn snapshots(&self) -> (s: &[Snapshot])
        ensures
            s@ == self@.snapshots,
    {
        self.snapshots.as_slice()
    }

    /// The tick of the last tick marker read, or of the snapshot sought.
    pub fn current_tick(&self) -> (t: i32)
        ensures
            t == self@.current_tick,
    {
        self.current_tick
    }
}

} // verus!
