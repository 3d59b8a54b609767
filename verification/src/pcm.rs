//! 16-bit little-endian PCM: decoding, downmixing, and the receiver that turns
//! the stereo messages of one egress stream into a mono segment.

use vstd::prelude::*;

use crate::clock::timeline_start_sample;

verus! {

/// The signed value of a little-endian byte pair.
pub open spec fn s16(lo: u8, hi: u8) -> int {
    let unsigned = lo + 256 * hi;
    if unsigned < 32768 {
        unsigned
    } else {
        unsigned - 65536
    }
}

/// The two's complement bit pattern of a sample, as an unsigned number.
pub open spec fn s16_bits(sample: i16) -> int {
    if sample < 0 {
        sample + 65536
    } else {
        sample as int
    }
}

/// The samples of a byte string; an odd last byte stands for nothing.
pub open spec fn decode_s16le(bytes: Seq<u8>) -> Seq<i16> {
    Seq::new(bytes.len() / 2, |i: int| s16(bytes[2 * i], bytes[2 * i + 1]) as i16)
}

/// The bytes of a sample string, low byte first.
pub open spec fn encode_s16le(samples: Seq<i16>) -> Seq<u8> {
    Seq::new(
        2 * samples.len(),
        |i: int|
            if i % 2 == 0 {
                (s16_bits(samples[i / 2]) % 256) as u8
            } else {
                (s16_bits(samples[i / 2]) / 256) as u8
            },
    )
}

/// Half of `sum`, rounded towards zero.
pub open spec fn half_towards_zero(sum: int) -> int {
    if sum >= 0 {
        sum / 2
    } else {
        -((-sum) / 2)
    }
}

/// The mono samples of interleaved stereo bytes: one per whole frame, the mean
/// of its two channels rounded towards zero.
pub open spec fn mono_frames(bytes: Seq<u8>) -> Seq<i16> {
    Seq::new(
        bytes.len() / 4,
        |i: int|
            half_towards_zero(
                s16(bytes[4 * i], bytes[4 * i + 1]) + s16(bytes[4 * i + 2], bytes[4 * i + 3]),
            ) as i16,
    )
}

/// The bytes behind the last whole stereo frame.
pub open spec fn incomplete_frame(bytes: Seq<u8>) -> Seq<u8> {
    bytes.skip(4 * (bytes.len() / 4) as int)
}

/// Reads a sample from its two bytes.
pub fn sample_from_le(lo: u8, hi: u8) -> (sample: i16)
    ensures
        sample == s16(lo, hi),
{
    let unsigned: i32 = lo as i32 + 256 * (hi as i32);
    if unsigned < 32768 {
        unsigned as i16
    } else {
        (unsigned - 65536) as i16
    }
}

/// Appends the two bytes of a sample.
fn push_sample(output: &mut Vec<u8>, sample: i16)
    ensures
        final(output)@ == old(output)@ + encode_s16le(seq![sample]),
{
    let bits: i32 = if sample < 0 {
        sample as i32 + 65536
    } else {
        sample as i32
    };
    output.push((bits % 256) as u8);
    output.push((bits / 256) as u8);
    assert(output@ =~= old(output)@ + encode_s16le(seq![sample]));
}

/// Half of a sum of two samples, rounded towards zero.
fn halve(sum: i32) -> (half: i16)
    requires
        -65536 <= sum <= 65534,
    ensures
        half == half_towards_zero(sum as int),
{
    if sum >= 0 {
        (sum / 2) as i16
    } else {
        (-((-sum) / 2)) as i16
    }
}

proof fn lemma_encode_push(samples: Seq<i16>, sample: i16)
    ensures
        encode_s16le(samples.push(sample)) == encode_s16le(samples) + encode_s16le(seq![sample]),
{
    let whole = encode_s16le(samples.push(sample));
    let parts = encode_s16le(samples) + encode_s16le(seq![sample]);
    assert forall|i: int| 0 <= i < whole.len() implies whole[i] == parts[i] by {
        if i < 2 * samples.len() {
            assert(samples.push(sample)[i / 2] == samples[i / 2]);
        } else {
            assert(i / 2 == samples.len());
            assert((i - 2 * samples.len()) / 2 == 0);
            assert((i - 2 * samples.len()) % 2 == i % 2);
        }
    }
    assert(whole =~= parts);
}

/// Downmixes interleaved stereo frames to mono samples, which are appended to
/// `output`. The number of frames comes back; an incomplete last frame is left
/// to the caller.
pub fn downmix_stereo_s16le(input: &[u8], output: &mut Vec<u8>) -> (frames: usize)
    ensures
        frames == input@.len() / 4,
        final(output)@ == old(output)@ + encode_s16le(mono_frames(input@)),
{
    let len: usize = input.len();
    let frames: usize = len / 4;
    output.reserve(frames * 2);
    let mut i: usize = 0;
    let ghost before = output@;
    proof {
        assert(encode_s16le(mono_frames(input@).take(0)) =~= Seq::empty());
        assert(output@ =~= before + encode_s16le(mono_frames(input@).take(0)));
    }
    while i < frames
        invariant
            i <= frames,
            len == input@.len(),
            frames == len / 4,
            output@ == before + encode_s16le(mono_frames(input@).take(i as int)),
        decreases frames - i,
    {
        let left = sample_from_le(input[4 * i], input[4 * i + 1]);
        let right = sample_from_le(input[4 * i + 2], input[4 * i + 3]);
        let mono = halve(left as i32 + right as i32);
        let ghost head = mono_frames(input@).take(i as int);
        push_sample(output, mono);
        proof {
            assert(mono == mono_frames(input@)[i as int]);
            assert(mono_frames(input@).take(i + 1) =~= head.push(mono));
            lemma_encode_push(head, mono);
            assert(output@ =~= before + encode_s16le(mono_frames(input@).take(i + 1)));
        }
        i += 1;
    }
    proof {
        assert(mono_frames(input@).take(frames as int) =~= mono_frames(input@));
    }
    frames
}

/// What is known of a segment while it is being received.
#[derive(Clone, Copy, Debug, PartialEq, Eq, Structural)]
pub struct SegmentProgress {
    /// Nanoseconds from the start of the recording to the first frame; 0 until one has come.
    pub first_ns: u64,
    /// Where the segment starts on the common timeline, in samples.
    pub timeline_start: u64,
    /// Mono samples received so far.
    pub samples: u64,
}

/// What has to be done after a message, in the order of the fields.
#[derive(Debug)]
pub struct PcmStep {
    /// Progress to store before the audio is written: the first frame was just seen.
    pub opened: Option<SegmentProgress>,
    /// Mono bytes to append to the segment file.
    pub mono: Vec<u8>,
    /// Progress to store once the file has been flushed.
    pub checkpoint: Option<SegmentProgress>,
}

/// The end of a segment.
#[derive(Clone, Copy, Debug, PartialEq, Eq, Structural)]
pub struct SegmentEnd {
    pub first_ns: u64,
    pub last_ns: u64,
    pub timeline_start: u64,
    pub samples: u64,
    /// Bytes of an incomplete last frame, which are dropped.
    pub discarded: usize,
}

/// Progress is stored once in so many samples: five seconds.
pub const CHECKPOINT_SAMPLES: u64 = 240_000;

/// Receiver of one egress stream.
#[derive(Debug)]
pub struct PcmReceiver {
    progress: SegmentProgress,
    pending: Vec<u8>,
}

/// Progress after the first frame was seen at `elapsed_ns`.
pub open spec fn opened_at(progress: SegmentProgress, elapsed_ns: u64) -> SegmentProgress {
    if progress.first_ns == 0 {
        SegmentProgress {
            first_ns: elapsed_ns,
            timeline_start: crate::clock::timeline_sample(elapsed_ns as int) as u64,
            samples: progress.samples,
        }
    } else {
        progress
    }
}

/// The progress, the bytes of the incomplete frame and the mono bytes that a message gives.
pub open spec fn after_message(
    progress: SegmentProgress,
    pending: Seq<u8>,
    bytes: Seq<u8>,
    elapsed_ns: u64,
) -> (SegmentProgress, Seq<u8>, Seq<u8>) {
    let all = pending + bytes;
    let frames = all.len() / 4;
    let begun = opened_at(progress, elapsed_ns);
    if frames == 0 {
        (progress, incomplete_frame(all), Seq::empty())
    } else {
        (
            SegmentProgress { samples: (begun.samples + frames) as u64, ..begun },
            incomplete_frame(all),
            encode_s16le(mono_frames(all)),
        )
    }
}

/// The mono bytes of a step; none where nothing has to be done.
pub open spec fn step_mono(step: Option<PcmStep>) -> Seq<u8> {
    match step {
        Some(s) => s.mono@,
        None => Seq::empty(),
    }
}

impl PcmReceiver {
    /// What has been received so far.
    pub closed spec fn progress(self) -> SegmentProgress {
        self.progress
    }

    /// The bytes of the frame that is still incomplete.
    pub closed spec fn pending(self) -> Seq<u8> {
        self.pending@
    }

    /// A receiver that continues a segment where its stored progress ends.
    pub fn new(first_ns: u64, timeline_start: u64, samples: u64) -> (receiver: PcmReceiver)
        ensures
            receiver.progress() == (SegmentProgress { first_ns, timeline_start, samples }),
            receiver.pending() == Seq::<u8>::empty(),
    {
        PcmReceiver {
            progress: SegmentProgress { first_ns, timeline_start, samples },
            pending: Vec::new(),
        }
    }

    /// Takes a binary message that came `elapsed_ns` after the recording
    /// started. `None`: no whole frame is there yet and nothing has to be done.
    pub fn on_binary(&mut self, bytes: &[u8], elapsed_ns: u64) -> (step: Option<PcmStep>)
        requires
            old(self).pending().len() + bytes@.len() <= usize::MAX,
            old(self).progress().samples + (old(self).pending().len() + bytes@.len()) / 4
                <= u64::MAX,
        ensures
            (final(self).progress(), final(self).pending(), step_mono(step)) == after_message(
                old(self).progress(),
                old(self).pending(),
                bytes@,
                elapsed_ns,
            ),
            ({
                let all = old(self).pending() + bytes@;
                let frames = all.len() / 4;
                let begun = opened_at(old(self).progress(), elapsed_ns);
                let now = SegmentProgress { samples: (begun.samples + frames) as u64, ..begun };
                &&& final(self).pending() == incomplete_frame(all)
                &&& frames == 0 ==> {
                    &&& step is None
                    &&& final(self).progress() == old(self).progress()
                }
                &&& frames > 0 ==> {
                    &&& step is Some
                    &&& final(self).progress() == now
                    &&& step->0.opened == (if old(self).progress().first_ns == 0 {
                        Some(begun)
                    } else {
                        None
                    })
                    &&& step->0.mono@ == encode_s16le(mono_frames(all))
                    &&& step->0.checkpoint == (if now.samples % CHECKPOINT_SAMPLES < frames {
                        Some(now)
                    } else {
                        None
                    })
                    &&& step->0.checkpoint is Some <==> old(self).progress().samples / 240_000
                        < final(self).progress().samples / 240_000
                }
            }),
    {
        let ghost all = self.pending@ + bytes@;
        self.pending.extend_from_slice(bytes);
        assert(self.pending@ =~= all);
        let stereo_bytes: usize = self.pending.len() / 4 * 4;
        if stereo_bytes == 0 {
            assert(incomplete_frame(all) =~= all);
            return None;
        }
        let mut mono: Vec<u8> = Vec::new();
        let rest = self.pending.split_off(stereo_bytes);
        let frames: usize = downmix_stereo_s16le(self.pending.as_slice(), &mut mono);
        proof {
            assert(self.pending@ =~= all.take(stereo_bytes as int));
            assert(mono_frames(self.pending@) =~= mono_frames(all));
            assert(rest@ =~= incomplete_frame(all));
            assert(mono@ =~= encode_s16le(mono_frames(all)));
        }
        let mut opened: Option<SegmentProgress> = None;
        if self.progress.first_ns == 0 {
            self.progress.first_ns = elapsed_ns;
            self.progress.timeline_start = timeline_start_sample(elapsed_ns, 0);
            opened = Some(self.progress);
        }
        proof {
            law_progress_is_stored_every_five_seconds(
                self.progress.samples as int,
                frames as int,
            );
        }
        self.progress.samples = self.progress.samples + frames as u64;
        self.pending = rest;
        let checkpoint = if self.progress.samples % CHECKPOINT_SAMPLES < frames as u64 {
            Some(self.progress)
        } else {
            None
        };
        Some(PcmStep { opened, mono, checkpoint })
    }

    /// Ends the segment `elapsed_ns` after the recording started.
    pub fn finish(&self, elapsed_ns: u64) -> (end: SegmentEnd)
        ensures
            end.first_ns == self.progress().first_ns,
            end.timeline_start == self.progress().timeline_start,
            end.samples == self.progress().samples,
            end.discarded == self.pending().len(),
            end.last_ns == if elapsed_ns >= self.progress().first_ns {
                elapsed_ns
            } else {
                self.progress().first_ns
            },
    {
        SegmentEnd {
            first_ns: self.progress.first_ns,
            last_ns: if elapsed_ns >= self.progress.first_ns {
                elapsed_ns
            } else {
                self.progress.first_ns
            },
            timeline_start: self.progress.timeline_start,
            samples: self.progress.samples,
            discarded: self.pending.len(),
        }
    }
}

/// What decoding gives back of an encoding: the same samples.
pub proof fn law_decode_inverts_encode(samples: Seq<i16>)
    ensures
        decode_s16le(encode_s16le(samples)) == samples,
{
    let bytes = encode_s16le(samples);
    assert forall|i: int| 0 <= i < samples.len() implies decode_s16le(bytes)[i] == samples[i] by {
        assert((2 * i) / 2 == i && (2 * i + 1) / 2 == i && (2 * i) % 2 == 0 && (2 * i + 1) % 2
            == 1);
    }
    assert(decode_s16le(bytes) =~= samples);
}

/// Splitting a stereo stream at any byte changes nothing, as long as the bytes
/// of the incomplete frame are carried over.
pub proof fn law_split_stream(first: Seq<u8>, second: Seq<u8>)
    ensures
        mono_frames(first) + mono_frames(incomplete_frame(first) + second) == mono_frames(
            first + second,
        ),
        incomplete_frame(incomplete_frame(first) + second) == incomplete_frame(first + second),
{
    let whole = first + second;
    let carried = incomplete_frame(first) + second;
    let n = (first.len() / 4) as int;
    assert(carried =~= whole.skip(4 * n));
    assert(carried.len() / 4 == whole.len() / 4 - n);
    assert forall|i: int| 0 <= i < whole.len() / 4 implies (mono_frames(first) + mono_frames(
        carried,
    ))[i] == mono_frames(whole)[i] by {
        if i >= n {
            assert(carried[4 * (i - n)] == whole[4 * i]);
            assert(carried[4 * (i - n) + 1] == whole[4 * i + 1]);
            assert(carried[4 * (i - n) + 2] == whole[4 * i + 2]);
            assert(carried[4 * (i - n) + 3] == whole[4 * i + 3]);
        }
    }
    assert(mono_frames(first) + mono_frames(carried) =~= mono_frames(whole));
    assert(incomplete_frame(carried) =~= incomplete_frame(whole));
}

/// A message and the time at which it came.
pub type TimedMessage = (Seq<u8>, u64);

/// All bytes of a sequence of messages.
pub open spec fn stream_bytes(messages: Seq<TimedMessage>) -> Seq<u8>
    decreases messages.len(),
{
    if messages.len() == 0 {
        Seq::empty()
    } else {
        stream_bytes(messages.drop_last()) + messages.last().0
    }
}

/// The progress, the bytes of the incomplete frame and what was appended to the segment
/// file, after a receiver has taken one message after the other.
pub open spec fn received(progress: SegmentProgress, messages: Seq<TimedMessage>) -> (
    SegmentProgress,
    Seq<u8>,
    Seq<u8>,
)
    decreases messages.len(),
{
    if messages.len() == 0 {
        (progress, Seq::empty(), Seq::empty())
    } else {
        let (before, pending, file) = received(progress, messages.drop_last());
        let (after, rest, mono) = after_message(
            before,
            pending,
            messages.last().0,
            messages.last().1,
        );
        (after, rest, file + mono)
    }
}

proof fn lemma_encode_joined(first: Seq<i16>, second: Seq<i16>)
    ensures
        encode_s16le(first) + encode_s16le(second) == encode_s16le(first + second),
{
    let whole = encode_s16le(first + second);
    let parts = encode_s16le(first) + encode_s16le(second);
    assert forall|i: int| 0 <= i < whole.len() implies whole[i] == parts[i] by {
        let k = i - 2 * first.len();
        if k < 0 {
            assert((first + second)[i / 2] == first[i / 2]);
        } else {
            assert(k / 2 == i / 2 - first.len());
            assert(k % 2 == i % 2);
            assert((first + second)[i / 2] == second[k / 2]);
        }
    }
    assert(whole =~= parts);
}

/// The segment does not depend on how the stream was cut into messages, nor on when they
/// came: its file gets the downmix of all bytes together, and as many samples are counted.
pub proof fn law_messages_do_not_matter(progress: SegmentProgress, messages: Seq<TimedMessage>)
    requires
        progress.samples + stream_bytes(messages).len() / 4 <= u64::MAX,
    ensures
        ({
            let bytes = stream_bytes(messages);
            let (after, pending, file) = received(progress, messages);
            &&& file == encode_s16le(mono_frames(bytes))
            &&& pending == incomplete_frame(bytes)
            &&& after.samples == progress.samples + bytes.len() / 4
        }),
    decreases messages.len(),
{
    let bytes = stream_bytes(messages);
    if messages.len() == 0 {
        assert(encode_s16le(mono_frames(bytes)) =~= Seq::empty());
        assert(incomplete_frame(bytes) =~= Seq::empty());
    } else {
        let shorter = messages.drop_last();
        let earlier = stream_bytes(shorter);
        let last = messages.last();
        law_messages_do_not_matter(progress, shorter);
        law_split_stream(earlier, last.0);
        let (before, pending, file) = received(progress, shorter);
        let all = pending + last.0;
        lemma_encode_joined(mono_frames(earlier), mono_frames(all));
        assert(all.len() / 4 == bytes.len() / 4 - earlier.len() / 4);
        if all.len() / 4 == 0 {
            assert(mono_frames(all) =~= Seq::empty());
            assert(encode_s16le(mono_frames(all)) =~= Seq::empty());
        }
    }
}

/// Two streams of the same bytes give the same segment.
pub proof fn law_same_bytes_same_segment(
    progress: SegmentProgress,
    first: Seq<TimedMessage>,
    second: Seq<TimedMessage>,
)
    requires
        stream_bytes(first) == stream_bytes(second),
        progress.samples + stream_bytes(first).len() / 4 <= u64::MAX,
    ensures
        received(progress, first).2 == received(progress, second).2,
        received(progress, first).1 == received(progress, second).1,
        received(progress, first).0.samples == received(progress, second).0.samples,
{
    law_messages_do_not_matter(progress, first);
    law_messages_do_not_matter(progress, second);
}

/// The bytes of samples: two for each, the low one first, in two's complement.
pub proof fn law_bytes_of_samples(samples: Seq<i16>, i: int)
    requires
        0 <= i < samples.len(),
    ensures
        encode_s16le(samples).len() == 2 * samples.len(),
        (samples[i] - encode_s16le(samples)[2 * i] - 256 * encode_s16le(samples)[2 * i + 1])
            % 65536 == 0,
{
    assert((2 * i) / 2 == i && (2 * i + 1) / 2 == i && (2 * i) % 2 == 0 && (2 * i + 1) % 2 == 1);
    let bits = s16_bits(samples[i]);
    assert(bits == 256 * (bits / 256) + bits % 256);
}

/// The samples of bytes: one for two, the low one first, in two's complement.
pub proof fn law_samples_of_bytes(bytes: Seq<u8>, i: int)
    requires
        0 <= i < bytes.len() / 2,
    ensures
        decode_s16le(bytes).len() == bytes.len() / 2,
        (decode_s16le(bytes)[i] - bytes[2 * i] - 256 * bytes[2 * i + 1]) % 65536 == 0,
{
}

/// The downmix is the mean of the two channels, rounded towards zero, whatever their signs.
/// Of every frame: where `left` and `right` are the two samples that stand in the stereo
/// bytes, and `mono` is the one that stands in the mono bytes, twice `mono` is at most one
/// away from `left + right`, and is not the greater of the two.
pub proof fn law_downmix_is_the_mean(bytes: Seq<u8>, i: int, left: int, right: int, mono: int)
    requires
        0 <= i < bytes.len() / 4,
        -32768 <= left < 32768,
        -32768 <= right < 32768,
        -32768 <= mono < 32768,
        (left - bytes[4 * i] - 256 * bytes[4 * i + 1]) % 65536 == 0,
        (right - bytes[4 * i + 2] - 256 * bytes[4 * i + 3]) % 65536 == 0,
        (mono - encode_s16le(mono_frames(bytes))[2 * i] - 256 * encode_s16le(mono_frames(bytes))[2
            * i + 1]) % 65536 == 0,
    ensures
        encode_s16le(mono_frames(bytes)).len() == 2 * (bytes.len() / 4),
        -1 <= left + right - 2 * mono <= 1,
        left + right >= 0 ==> 0 <= 2 * mono <= left + right,
        left + right <= 0 ==> left + right <= 2 * mono <= 0,
{
    let frames = mono_frames(bytes);
    let file = encode_s16le(frames);
    law_bytes_of_samples(frames, i);
    lemma_value_of_bytes(left, bytes[4 * i], bytes[4 * i + 1]);
    lemma_value_of_bytes(right, bytes[4 * i + 2], bytes[4 * i + 3]);
    lemma_value_of_bytes(mono, file[2 * i], file[2 * i + 1]);
    lemma_value_of_bytes(frames[i] as int, file[2 * i], file[2 * i + 1]);
    lemma_half(left + right);
    assert(frames[i] == half_towards_zero(left + right));
}

/// A sample is told by its two bytes.
proof fn lemma_value_of_bytes(value: int, lo: u8, hi: u8)
    requires
        -32768 <= value < 32768,
        (value - lo - 256 * hi) % 65536 == 0,
    ensures
        value == s16(lo, hi),
{
    let unsigned = lo + 256 * hi;
    assert(0 <= unsigned < 65536);
    assert((value - unsigned) % 65536 == 0);
}

proof fn lemma_half(sum: int)
    requires
        -65536 <= sum < 65536,
    ensures
        -1 <= sum - 2 * half_towards_zero(sum) <= 1,
        sum >= 0 ==> 0 <= 2 * half_towards_zero(sum) <= sum,
        sum <= 0 ==> sum <= 2 * half_towards_zero(sum) <= 0,
        -32768 <= half_towards_zero(sum) < 32768,
{
}

/// Neither channel counts for more than the other: where the two are swapped in every frame,
/// the mono samples are the same.
pub proof fn law_channels_may_be_swapped(bytes: Seq<u8>, swapped: Seq<u8>)
    requires
        swapped.len() == bytes.len(),
        forall|i: int|
            0 <= i < bytes.len() / 4 ==> #[trigger] swapped[4 * i] == bytes[4 * i + 2] && swapped[4
                * i + 1] == bytes[4 * i + 3] && swapped[4 * i + 2] == bytes[4 * i] && swapped[4 * i
                + 3] == bytes[4 * i + 1],
    ensures
        mono_frames(swapped) == mono_frames(bytes),
{
    assert forall|i: int| 0 <= i < bytes.len() / 4 implies mono_frames(swapped)[i] == mono_frames(
        bytes,
    )[i] by {
        assert(swapped[4 * i] == bytes[4 * i + 2]);
    }
    assert(mono_frames(swapped) =~= mono_frames(bytes));
}

/// What a message brings. Each four bytes, together with those that were left over, are a
/// frame, which is counted and written; up to three bytes are left over again. The first
/// frame gives the segment its place: at 48000 samples a second, as many samples behind the
/// start of the recording as have passed when it comes, to the nearest one. A segment that
/// has a place keeps it.
pub proof fn law_message_counts_its_frames(
    progress: SegmentProgress,
    pending: Seq<u8>,
    bytes: Seq<u8>,
    elapsed_ns: u64,
)
    requires
        progress.samples + (pending.len() + bytes.len()) / 4 <= u64::MAX,
    ensures
        ({
            let (after, rest, mono) = after_message(progress, pending, bytes, elapsed_ns);
            let come = pending.len() + bytes.len();
            &&& after.samples == progress.samples + come / 4
            &&& mono.len() == 2 * (come / 4)
            &&& rest.len() == come % 4
            &&& forall|j: int|
                0 <= j < rest.len() ==> #[trigger] rest[j] == (pending + bytes)[4 * (come / 4) + j]
            &&& come < 4 || progress.first_ns != 0 ==> after.first_ns == progress.first_ns
                && after.timeline_start == progress.timeline_start
            &&& come >= 4 && progress.first_ns == 0 ==> {
                &&& after.first_ns == elapsed_ns
                &&& -500_000_000 < after.timeline_start * 1_000_000_000 - elapsed_ns * 48_000
                    <= 500_000_000
            }
        }),
{
    let all = pending + bytes;
    let come = pending.len() + bytes.len();
    let (after, rest, mono) = after_message(progress, pending, bytes, elapsed_ns);
    assert(all.len() == come);
    assert(encode_s16le(mono_frames(all)).len() == 2 * (come / 4));
    assert(come == 4 * (come / 4) + come % 4);
    crate::clock::law_nearest_sample(elapsed_ns as int);
}

/// Progress is stored whenever another five seconds of audio are full: the samples received
/// so far make more whole fives of seconds than those received before.
pub proof fn law_progress_is_stored_every_five_seconds(before: int, frames: int)
    requires
        0 <= before,
        0 < frames,
    ensures
        (before + frames) % (CHECKPOINT_SAMPLES as int) < frames <==> before / 240_000 < (before
            + frames) / 240_000,
{
    let now = before + frames;
    assert(now == 240_000 * (now / 240_000) + now % 240_000);
    assert(before == 240_000 * (before / 240_000) + before % 240_000);
    if before / 240_000 < now / 240_000 {
        assert(240_000 * (now / 240_000) >= 240_000 * (before / 240_000) + 240_000);
    } else {
        assert(now / 240_000 >= before / 240_000);
    }
}

} // verus!
