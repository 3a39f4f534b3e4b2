//! The sound of a chapter: joining the sound of its batches, and timing its lyrics.

use crate::lrc::{line_pieces, split_line_intelligently};
use crate::number::{to_two_digits, two_digits};
use crate::text::{copy, texts};
use vstd::prelude::*;

verus! {

/// How the samples of a sound file are to be read.
#[derive(Clone, Copy, Debug, PartialEq, Eq, Structural)]
pub struct WavFormat {
    pub channels: u16,
    pub sample_rate: u32,
    pub bits_per_sample: u16,
    pub float: bool,
}

/// What the hound crate reads from the bytes of a sound file: the format and the samples, or the
/// message of an error.
pub uninterp spec fn wav_read(bytes: Seq<u8>) -> Result<(WavFormat, Seq<i16>), Seq<char>>;

/// `hound::WavReader`: the format and the samples of a sound file, or the message of the error that
/// the header or a sample gives. There is a channel, and a sample for each of the channels at any
/// time; where there are samples, they are integers of 8 or 16 bits.
#[verifier::external_body]
fn read_wav(bytes: &[u8]) -> (r: Result<(WavFormat, Vec<i16>), String>)
    ensures
        (match r {
            Ok((f, v)) => Ok((f, v@)),
            Err(e) => Err(e@),
        }) == wav_read(bytes@),
        r matches Ok((f, v)) ==> f.channels > 0 && v@.len() % (f.channels as nat) == 0,
        r matches Ok((f, v)) ==> (v@.len() > 0 ==> !f.float && (f.bits_per_sample == 8
            || f.bits_per_sample == 16)),
{
    let mut reader = hound::WavReader::new(bytes).map_err(|e| e.to_string())?;
    let hound::WavSpec { channels, sample_rate, bits_per_sample, sample_format } = reader.spec();
    let float = sample_format == hound::SampleFormat::Float;
    let samples: Result<Vec<i16>, hound::Error> = reader.samples().collect();
    let samples = samples.map_err(|e| e.to_string())?;
    Ok((WavFormat { channels, sample_rate, bits_per_sample, float }, samples))
}

/// What the hound crate reads from the bytes of a sound file, leaving out the samples that it
/// cannot read; none where it cannot read the header.
pub uninterp spec fn wav_read_in_part(bytes: Seq<u8>) -> Option<(WavFormat, Seq<i16>)>;

/// `hound::WavReader`: the format of a sound file and those of its samples that can be read; none
/// where the header cannot be read. A file that can be read as a whole is.
#[verifier::external_body]
fn read_wav_in_part(bytes: &[u8]) -> (r: Option<(WavFormat, Vec<i16>)>)
    ensures
        (match r {
            Some((f, v)) => Some((f, v@)),
            None => None,
        }) == wav_read_in_part(bytes@),
        r matches Some((f, v)) ==> (wav_read(bytes@) is Ok ==> wav_read(bytes@)->Ok_0 == (f, v@)),
        r is None ==> wav_read(bytes@) is Err,
{
    let mut reader = hound::WavReader::new(bytes).ok()?;
    let hound::WavSpec { channels, sample_rate, bits_per_sample, sample_format } = reader.spec();
    let float = sample_format == hound::SampleFormat::Float;
    let samples: Vec<i16> = reader.samples().flatten().collect();
    Some((WavFormat { channels, sample_rate, bits_per_sample, float }, samples))
}

/// The bytes that a sample takes.
pub open spec fn sample_bytes(format: WavFormat) -> nat {
    ((format.bits_per_sample + 7) / 8) as nat
}

/// Whether a sound file can be made at all: the header can be filled in, and the sizes in it do
/// not overflow.
pub open spec fn writable(format: WavFormat, samples: nat) -> bool {
    &&& format.channels > 0
    &&& format.sample_rate > 0
    &&& 0 < format.bits_per_sample <= 0xfff8
    &&& format.float ==> format.bits_per_sample == 32
    &&& format.sample_rate * sample_bytes(format) * format.channels <= u32::MAX
    &&& samples * sample_bytes(format) + 60 <= u32::MAX
}

/// Whether the hound crate writes samples of that size.
pub open spec fn known_size(bits: u16) -> bool {
    bits == 8 || bits == 16 || bits == 24 || bits == 32
}

/// Whether the samples are integers of 16 bits, of no more channels than fill 15 bits.
pub open spec fn is_plain(format: WavFormat) -> bool {
    format.bits_per_sample == 16 && !format.float && format.channels < 0x8000
}

/// Whether a sample fits into eight bits.
pub open spec fn fits_byte(sample: i16) -> bool {
    -128 <= sample <= 127
}

/// How many of the samples, from the first on, can be written: all, or those before the first one
/// that does not fit into its eight bits.
pub open spec fn fitting(format: WavFormat, samples: Seq<i16>) -> nat
    decreases samples.len(),
{
    if samples.len() == 0 || (format.bits_per_sample == 8 && !fits_byte(samples[0])) {
        0
    } else {
        1 + fitting(format, samples.skip(1))
    }
}

/// The bytes of the sound file that the hound crate makes of the samples, as far as they fit.
pub uninterp spec fn wav_written(format: WavFormat, samples: Seq<i16>) -> Seq<u8>;

/// `hound::WavWriter`: the bytes of a sound file of the samples up to the first that does not fit,
/// whether all samples were written, and whether the file could be closed in good order, which
/// takes a sample for each of the channels at any time; none where samples of that size cannot be
/// written. A file of plain samples that was closed in good order is read back as it was written.
#[verifier::external_body]
fn write_wav(format: WavFormat, samples: &Vec<i16>) -> (r: Option<(Vec<u8>, bool, bool)>)
    requires
        writable(format, samples@.len()),
    ensures
        r is Some <==> known_size(format.bits_per_sample),
        r matches Some((b, all, closed)) ==> b@ == wav_written(format, samples@),
        r matches Some((b, all, closed)) ==> all == (fitting(format, samples@) == samples@.len()),
        r matches Some((b, all, closed)) ==> closed == (fitting(format, samples@) % (
        format.channels as nat) == 0),
        r matches Some((b, all, closed)) ==> (closed && is_plain(format) ==> (wav_read(
            b@,
        ) matches Ok((f, s)) && f == format && s == samples@)),
{
    let mut bytes = std::io::Cursor::new(Vec::new());
    let WavFormat { channels, sample_rate, bits_per_sample, float } = format;
    let sample_format = if float { hound::SampleFormat::Float } else { hound::SampleFormat::Int };
    let spec = hound::WavSpec { channels, sample_rate, bits_per_sample, sample_format };
    let mut writer = hound::WavWriter::new(&mut bytes, spec).ok()?;
    let all = samples.iter().try_for_each(|s| writer.write_sample(*s)).is_ok();
    let closed = writer.finalize().is_ok();
    Some((bytes.into_inner(), all, closed))
}

/// Nanoseconds in a millisecond.
pub const NANOS_PER_MILLI: u128 = 1_000_000;

/// The longest time that can be told, in nanoseconds: the seconds fill 64 bits.
pub const MAX_NANOS: u128 = 18_446_744_073_709_551_615_999_999_999;

/// A lyric line: when it starts, in milliseconds that wrap around at 32 bits, and its text.
pub type LyricView = (u32, Seq<char>);

/// The views of lyric lines.
pub open spec fn lyric_views(v: Seq<(u32, String)>) -> Seq<LyricView> {
    Seq::new(v.len(), |i: int| (v[i].0, v[i].1@))
}

/// A time in nanoseconds as milliseconds that wrap around at 32 bits.
pub open spec fn stamp(nanos: nat) -> u32 {
    ((nanos / 1_000_000) % 0x1_0000_0000) as u32
}

/// The pieces one after the other, `step` apart.
pub open spec fn timed(start: nat, step: nat, pieces: Seq<Seq<char>>) -> Seq<LyricView> {
    Seq::new(pieces.len(), |i: int| (stamp((start + i * step) as nat), pieces[i]))
}

/// The time for each piece of a line that is spoken in `millis`.
pub open spec fn piece_time(millis: nat, pieces: nat) -> nat {
    (millis * 1_000_000) / (if pieces > 0 {
        pieces
    } else {
        1
    })
}

/// The lyric lines of a spoken line that starts at `start` and takes `millis`, cut into pieces of
/// `sub` characters unless that is 0; and when it ends.
pub open spec fn line_lyrics(
    start: nat,
    line: Seq<char>,
    millis: nat,
    sub: nat,
) -> (Seq<LyricView>, nat) {
    if sub > 0 {
        let pieces = line_pieces(line, sub);
        let step = piece_time(millis, pieces.len());
        (timed(start, step, pieces), start + pieces.len() * step)
    } else {
        (seq![(stamp(start), line)], start + millis * 1_000_000)
    }
}

/// The lyric lines of spoken lines, one after the other; and when they end.
pub open spec fn lyrics(
    start: nat,
    lines: Seq<Seq<char>>,
    millis: Seq<u64>,
    sub: nat,
) -> (Seq<LyricView>, nat)
    decreases lines.len(),
{
    if lines.len() == 0 {
        (seq![], start)
    } else {
        let (before, at) = lyrics(start, lines.drop_last(), millis, sub);
        let (more, end) = line_lyrics(at, lines.last(), millis[lines.len() - 1] as nat, sub);
        (before + more, end)
    }
}

/// The sum of the first `n` times.
pub open spec fn total_millis(millis: Seq<u64>, n: nat) -> nat
    decreases n,
{
    if n == 0 {
        0
    } else {
        total_millis(millis, (n - 1) as nat) + millis[n - 1] as nat
    }
}

proof fn lemma_piece_time(millis: nat, n: nat)
    ensures
        n * piece_time(millis, n) <= millis * 1_000_000,
{
    let t = millis * 1_000_000;
    if n > 0 {
        assert(n * (t / n) <= t) by (nonlinear_arith)
            requires
                n > 0,
        ;
    }
}

/// A line ends no later than its start and the time it takes.
proof fn lemma_line_end(start: nat, line: Seq<char>, millis: nat, sub: nat)
    ensures
        start <= line_lyrics(start, line, millis, sub).1 <= start + millis * 1_000_000,
{
    if sub > 0 {
        let n = line_pieces(line, sub).len();
        lemma_piece_time(millis, n);
        assert(n * piece_time(millis, n) >= 0) by (nonlinear_arith);
    }
}

/// Whether lyric lines are in the order of their times, none before `from` or behind `to`.
pub open spec fn lyrics_in_order(v: Seq<LyricView>, from: u32, to: u32) -> bool {
    &&& forall|i: int, j: int| 0 <= i <= j < v.len() ==> (#[trigger] v[i]).0 <= (#[trigger] v[j]).0
    &&& forall|i: int| 0 <= i < v.len() ==> from <= (#[trigger] v[i]).0 <= to
}

proof fn lemma_stamps_grow(a: nat, b: nat)
    requires
        a <= b,
        b / 1_000_000 < 0x1_0000_0000,
    ensures
        stamp(a) <= stamp(b),
{
    assert(a / 1_000_000 <= b / 1_000_000) by (nonlinear_arith)
        requires
            a <= b,
    ;
}

proof fn lemma_line_in_order(start: nat, line: Seq<char>, millis: nat, sub: nat)
    requires
        line_lyrics(start, line, millis, sub).1 / 1_000_000 < 0x1_0000_0000,
    ensures
        lyrics_in_order(
            line_lyrics(start, line, millis, sub).0,
            stamp(start),
            stamp(line_lyrics(start, line, millis, sub).1),
        ),
{
    let (v, end) = line_lyrics(start, line, millis, sub);
    lemma_line_end(start, line, millis, sub);
    lemma_stamps_grow(start, end);
    if sub > 0 {
        let pieces = line_pieces(line, sub);
        let step = piece_time(millis, pieces.len());
        assert forall|i: int, j: int| 0 <= i <= j < v.len() implies (#[trigger] v[i]).0 <= (
        #[trigger] v[j]).0 && stamp(start) <= v[i].0 && v[j].0 <= stamp(end) by {
            assert(0 <= i * step <= j * step <= pieces.len() * step) by (nonlinear_arith)
                requires
                    0 <= i <= j < pieces.len(),
                    0 <= step,
            ;
            let a = (start + i * step) as nat;
            let b = (start + j * step) as nat;
            assert(b / 1_000_000 <= end / 1_000_000) by (nonlinear_arith)
                requires
                    b <= end,
            ;
            lemma_stamps_grow(a, b);
            lemma_stamps_grow(b, end);
            lemma_stamps_grow(start, a);
        }
        assert forall|i: int| 0 <= i < v.len() implies stamp(start) <= (#[trigger] v[i]).0
            && v[i].0 <= stamp(end) by {
            assert(v[i].0 <= v[i].0);
        }
    }
}

/// The lyric lines of a chapter come in the order of their times, as long as these do not wrap
/// around.
pub proof fn law_lyrics_are_in_order(
    start: nat,
    lines: Seq<Seq<char>>,
    millis: Seq<u64>,
    sub: nat,
)
    requires
        lyrics(start, lines, millis, sub).1 / 1_000_000 < 0x1_0000_0000,
    ensures
        start <= lyrics(start, lines, millis, sub).1,
        lyrics_in_order(
            lyrics(start, lines, millis, sub).0,
            stamp(start),
            stamp(lyrics(start, lines, millis, sub).1),
        ),
    decreases lines.len(),
{
    if lines.len() > 0 {
        let (before, at) = lyrics(start, lines.drop_last(), millis, sub);
        let (more, end) = line_lyrics(at, lines.last(), millis[lines.len() - 1] as nat, sub);
        lemma_line_end(at, lines.last(), millis[lines.len() - 1] as nat, sub);
        assert(at / 1_000_000 <= end / 1_000_000) by (nonlinear_arith)
            requires
                at <= end,
        ;
        law_lyrics_are_in_order(start, lines.drop_last(), millis, sub);
        lemma_line_in_order(at, lines.last(), millis[lines.len() - 1] as nat, sub);
        lemma_stamps_grow(start, at);
        lemma_stamps_grow(at, end);
        let all = before + more;
        assert forall|i: int, j: int| 0 <= i <= j < all.len() implies (#[trigger] all[i]).0 <= (
        #[trigger] all[j]).0 by {
            if j < before.len() {
                assert(all[i] == before[i] && all[j] == before[j]);
            } else if i < before.len() {
                assert(all[i] == before[i] && all[j] == more[j - before.len()]);
            } else {
                assert(all[i] == more[i - before.len()] && all[j] == more[j - before.len()]);
            }
        }
        assert forall|i: int| 0 <= i < all.len() implies stamp(start) <= (#[trigger] all[i]).0
            && all[i].0 <= stamp(end) by {
            if i < before.len() {
                assert(all[i] == before[i]);
            } else {
                assert(all[i] == more[i - before.len()]);
            }
        }
    }
}

/// The sum of the times, where it fits.
fn sum_millis(millis: &Vec<u64>) -> (r: Option<u128>)
    ensures
        r matches Some(t) ==> t == total_millis(millis@, millis@.len()),
        r is None ==> total_millis(millis@, millis@.len()) > u128::MAX,
{
    let mut sum: u128 = 0;
    let mut i: usize = 0;
    while i < millis.len()
        invariant
            i <= millis@.len(),
            sum == total_millis(millis@, i as nat),
        decreases millis@.len() - i,
    {
        match sum.checked_add(millis[i] as u128) {
            Some(s) => {
                sum = s;
            },
            None => {
                proof {
                    lemma_total_grows(millis@, (i + 1) as nat, millis@.len());
                }
                return None;
            },
        }
        i += 1;
    }
    Some(sum)
}

proof fn lemma_total_grows(millis: Seq<u64>, m: nat, n: nat)
    requires
        m <= n,
    ensures
        total_millis(millis, m) <= total_millis(millis, n),
    decreases n,
{
    if m < n {
        lemma_total_grows(millis, m, (n - 1) as nat);
    }
}

fn stamp_of(nanos: u128) -> (r: u32)
    ensures
        r == stamp(nanos as nat),
{
    ((nanos / NANOS_PER_MILLI) % 0x1_0000_0000u128) as u32
}

/// What has been made of a chapter: the format of its sound, which is that of the first batch, the
/// samples, the lyric lines, and the time at which the next line starts, in nanoseconds.
#[derive(Debug)]
pub struct ChapterAudio {
    pub format: Option<WavFormat>,
    pub samples: Vec<i16>,
    pub lyrics: Vec<(u32, String)>,
    pub clock: u128,
}

/// Why the sound of a batch cannot be used.
#[derive(Debug)]
pub enum AudioError {
    /// It cannot be read; with the message that says why.
    Unreadable(String),
    /// The lyrics would take longer than can be told.
    TooLong,
}

/// What a chapter's sound comes to.
#[derive(Debug)]
pub enum ChapterSound {
    /// There is no sound.
    Silent,
    /// The format, or the amount of samples, cannot be written.
    Unwritable,
    /// The bytes of a sound file, whether all samples are in it, and whether it was closed in good
    /// order.
    File { bytes: Vec<u8>, all: bool, closed: bool },
}

impl ChapterAudio {
    /// A chapter of which nothing has been made.
    pub fn new() -> (r: ChapterAudio)
        ensures
            r.format is None,
            r.samples@.len() == 0,
            r.lyrics@.len() == 0,
            r.clock == 0,
    {
        ChapterAudio { format: None, samples: Vec::new(), lyrics: Vec::new(), clock: 0 }
    }

    /// Adds the lyrics of the lines of a batch, which take the times given. Nothing is added where
    /// the lyrics would take longer than can be told.
    pub fn add_lyrics(&mut self, lines: &Vec<String>, millis: &Vec<u64>, sub: usize) -> (r: bool)
        requires
            millis@.len() == lines@.len(),
            old(self).clock <= MAX_NANOS,
        ensures
            r == (old(self).clock + total_millis(millis@, millis@.len()) * 1_000_000 <= MAX_NANOS),
            r ==> {
                let (more, end) = lyrics(
                    old(self).clock as nat,
                    texts(lines@),
                    millis@,
                    sub as nat,
                );
                lyric_views(final(self).lyrics@) == lyric_views(old(self).lyrics@) + more
                    && final(self).clock == end
            },
            !r ==> final(self).lyrics@ == old(self).lyrics@ && final(self).clock == old(
                self,
            ).clock,
            final(self).clock <= MAX_NANOS,
            final(self).format == old(self).format,
            final(self).samples@ == old(self).samples@,
    {
        let ghost first = *self;
        let total = match sum_millis(millis) {
            Some(t) => t,
            None => return false,
        };
        if total > (MAX_NANOS - self.clock) / NANOS_PER_MILLI {
            return false;
        }
        let ghost start = self.clock as nat;
        let ghost views = texts(lines@);
        let ghost before = lyric_views(self.lyrics@);
        let mut i: usize = 0;
        proof {
            assert(views.take(0) =~= seq![]);
            assert(before + lyrics(start, views.take(0), millis@, sub as nat).0 =~= before);
        }
        while i < lines.len()
            invariant
                i <= lines@.len(),
                millis@.len() == lines@.len(),
                views == texts(lines@),
                self.format == first.format,
                self.samples@ == first.samples@,
                start + total_millis(millis@, millis@.len()) * 1_000_000 <= MAX_NANOS,
                self.clock <= start + total_millis(millis@, i as nat) * 1_000_000,
                ({
                    let (more, end) = lyrics(start, views.take(i as int), millis@, sub as nat);
                    lyric_views(self.lyrics@) == before + more && self.clock == end
                }),
            decreases lines@.len() - i,
        {
            let ghost now = lyric_views(self.lyrics@);
            let ghost at = self.clock as nat;
            let ghost line = views[i as int];
            let ghost ms = millis@[i as int] as nat;
            proof {
                assert(views.take(i + 1).drop_last() =~= views.take(i as int));
                assert(views.take(i + 1).last() == line);
                lemma_line_end(at, line, ms, sub as nat);
                lemma_total_grows(millis@, (i + 1) as nat, millis@.len());
            }
            let nanos: u128 = (millis[i] as u128) * NANOS_PER_MILLI;
            if sub > 0 {
                let mut chunks = split_line_intelligently(lines[i].as_str(), sub);
                let ghost pieces = texts(chunks@);
                let n = chunks.len();
                assert(pieces.len() == n);
                let step: u128 = nanos / (if n > 0 { n as u128 } else { 1 });
                assert(step == piece_time(ms, pieces.len()));
                let mut k: usize = 0;
                proof {
                    lemma_piece_time(ms, n as nat);
                    assert(now + timed(at, step as nat, pieces).take(0) =~= now);
                    assert(0 * step == 0) by (nonlinear_arith);
                }
                while k < n
                    invariant
                        k <= n,
                        n == chunks@.len(),
                        pieces == texts(chunks@),
                        self.format == first.format,
                        self.samples@ == first.samples@,
                        n * step <= nanos,
                        at + nanos <= MAX_NANOS,
                        self.clock == at + k * step,
                        lyric_views(self.lyrics@) == now + timed(at, step as nat, pieces).take(
                            k as int,
                        ),
                    decreases n - k,
                {
                    let ghost here = lyric_views(self.lyrics@);
                    proof {
                        assert((k + 1) * step == k * step + step) by (nonlinear_arith);
                        assert((k + 1) * step <= n * step) by (nonlinear_arith)
                            requires
                                k + 1 <= n,
                                0 <= step,
                        ;
                    }
                    self.lyrics.push((stamp_of(self.clock), chunks[k].clone()));
                    proof {
                        let all = timed(at, step as nat, pieces);
                        assert(all[k as int] == (stamp(self.clock as nat), pieces[k as int]));
                        assert(lyric_views(self.lyrics@) =~= here.push(all[k as int]));
                        assert(lyric_views(self.lyrics@) =~= now + all.take(k + 1));
                    }
                    self.clock = self.clock + step;
                    k += 1;
                }
                proof {
                    let all = timed(at, step as nat, pieces);
                    assert(all.take(n as int) =~= all);
                    let more = lyrics(start, views.take(i as int), millis@, sub as nat).0;
                    assert(before + more + all =~= before + (more + all));
                }
            } else {
                self.lyrics.push((stamp_of(self.clock), lines[i].clone()));
                proof {
                    let one = seq![(stamp(at), line)];
                    assert(lyric_views(self.lyrics@) =~= now + one);
                    let more = lyrics(start, views.take(i as int), millis@, sub as nat).0;
                    assert(before + more + one =~= before + (more + one));
                }
                self.clock = self.clock + nanos;
            }
            i += 1;
        }
        assert(views.take(i as int) =~= views);
        true
    }

    /// Adds samples; the format is that of the first sound.
    pub fn add_samples(&mut self, format: WavFormat, samples: &Vec<i16>)
        ensures
            final(self).format == Some(
                match old(self).format {
                    Some(f) => f,
                    None => format,
                },
            ),
            final(self).samples@ == old(self).samples@ + samples@,
            final(self).lyrics@ == old(self).lyrics@,
            final(self).clock == old(self).clock,
    {
        if self.format.is_none() {
            self.format = Some(format);
        }
        let ghost before = self.samples@;
        let ghost first = *self;
        let mut i: usize = 0;
        assert(before + samples@.take(0) =~= before);
        while i < samples.len()
            invariant
                i <= samples@.len(),
                self.samples@ == before + samples@.take(i as int),
                self.format == first.format,
                self.lyrics@ == first.lyrics@,
                self.clock == first.clock,
            decreases samples@.len() - i,
        {
            self.samples.push(samples[i]);
            i += 1;
            assert(self.samples@ =~= before + samples@.take(i as int));
        }
        assert(samples@.take(i as int) =~= samples@);
    }

    /// The sound of the chapter as a file. A file of plain samples that was closed in good order is
    /// read back as it was made.
    pub fn finish(&self) -> (r: ChapterSound)
        ensures
            match self.format {
                None => r is Silent,
                Some(f) => if self.samples@.len() == 0 {
                    r is Silent
                } else if !writable(f, self.samples@.len()) || !known_size(f.bits_per_sample) {
                    r is Unwritable
                } else {
                    r matches ChapterSound::File { bytes, all, closed } && bytes@ == wav_written(
                        f,
                        self.samples@,
                    ) && all == (fitting(f, self.samples@) == self.samples@.len()) && closed == (
                    fitting(f, self.samples@) % (f.channels as nat) == 0)
                },
            },
            r matches ChapterSound::File { bytes, all, closed } ==> (closed && is_plain(
                self.format->0,
            ) ==> (wav_read(bytes@) matches Ok((f, s)) && Some(f) == self.format && s
                == self.samples@)),
    {
        let format = match self.format {
            None => return ChapterSound::Silent,
            Some(f) => f,
        };
        if self.samples.len() == 0 {
            return ChapterSound::Silent;
        }
        if !can_write(format, self.samples.len()) {
            return ChapterSound::Unwritable;
        }
        match write_wav(format, &self.samples) {
            Some((bytes, all, closed)) => ChapterSound::File { bytes, all, closed },
            None => ChapterSound::Unwritable,
        }
    }
}

/// Whether a sound file can be made at all.
fn can_write(format: WavFormat, samples: usize) -> (r: bool)
    ensures
        r == writable(format, samples as nat),
{
    if format.channels == 0 || format.sample_rate == 0 || format.bits_per_sample == 0
        || format.bits_per_sample > 0xfff8 || (format.float && format.bits_per_sample != 32) {
        return false;
    }
    let size: u128 = ((format.bits_per_sample + 7) / 8) as u128;
    let rate = format.sample_rate as u128;
    let channels = format.channels as u128;
    let count = samples as u128;
    assert(size <= 8191);
    assert(rate * size <= 0xffff_ffff * 8191) by (nonlinear_arith)
        requires
            rate <= 0xffff_ffff,
            size <= 8191,
    ;
    assert((rate * size) * channels <= 0xffff_ffff * 8191 * 0xffff) by (nonlinear_arith)
        requires
            0 <= rate * size <= 0xffff_ffff * 8191,
            channels <= 0xffff,
    ;
    assert(count * size <= 0xffff_ffff_ffff_ffff * 8191) by (nonlinear_arith)
        requires
            count <= 0xffff_ffff_ffff_ffff,
            size <= 8191,
    ;
    rate * size * channels <= 0xffff_ffff && count * size + 60 <= 0xffff_ffff
}

/// The sound of a batch: its format and its samples.
pub fn read_sound(bytes: &[u8]) -> (r: Result<(WavFormat, Vec<i16>), AudioError>)
    ensures
        match wav_read(bytes@) {
            Ok((f, s)) => r matches Ok((format, samples)) && format == f && samples@ == s,
            Err(e) => r matches Err(AudioError::Unreadable(m)) && m@ == e,
        },
{
    match read_wav(bytes) {
        Ok(r) => Ok(r),
        Err(e) => Err(AudioError::Unreadable(e)),
    }
}

/// The sound of a batch as far as it can be read.
pub fn read_sound_in_part(bytes: &[u8]) -> (r: Option<(WavFormat, Vec<i16>)>)
    ensures
        match wav_read_in_part(bytes@) {
            Some((f, s)) => r matches Some((format, samples)) && format == f && samples@ == s,
            None => r is None,
        },
        wav_read(bytes@) matches Ok((f, s)) ==> (r matches Some((format, samples)) && format == f
            && samples@ == s),
{
    read_wav_in_part(bytes)
}

/// How many characters the lines of a batch have.
pub open spec fn line_lengths(lines: Seq<Seq<char>>) -> Seq<usize> {
    Seq::new(lines.len(), |i: int| lines[i].len() as usize)
}

/// How many characters the lines of a batch have, by which the time of the batch is shared out.
pub fn count_chars(lines: &Vec<String>) -> (r: Vec<usize>)
    ensures
        r@ == line_lengths(texts(lines@)),
{
    let mut r: Vec<usize> = Vec::new();
    let mut i: usize = 0;
    while i < lines.len()
        invariant
            i <= lines@.len(),
            r@ == line_lengths(texts(lines@)).take(i as int),
        decreases lines@.len() - i,
    {
        r.push(lines[i].as_str().unicode_len());
        i += 1;
        assert(r@ =~= line_lengths(texts(lines@)).take(i as int));
    }
    assert(r@ =~= line_lengths(texts(lines@)));
    r
}

/// A lyric line as text: its time in minutes, seconds and hundredths, and its words.
pub open spec fn lyric_text(l: LyricView) -> Seq<char> {
    "["@ + two_digits((l.0 / 60000) as nat) + ":"@ + two_digits(((l.0 % 60000) / 1000) as nat)
        + "."@ + two_digits(((l.0 % 1000) / 10) as nat) + "]"@ + l.1 + "\n"@
}

/// Lyric lines as text.
pub open spec fn lrc_text(v: Seq<LyricView>) -> Seq<char>
    decreases v.len(),
{
    if v.len() == 0 {
        seq![]
    } else {
        lrc_text(v.drop_last()) + lyric_text(v.last())
    }
}

/// The text of a lyrics file; none where no lyrics are wanted or there are none.
pub fn lrc_content(lyrics: &Vec<(u32, String)>, sub: usize) -> (r: Option<String>)
    ensures
        r is Some <==> sub > 0 && lyrics@.len() > 0,
        r matches Some(t) ==> t@ == lrc_text(lyric_views(lyrics@)),
{
    if sub == 0 || lyrics.len() == 0 {
        return None;
    }
    let ghost views = lyric_views(lyrics@);
    let mut r = String::new();
    let mut i: usize = 0;
    assert(views.take(0) =~= seq![]);
    assert(r@ =~= seq![]);
    while i < lyrics.len()
        invariant
            i <= lyrics@.len(),
            views == lyric_views(lyrics@),
            r@ == lrc_text(views.take(i as int)),
        decreases lyrics@.len() - i,
    {
        let ghost before = r@;
        let time = lyrics[i].0;
        let mut line = copy("[");
        line.append(to_two_digits((time / 60000) as u64).as_str());
        line.append(":");
        line.append(to_two_digits(((time % 60000) / 1000) as u64).as_str());
        line.append(".");
        line.append(to_two_digits(((time % 1000) / 10) as u64).as_str());
        line.append("]");
        line.append(lyrics[i].1.as_str());
        line.append("\n");
        r.append(line.as_str());
        proof {
            assert(line@ == lyric_text(views[i as int]));
            assert(views.take(i + 1).drop_last() =~= views.take(i as int));
            assert(views.take(i + 1).last() == views[i as int]);
        }
        i += 1;
    }
    assert(views.take(i as int) =~= views);
    Some(r)
}

/// A time is told in whole milliseconds, what is less being left out.
pub proof fn law_times_are_told_in_milliseconds(millis: nat, rest: nat)
    requires
        rest < 1_000_000,
        millis < 0x1_0000_0000,
    ensures
        stamp(millis * 1_000_000 + rest) == millis,
{
    assert((millis * 1_000_000 + rest) / 1_000_000 == millis) by (nonlinear_arith)
        requires
            rest < 1_000_000,
    ;
}

/// The pieces of a line share its time evenly: each begins when the ones before it have had their
/// share, the first when the line begins; a line that is not cut begins with the line, and the next
/// line begins behind the whole time.
pub proof fn law_pieces_share_the_time_of_their_line(
    start: nat,
    line: Seq<char>,
    millis: nat,
    sub: nat,
    i: int,
)
    ensures
        ({
            let (v, end) = line_lyrics(start, line, millis, sub);
            let pieces = line_pieces(line, sub);
            let n = pieces.len();
            &&& sub == 0 ==> v == seq![(stamp(start), line)] && end == start + millis * 1_000_000
            &&& sub > 0 ==> {
                &&& v.len() == n
                &&& 0 <= i < n ==> v[i].1 == pieces[i] && v[i].0 == stamp(
                    (start + i * (millis * 1_000_000 / n)) as nat,
                )
                &&& n == 0 ==> end == start
                &&& n > 0 ==> end == start + n * (millis * 1_000_000 / n)
                &&& n > 0 ==> end <= start + millis * 1_000_000 < end + n
            }
        }),
{
    let n = line_pieces(line, sub).len();
    let t = millis * 1_000_000;
    if sub > 0 && n > 0 {
        assert(n * (t / n) <= t < n * (t / n) + n) by (nonlinear_arith)
            requires
                n > 0,
        ;
    }
}

/// Where lines are not cut, each line is a lyric line that begins when the lines before it have been
/// spoken.
pub proof fn law_lines_begin_when_they_are_spoken(
    start: nat,
    lines: Seq<Seq<char>>,
    millis: Seq<u64>,
    i: int,
)
    requires
        millis.len() == lines.len(),
        0 <= i < lines.len(),
    ensures
        ({
            let (v, end) = lyrics(start, lines, millis, 0);
            &&& v.len() == lines.len()
            &&& v[i] == (stamp(start + total_millis(millis, i as nat) * 1_000_000), lines[i])
            &&& end == start + total_millis(millis, lines.len()) * 1_000_000
        }),
{
    lemma_uncut_lyrics(start, lines, millis);
}

proof fn lemma_uncut_lyrics(start: nat, lines: Seq<Seq<char>>, millis: Seq<u64>)
    requires
        lines.len() <= millis.len(),
    ensures
        ({
            let (v, end) = lyrics(start, lines, millis, 0);
            &&& v.len() == lines.len()
            &&& forall|i: int|
                0 <= i < lines.len() ==> #[trigger] v[i] == (
                    stamp(start + total_millis(millis, i as nat) * 1_000_000),
                    lines[i],
                )
            &&& end == start + total_millis(millis, lines.len()) * 1_000_000
        }),
    decreases lines.len(),
{
    if lines.len() > 0 {
        let front = lines.drop_last();
        let n = front.len() as int;
        lemma_uncut_lyrics(start, front, millis);
        let v = lyrics(start, lines, millis, 0).0;
        let before = lyrics(start, front, millis, 0).0;
        assert forall|i: int| 0 <= i < lines.len() implies #[trigger] v[i] == (
            stamp(start + total_millis(millis, i as nat) * 1_000_000),
            lines[i],
        ) by {
            if i < n {
                assert(v[i] == before[i]);
            }
        }
    }
}

/// The words of the lyrics are the pieces of all lines, in their order.
pub proof fn law_lyrics_hold_every_piece(
    start: nat,
    lines: Seq<Seq<char>>,
    millis: Seq<u64>,
    sub: nat,
)
    requires
        sub > 0,
    ensures
        lyrics(start, lines, millis, sub).0.map_values(|l: LyricView| l.1) == lines.map_values(
            |line: Seq<char>| line_pieces(line, sub),
        ).flatten_alt(),
    decreases lines.len(),
{
    let words = |l: LyricView| l.1;
    let f = |line: Seq<char>| line_pieces(line, sub);
    if lines.len() > 0 {
        let front = lines.drop_last();
        law_lyrics_hold_every_piece(start, front, millis, sub);
        let (before, at) = lyrics(start, front, millis, sub);
        let more = line_lyrics(at, lines.last(), millis[lines.len() - 1] as nat, sub).0;
        assert(more.map_values(words) =~= f(lines.last()));
        assert((before + more).map_values(words) =~= before.map_values(words) + more.map_values(
            words,
        ));
        assert(lines.map_values(f).drop_last() =~= front.map_values(f));
        assert(lines.map_values(f).last() == f(lines.last()));
    } else {
        assert(lyrics(start, lines, millis, sub).0.map_values(words) =~= seq![]);
    }
}

/// A line begins when the line before it ends.
pub proof fn law_lines_follow_each_other(
    start: nat,
    lines: Seq<Seq<char>>,
    line: Seq<char>,
    millis: Seq<u64>,
    sub: nat,
)
    ensures
        ({
            let (before, at) = lyrics(start, lines, millis, sub);
            let (more, end) = line_lyrics(at, line, millis[lines.len() as int] as nat, sub);
            lyrics(start, lines.push(line), millis, sub) == (before + more, end)
        }),
        lyrics(start, seq![], millis, sub).0.len() == 0,
        lyrics(start, seq![], millis, sub).1 == start,
{
    assert(lines.push(line).drop_last() =~= lines);
}

/// The time of lines together is that of each of them.
pub proof fn law_times_add_up(millis: Seq<u64>, more: u64)
    ensures
        total_millis(millis.push(more), millis.len() + 1) == total_millis(millis, millis.len())
            + more,
        total_millis(millis, 0) == 0,
{
    lemma_total_of_front(millis, more, millis.len());
}

proof fn lemma_total_of_front(millis: Seq<u64>, more: u64, n: nat)
    requires
        n <= millis.len(),
    ensures
        total_millis(millis.push(more), n) == total_millis(millis, n),
    decreases n,
{
    if n > 0 {
        lemma_total_of_front(millis, more, (n - 1) as nat);
    }
}

/// A lyric line tells its time in minutes, seconds and hundredths of a second, each with two digits at
/// least, and then its words.
pub proof fn law_lyric_lines_tell_their_time(
    minutes: u32,
    seconds: u32,
    hundredths: u32,
    rest: u32,
    words: Seq<char>,
)
    requires
        minutes <= 71_581,
        seconds < 60,
        hundredths < 100,
        rest < 10,
    ensures
        lyric_text(
            (
                (minutes * 60_000 + seconds * 1_000 + hundredths * 10 + rest) as u32,
                words,
            ),
        ) == "["@ + two_digits(minutes as nat) + ":"@ + two_digits(seconds as nat) + "."@ + two_digits(
            hundredths as nat,
        ) + "]"@ + words + "\n"@,
{
    let t = (minutes * 60_000 + seconds * 1_000 + hundredths * 10 + rest) as u32;
    assert(t == minutes * 60_000 + seconds * 1_000 + hundredths * 10 + rest);
    assert(t / 60_000 == minutes);
    assert(t % 60_000 == seconds * 1_000 + hundredths * 10 + rest);
    assert((t % 60_000) / 1_000 == seconds);
    assert(t % 1_000 == hundredths * 10 + rest);
    assert((t % 1_000) / 10 == hundredths);
}

/// A lyrics file holds every lyric line, in order.
pub proof fn law_lyrics_files_hold_every_line(v: Seq<LyricView>)
    ensures
        lrc_text(v) == v.map_values(|l: LyricView| lyric_text(l)).flatten_alt(),
    decreases v.len(),
{
    let f = |l: LyricView| lyric_text(l);
    if v.len() > 0 {
        law_lyrics_files_hold_every_line(v.drop_last());
        assert(v.map_values(f).drop_last() =~= v.drop_last().map_values(f));
        assert(v.map_values(f).last() == lyric_text(v.last()));
    } else {
        assert(lrc_text(v) =~= v.map_values(f).flatten_alt());
    }
}

/// Samples are written up to the first that does not fit into its eight bits; samples of any other size
/// all fit.
pub proof fn law_samples_are_written_while_they_fit(format: WavFormat, samples: Seq<i16>, n: int)
    requires
        0 <= n <= samples.len(),
        forall|i: int|
            0 <= i < n ==> format.bits_per_sample != 8 || -128 <= #[trigger] samples[i] <= 127,
        n < samples.len() ==> format.bits_per_sample == 8 && !(-128 <= samples[n] <= 127),
    ensures
        fitting(format, samples) == n,
    decreases n,
{
    if n > 0 {
        let rest = samples.skip(1);
        assert(format.bits_per_sample != 8 || -128 <= samples[0] <= 127);
        assert forall|i: int| 0 <= i < n - 1 implies format.bits_per_sample != 8 || -128
            <= #[trigger] rest[i] <= 127 by {
            assert(rest[i] == samples[i + 1]);
        }
        law_samples_are_written_while_they_fit(format, rest, n - 1);
    }
}

/// Lines are measured by their characters, and lyrics are told with their time, in their order.
pub proof fn law_lines_are_measured_by_characters(
    lines: Seq<Seq<char>>,
    v: Seq<(u32, String)>,
    i: int,
)
    ensures
        line_lengths(lines).len() == lines.len(),
        0 <= i < lines.len() && lines[i].len() <= usize::MAX ==> line_lengths(lines)[i]
            == lines[i].len(),
        lyric_views(v).len() == v.len(),
        0 <= i < v.len() ==> lyric_views(v)[i] == (v[i].0, v[i].1@),
{
}

/// Sound in samples of sixteen bits, of one or two channels at up to a million samples a second, can
/// be written up to two thousand million samples.
pub proof fn law_usual_sound_can_be_written(format: WavFormat, samples: nat)
    requires
        format.bits_per_sample == 16,
        !format.float,
        1 <= format.channels <= 2,
        1 <= format.sample_rate <= 1_000_000,
        samples <= 2_000_000_000,
    ensures
        writable(format, samples),
        known_size(format.bits_per_sample),
        is_plain(format),
{
    assert(sample_bytes(format) == 2);
    let rate = format.sample_rate as int;
    let channels = format.channels as int;
    assert(rate * 2 * channels <= 4_000_000) by (nonlinear_arith)
        requires
            0 <= rate <= 1_000_000,
            0 <= channels <= 2,
    ;
}

} // verus!
