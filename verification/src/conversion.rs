//! Making the sound of a chapter, batch by batch.

use crate::ai::SpeakerResult;
use crate::audio::{
    count_chars, line_lengths, lyric_views, lyrics, read_sound, total_millis, wav_read,
    AudioError, ChapterAudio, WavFormat, MAX_NANOS,
};
use crate::batches::BatchData;
use crate::text::texts;
use vstd::prelude::*;

verus! {

/// What comes next for a chapter.
#[derive(Clone, Copy, Debug, PartialEq, Eq, Structural)]
pub enum ChapterStep {
    /// The conversion was cancelled.
    Cancelled,
    /// The sound of the batch at that position is to be asked for.
    Speak(usize),
    /// All batches were asked for.
    Finish,
}

/// What a reply about a batch comes to.
#[derive(Debug)]
pub enum BatchSound {
    /// There is nothing to hear.
    Nothing,
    /// The sound cannot be read; with the message that says why.
    Unreadable(String),
    /// A sound: its format, its samples, and the lengths of the lines that are spoken in it.
    Sound { format: WavFormat, samples: Vec<i16>, chars: Vec<usize> },
}

/// A chapter whose sound is being made: its batches, their speakers, what was heard so far, and the
/// batch that comes next.
#[derive(Debug)]
pub struct ChapterRun {
    pub batches: Vec<BatchData>,
    pub speakers: Vec<Option<SpeakerResult>>,
    pub audio: ChapterAudio,
    pub next: usize,
}

/// Whether a character is spoken in the lines.
pub open spec fn speaks(lines: Seq<Seq<char>>) -> bool {
    exists|i: int| 0 <= i < lines.len() && (#[trigger] lines[i]).len() > 0
}

fn is_speaking(lines: &Vec<String>) -> (r: bool)
    ensures
        r == speaks(texts(lines@)),
{
    let ghost views = texts(lines@);
    let mut i: usize = 0;
    while i < lines.len()
        invariant
            i <= lines@.len(),
            views == texts(lines@),
            forall|k: int| 0 <= k < i ==> (#[trigger] views[k]).len() == 0,
        decreases lines@.len() - i,
    {
        if lines[i].as_str().unicode_len() > 0 {
            assert(views[i as int].len() > 0);
            return true;
        }
        i += 1;
    }
    false
}

impl ChapterRun {
    /// Whether every batch has a place for its speaker, and the time so far can be told.
    pub open spec fn valid(self) -> bool {
        &&& self.next <= self.batches@.len()
        &&& self.speakers@.len() == self.batches@.len()
        &&& self.audio.clock <= MAX_NANOS
    }

    /// Whether `self` is what is left of `before` once its next batch is done: nothing but what was
    /// heard is different.
    pub open spec fn moved_on(self, before: ChapterRun) -> bool {
        &&& self.valid()
        &&& self.next == before.next + 1
        &&& self.batches == before.batches
        &&& self.speakers == before.speakers
    }

    /// A chapter of which nothing was asked for yet.
    pub fn start(batches: Vec<BatchData>, speakers: Vec<Option<SpeakerResult>>) -> (r: ChapterRun)
        requires
            speakers@.len() == batches@.len(),
        ensures
            r.valid(),
            r.batches == batches,
            r.speakers == speakers,
            r.next == 0,
            r.audio.format is None,
            r.audio.samples@.len() == 0,
            r.audio.lyrics@.len() == 0,
            r.audio.clock == 0,
    {
        ChapterRun { batches, speakers, audio: ChapterAudio::new(), next: 0 }
    }

    /// What comes next: each batch in its turn, unless the conversion was cancelled.
    pub fn step(&self, cancelled: bool) -> (r: ChapterStep)
        ensures
            r == if self.next >= self.batches@.len() {
                ChapterStep::Finish
            } else if cancelled {
                ChapterStep::Cancelled
            } else {
                ChapterStep::Speak(self.next)
            },
    {
        if self.next >= self.batches.len() {
            ChapterStep::Finish
        } else if cancelled {
            ChapterStep::Cancelled
        } else {
            ChapterStep::Speak(self.next)
        }
    }

    /// Passes over the next batch, for which no sound came.
    pub fn skip(&mut self)
        requires
            old(self).valid(),
            old(self).next < old(self).batches@.len(),
        ensures
            final(self).moved_on(*old(self)),
            final(self).audio == old(self).audio,
    {
        let n = self.batches.len();
        assert(self.next < n);
        self.next = self.next + 1;
    }

    /// What a reply about the next batch comes to.
    pub fn hear(&self, bytes: &[u8]) -> (r: BatchSound)
        requires
            self.valid(),
            self.next < self.batches@.len(),
        ensures
            if bytes@.len() == 0 {
                r is Nothing
            } else {
                match wav_read(bytes@) {
                    Ok((f, s)) => r matches BatchSound::Sound { format, samples, chars } && format
                        == f && samples@ == s && chars@ == line_lengths(
                        texts(self.batches@[self.next as int].lines@),
                    ),
                    Err(e) => r matches BatchSound::Unreadable(m) && m@ == e,
                }
            },
    {
        if bytes.len() == 0 {
            return BatchSound::Nothing;
        }
        match read_sound(bytes) {
            Ok((format, samples)) => {
                let chars = count_chars(&self.batches[self.next].lines);
                BatchSound::Sound { format, samples, chars }
            },
            Err(AudioError::Unreadable(m)) => BatchSound::Unreadable(m),
            Err(AudioError::TooLong) => BatchSound::Nothing,
        }
    }

    /// Takes the sound of the next batch over, with the times that its lines take; says whether
    /// these can be told; nothing is changed where they cannot. Lines in which nothing is spoken get
    /// no lyrics.
    pub fn take(
        &mut self,
        format: WavFormat,
        samples: &Vec<i16>,
        millis: &Vec<u64>,
        sub: usize,
    ) -> (r: bool)
        requires
            old(self).valid(),
            old(self).next < old(self).batches@.len(),
            millis@.len() == old(self).batches@[old(self).next as int].lines@.len(),
        ensures
            ({
                let before = old(self).audio;
                let after = final(self).audio;
                let lines = texts(old(self).batches@[old(self).next as int].lines@);
                let (more, end) = lyrics(before.clock as nat, lines, millis@, sub as nat);
                &&& r == (speaks(lines) ==> before.clock + total_millis(millis@, millis@.len())
                    * 1_000_000 <= MAX_NANOS)
                &&& r ==> {
                    &&& final(self).moved_on(*old(self))
                    &&& after.format == Some(
                        match before.format {
                            Some(f) => f,
                            None => format,
                        },
                    )
                    &&& after.samples@ == before.samples@ + samples@
                    &&& lyric_views(after.lyrics@) == if speaks(lines) {
                        lyric_views(before.lyrics@) + more
                    } else {
                        lyric_views(before.lyrics@)
                    }
                    &&& after.clock == if speaks(lines) {
                        end
                    } else {
                        before.clock as nat
                    }
                }
                &&& !r ==> {
                    &&& final(self).batches == old(self).batches
                    &&& final(self).speakers == old(self).speakers
                    &&& final(self).next == old(self).next
                    &&& after.format == before.format
                    &&& after.samples@ == before.samples@
                    &&& after.lyrics@ == before.lyrics@
                    &&& after.clock == before.clock
                }
            }),
    {
        let i = self.next;
        let n = self.batches.len();
        assert(i < n);
        let speaking = is_speaking(&self.batches[i].lines);
        if speaking {
            let told = self.audio.add_lyrics(&self.batches[i].lines, millis, sub);
            if !told {
                return false;
            }
        }
        self.audio.add_samples(format, samples);
        self.next = i + 1;
        true
    }
}

/// Lines are spoken where they hold a character together.
pub proof fn law_lines_with_characters_are_spoken(lines: Seq<Seq<char>>, line: Seq<char>)
    ensures
        !speaks(seq![]),
        speaks(lines.push(line)) <==> speaks(lines) || line.len() > 0,
        speaks(lines) <==> lines.flatten().len() > 0,
    decreases lines.len(),
{
    let more = lines.push(line);
    if speaks(more) && line.len() == 0 {
        let i = choose|i: int| 0 <= i < more.len() && (#[trigger] more[i]).len() > 0;
        assert(lines[i] == more[i]);
    }
    if speaks(lines) {
        let i = choose|i: int| 0 <= i < lines.len() && (#[trigger] lines[i]).len() > 0;
        assert(more[i] == lines[i]);
    }
    assert(more[lines.len() as int] == line);
    if lines.len() > 0 {
        let rest = lines.drop_first();
        law_lines_with_characters_are_spoken(rest, line);
        if speaks(lines) && lines[0].len() == 0 {
            let i = choose|i: int| 0 <= i < lines.len() && (#[trigger] lines[i]).len() > 0;
            assert(rest[i - 1] == lines[i]);
        }
        if speaks(rest) {
            let i = choose|i: int| 0 <= i < rest.len() && (#[trigger] rest[i]).len() > 0;
            assert(lines[i + 1] == rest[i]);
        }
        assert(lines.first() == lines[0]);
    }
}

/// A chapter whose next batch is done has one batch less to go, of the same batches with the same
/// speakers, and never more batches done than there are.
pub proof fn law_chapters_move_on_batch_by_batch(before: ChapterRun, after: ChapterRun)
    requires
        after.moved_on(before),
    ensures
        after.next == before.next + 1,
        after.batches == before.batches,
        after.speakers == before.speakers,
        before.next < before.batches@.len(),
        after.speakers@.len() == after.batches@.len(),
        after.audio.clock <= MAX_NANOS,
{
}

} // verus!
