//! The settings that requests ask for.

use crate::ai::{copy_option, opt_text, AiDialogueConfig};
use crate::allocation::SpeechRequest;
use crate::args::{same_settings, Cli};
use crate::audio::{read_sound_in_part, wav_read_in_part, ChapterAudio};
use crate::batches::{
    batch_lines, batch_views, batches_of, processed_lines, processed_lines_of, BatchData,
};
use crate::number::{
    bounded_numeral, decimal, law_numerals_are_read_back, numeral_value, parse_number,
};
use crate::path::{directory_below, extension, extension_of, folder_below, join, joined_path};
use crate::patterns::{regex_error, regex_replaced, Pattern, MARKS_PATTERN};
use crate::search::{lines_of, same};
use crate::settings::or_default;
use crate::text::{blank, copy, is_blank};
use vstd::prelude::*;

verus! {

/// How many chapters are made at a time, where nothing else is asked for.
pub const DEFAULT_CONCURRENCY: usize = 4;

/// The name of a task for a text that has none.
pub const TEXT_TASK_NAME: &'static str = "web_task";

/// What is spoken to try a voice.
pub const SAMPLE_TEXT: &'static str = "你好，这是一段试听文本，用于测试声音效果。";

/// The levels that are taken where none are asked for.
#[derive(Clone, Copy, Debug)]
pub struct Levels {
    pub volume: u8,
    pub speed: u8,
    pub pitch: u8,
}

/// What a conversion is to be like.
#[derive(Debug)]
pub struct ConversionRequest {
    pub voice_id: String,
    pub voice_dialogue_id: Option<String>,
    pub volume_dialogue: Option<u8>,
    pub speed_dialogue: Option<u8>,
    pub pitch_dialogue: Option<u8>,
    pub volume: Option<u8>,
    pub speed: Option<u8>,
    pub pitch: Option<u8>,
    pub sub: Option<usize>,
    pub concurrency: Option<usize>,
    pub ignore_regex: Option<String>,
    pub preserve_structure: bool,
    pub analysis_only: bool,
    pub ai_dialogue: AiDialogueConfig,
}

fn level_or(value: Option<u8>, default: u8) -> (r: u8)
    ensures
        r == or_default(value, default),
{
    match value {
        Some(v) => v,
        None => default,
    }
}

fn number_or(value: Option<usize>, default: usize) -> (r: usize)
    ensures
        r == or_default(value, default),
{
    match value {
        Some(v) => v,
        None => default,
    }
}

/// The pattern of what is to be left out: the one that is asked for, else that of decorative marks.
pub open spec fn pattern_or_marks(asked: Option<Seq<char>>) -> Seq<char> {
    or_default(asked, MARKS_PATTERN@)
}

fn ignored_or_marks(asked: &Option<String>) -> (r: String)
    ensures
        r@ == pattern_or_marks(opt_text(*asked)),
{
    match asked {
        Some(p) => p.clone(),
        None => copy(MARKS_PATTERN),
    }
}

/// Whether settings are for conversions by request: they name no file or directory, no blacklist
/// and no name for what is made, and ask for neither a listing nor the web interface.
pub open spec fn plain_settings(cli: Cli) -> bool {
    !cli.list && !cli.web && cli.file is None && cli.dir is None && cli.blacklist is None
        && cli.output_name is None
}

/// Whether settings are those that a request asks for.
pub open spec fn asked_settings(
    cli: Cli,
    api: Option<String>,
    out: Seq<char>,
    req: ConversionRequest,
    defaults: Levels,
) -> bool {
    &&& plain_settings(cli)
    &&& cli.api == api
    &&& cli.out@ == out
    &&& cli.voice == Some(req.voice_id)
    &&& cli.voice_dialogue == req.voice_dialogue_id
    &&& cli.volume_dialogue == req.volume_dialogue
    &&& cli.speed_dialogue == req.speed_dialogue
    &&& cli.pitch_dialogue == req.pitch_dialogue
    &&& cli.volume == or_default(req.volume, defaults.volume)
    &&& cli.speed == or_default(req.speed, defaults.speed)
    &&& cli.pitch == or_default(req.pitch, defaults.pitch)
    &&& cli.sub == or_default(req.sub, 0)
    &&& cli.ignore_regex@ == pattern_or_marks(opt_text(req.ignore_regex))
    &&& cli.concurrency == or_default(req.concurrency, DEFAULT_CONCURRENCY)
    &&& cli.preserve_structure == req.preserve_structure
    &&& cli.analysis_only == req.analysis_only
    &&& cli.ai_dialogue@ == req.ai_dialogue@
}

/// The settings that a request asks for.
pub fn conversion_settings(
    api: Option<String>,
    out: &str,
    req: ConversionRequest,
    defaults: Levels,
) -> (r: Cli)
    ensures
        asked_settings(r, api, out@, req, defaults),
{
    Cli {
        list: false,
        file: None,
        dir: None,
        web: false,
        api,
        out: copy(out),
        output_name: None,
        ignore_regex: ignored_or_marks(&req.ignore_regex),
        voice: Some(req.voice_id),
        voice_dialogue: req.voice_dialogue_id,
        volume_dialogue: req.volume_dialogue,
        speed_dialogue: req.speed_dialogue,
        pitch_dialogue: req.pitch_dialogue,
        volume: level_or(req.volume, defaults.volume),
        speed: level_or(req.speed, defaults.speed),
        pitch: level_or(req.pitch, defaults.pitch),
        sub: number_or(req.sub, 0),
        blacklist: None,
        concurrency: number_or(req.concurrency, DEFAULT_CONCURRENCY),
        preserve_structure: req.preserve_structure,
        analysis_only: req.analysis_only,
        ai_dialogue: req.ai_dialogue,
    }
}

/// Whether settings say nothing of voices.
pub open spec fn voiceless(cli: Cli, defaults: Levels) -> bool {
    &&& cli.voice is None
    &&& cli.voice_dialogue is None
    &&& cli.volume_dialogue is None
    &&& cli.speed_dialogue is None
    &&& cli.pitch_dialogue is None
    &&& cli.volume == defaults.volume
    &&& cli.speed == defaults.speed
    &&& cli.pitch == defaults.pitch
    &&& cli.sub == 0
    &&& !cli.preserve_structure
}

/// The settings of the watch over the books, where nothing was asked for.
pub fn autorun_settings(
    api: Option<String>,
    out: &str,
    ai_dialogue: AiDialogueConfig,
    defaults: Levels,
) -> (r: Cli)
    ensures
        plain_settings(r),
        voiceless(r, defaults),
        r.api == api,
        r.out@ == out@,
        r.ignore_regex@ == MARKS_PATTERN@,
        r.concurrency == DEFAULT_CONCURRENCY,
        !r.analysis_only,
        r.ai_dialogue@ == ai_dialogue@,
{
    Cli {
        list: false,
        file: None,
        dir: None,
        web: false,
        api,
        out: copy(out),
        output_name: None,
        ignore_regex: copy(MARKS_PATTERN),
        voice: None,
        voice_dialogue: None,
        volume_dialogue: None,
        speed_dialogue: None,
        pitch_dialogue: None,
        volume: defaults.volume,
        speed: defaults.speed,
        pitch: defaults.pitch,
        sub: 0,
        blacklist: None,
        concurrency: DEFAULT_CONCURRENCY,
        preserve_structure: false,
        analysis_only: false,
        ai_dialogue,
    }
}

/// How speakers are recognised in an analysis: as the configuration says, and by the chapter.
pub fn analysis_config(config: AiDialogueConfig) -> (r: AiDialogueConfig)
    ensures
        r == (AiDialogueConfig { chapter_analysis_enabled: true, ..config }),
{
    AiDialogueConfig { chapter_analysis_enabled: true, ..config }
}

/// The settings of an analysis.
pub fn analysis_settings(
    out: &str,
    name: &str,
    ignore_regex: Option<String>,
    ai_dialogue: AiDialogueConfig,
    defaults: Levels,
) -> (r: Cli)
    ensures
        !r.list && !r.web && r.file is None && r.dir is None && r.blacklist is None,
        voiceless(r, defaults),
        r.api is None,
        r.out@ == out@,
        r.output_name matches Some(n) && n@ == name@,
        r.ignore_regex@ == pattern_or_marks(opt_text(ignore_regex)),
        r.concurrency == 1,
        r.analysis_only,
        r.ai_dialogue@ == ai_dialogue@,
{
    Cli {
        list: false,
        file: None,
        dir: None,
        web: false,
        api: None,
        out: copy(out),
        output_name: Some(copy(name)),
        ignore_regex: ignored_or_marks(&ignore_regex),
        voice: None,
        voice_dialogue: None,
        volume_dialogue: None,
        speed_dialogue: None,
        pitch_dialogue: None,
        volume: defaults.volume,
        speed: defaults.speed,
        pitch: defaults.pitch,
        sub: 0,
        blacklist: None,
        concurrency: 1,
        preserve_structure: false,
        analysis_only: true,
        ai_dialogue,
    }
}

/// Where what is made of a book lies: in the directory for what is made, and in it, where the
/// structure is kept, in the directory that the book lies in below that of the books.
pub open spec fn out_for(cli: Cli, path: Seq<char>, books: Seq<char>) -> Seq<char> {
    match folder_below(path, books) {
        Some(d) => if cli.preserve_structure {
            joined_path(cli.out@, d)
        } else {
            cli.out@
        },
        None => cli.out@,
    }
}

/// The settings for one of many books.
pub fn book_settings(cli: &Cli, title: &str, path: &str, books: &str) -> (r: Cli)
    ensures
        r.output_name matches Some(n) && n@ == title@,
        r.out@ == out_for(*cli, path@, books@),
        same_settings(
            (Cli { output_name: cli.output_name, out: cli.out, ..r }),
            *cli,
        ),
{
    let mut r = cli.clone();
    r.output_name = Some(copy(title));
    if cli.preserve_structure {
        if let Some(d) = directory_below(path, books) {
            r.out = join(cli.out.as_str(), d.as_str());
        }
    }
    r
}

/// Whether a file is a book that is looked for: its extension is exactly that of one.
pub fn is_listed_book(path: &str) -> (r: bool)
    ensures
        r == (extension_of(path@) matches Some(e) && (e == "txt"@ || e == "epub"@)),
{
    match extension(path) {
        Some(e) => same(e.as_str(), "txt") || same(e.as_str(), "epub"),
        None => false,
    }
}

/// The name of a task for a text, and the path at which the text is put.
pub fn text_task(name: Option<&str>, out: &str) -> (r: (String, String))
    ensures
        r.0@ == match name {
            Some(n) => n@,
            None => TEXT_TASK_NAME@,
        },
        r.1@ == joined_path(out@, r.0@ + ".txt"@),
{
    let task = match name {
        Some(n) => copy(n),
        None => copy(TEXT_TASK_NAME),
    };
    let mut file = task.clone();
    file.append(".txt");
    let path = join(out, file.as_str());
    (task, path)
}

/// What a request for sound is about.
#[derive(Debug)]
pub enum SoundSource {
    /// A text, to be put at the path; with the name of its task.
    Text { name: String, path: String, text: String },
    /// A file.
    File(String),
    /// Nothing.
    Nothing,
}

/// What a request for sound is about: its text, else its file.
pub fn sound_source(
    text: Option<String>,
    file: Option<String>,
    name: Option<&str>,
    out: &str,
) -> (r: SoundSource)
    ensures
        match (text, file) {
            (Some(t), _) => r matches SoundSource::Text { name: task, path, text: kept } && kept == t
                && task@ == match name {
                Some(n) => n@,
                None => TEXT_TASK_NAME@,
            } && path@ == joined_path(out@, task@ + ".txt"@),
            (None, Some(f)) => r == SoundSource::File(f),
            (None, None) => r is Nothing,
        },
{
    match (text, file) {
        (Some(text), _) => {
            let (name, path) = text_task(name, out);
            SoundSource::Text { name, path, text }
        },
        (None, Some(f)) => SoundSource::File(f),
        (None, None) => SoundSource::Nothing,
    }
}

/// Whether a file is removed once the work on it is done: a text's always, any other once its sound
/// is made.
pub fn removed_when_done(is_text: bool, analysis_only: bool) -> (r: bool)
    ensures
        r == (is_text || !analysis_only),
{
    is_text || !analysis_only
}

/// The fields of a form with which a book is uploaded, as far as they have come.
#[derive(Debug)]
pub struct UploadForm {
    pub api_url: String,
    pub voice_id: String,
    pub voice_dialogue_id: String,
    pub volume_dialogue: Option<u8>,
    pub speed_dialogue: Option<u8>,
    pub pitch_dialogue: Option<u8>,
    pub volume: u8,
    pub speed: u8,
    pub pitch: u8,
    pub sub: Option<usize>,
    pub concurrency: usize,
    pub ignore_regex: String,
    pub analysis_only: bool,
}

/// A level as a form gives it.
pub open spec fn form_level(value: Seq<char>) -> Option<u8> {
    match bounded_numeral(value, 255) {
        Some(n) => Some(n as u8),
        None => None,
    }
}

/// A number as a form gives it.
pub open spec fn form_number(value: Seq<char>) -> Option<usize> {
    match bounded_numeral(value, usize::MAX as nat) {
        Some(n) => Some(n as usize),
        None => None,
    }
}

fn read_level(value: &str) -> (r: Option<u8>)
    ensures
        r == form_level(value@),
{
    match parse_number(value, 255) {
        Some(n) => Some(n as u8),
        None => None,
    }
}

fn read_number(value: &str) -> (r: Option<usize>)
    ensures
        r == form_number(value@),
{
    match parse_number(value, usize::MAX as u64) {
        Some(n) => Some(n as usize),
        None => None,
    }
}

/// Whether `after` is the form after a field came: the field is set, and the others are kept.
pub open spec fn filled(
    form: UploadForm,
    name: Seq<char>,
    value: Seq<char>,
    defaults: Levels,
    after: UploadForm,
) -> bool {
    if name == "api_url"@ {
        after.api_url@ == value && after == (UploadForm { api_url: after.api_url, ..form })
    } else if name == "voice_id"@ {
        after.voice_id@ == value && after == (UploadForm { voice_id: after.voice_id, ..form })
    } else if name == "voice_dialogue_id"@ {
        after.voice_dialogue_id@ == value && after == (UploadForm {
            voice_dialogue_id: after.voice_dialogue_id,
            ..form
        })
    } else if name == "volume_dialogue"@ {
        after == (UploadForm { volume_dialogue: form_level(value), ..form })
    } else if name == "speed_dialogue"@ {
        after == (UploadForm { speed_dialogue: form_level(value), ..form })
    } else if name == "pitch_dialogue"@ {
        after == (UploadForm { pitch_dialogue: form_level(value), ..form })
    } else if name == "volume"@ {
        after == (UploadForm { volume: or_default(form_level(value), defaults.volume), ..form })
    } else if name == "speed"@ {
        after == (UploadForm { speed: or_default(form_level(value), defaults.speed), ..form })
    } else if name == "pitch"@ {
        after == (UploadForm { pitch: or_default(form_level(value), defaults.pitch), ..form })
    } else if name == "sub"@ {
        after == (UploadForm { sub: form_number(value), ..form })
    } else if name == "concurrency"@ {
        after == (UploadForm {
            concurrency: or_default(form_number(value), DEFAULT_CONCURRENCY),
            ..form
        })
    } else if name == "ignore_regex"@ {
        after.ignore_regex@ == value && after == (UploadForm {
            ignore_regex: after.ignore_regex,
            ..form
        })
    } else if name == "analysis_only"@ {
        after == (UploadForm { analysis_only: value == "true"@ || value == "1"@, ..form })
    } else {
        after == form
    }
}

impl UploadForm {
    /// A form of which no field has come.
    pub fn new(defaults: Levels) -> (r: UploadForm)
        ensures
            r.api_url@.len() == 0,
            r.voice_id@.len() == 0,
            r.voice_dialogue_id@.len() == 0,
            r.volume_dialogue is None && r.speed_dialogue is None && r.pitch_dialogue is None,
            r.volume == defaults.volume,
            r.speed == defaults.speed,
            r.pitch == defaults.pitch,
            r.sub is None,
            r.concurrency == DEFAULT_CONCURRENCY,
            r.ignore_regex@ == MARKS_PATTERN@,
            !r.analysis_only,
    {
        UploadForm {
            api_url: String::new(),
            voice_id: String::new(),
            voice_dialogue_id: String::new(),
            volume_dialogue: None,
            speed_dialogue: None,
            pitch_dialogue: None,
            volume: defaults.volume,
            speed: defaults.speed,
            pitch: defaults.pitch,
            sub: None,
            concurrency: DEFAULT_CONCURRENCY,
            ignore_regex: copy(MARKS_PATTERN),
            analysis_only: false,
        }
    }

    /// Takes a field.
    pub fn set(&mut self, name: &str, value: &str, defaults: Levels)
        ensures
            filled(*old(self), name@, value@, defaults, *final(self)),
    {
        if same(name, "api_url") {
            self.api_url = copy(value);
        } else if same(name, "voice_id") {
            self.voice_id = copy(value);
        } else if same(name, "voice_dialogue_id") {
            self.voice_dialogue_id = copy(value);
        } else if same(name, "volume_dialogue") {
            self.volume_dialogue = read_level(value);
        } else if same(name, "speed_dialogue") {
            self.speed_dialogue = read_level(value);
        } else if same(name, "pitch_dialogue") {
            self.pitch_dialogue = read_level(value);
        } else if same(name, "volume") {
            self.volume = level_or(read_level(value), defaults.volume);
        } else if same(name, "speed") {
            self.speed = level_or(read_level(value), defaults.speed);
        } else if same(name, "pitch") {
            self.pitch = level_or(read_level(value), defaults.pitch);
        } else if same(name, "sub") {
            self.sub = read_number(value);
        } else if same(name, "concurrency") {
            self.concurrency = number_or(read_number(value), DEFAULT_CONCURRENCY);
        } else if same(name, "ignore_regex") {
            self.ignore_regex = copy(value);
        } else if same(name, "analysis_only") {
            self.analysis_only = same(value, "true") || same(value, "1");
        }
    }

    /// The settings that the form asks for; none where the address of the service or the voice is
    /// missing.
    pub fn settings(&self, out: &str, ai_dialogue: AiDialogueConfig) -> (r: Option<Cli>)
        ensures
            r is Some <==> self.api_url@.len() > 0 && self.voice_id@.len() > 0,
            r matches Some(cli) ==> {
                &&& plain_settings(cli)
                &&& cli.api == Some(self.api_url)
                &&& cli.out@ == out@
                &&& cli.voice == Some(self.voice_id)
                &&& cli.voice_dialogue == if self.voice_dialogue_id@.len() == 0 {
                    None
                } else {
                    Some(self.voice_dialogue_id)
                }
                &&& cli.volume_dialogue == self.volume_dialogue
                &&& cli.speed_dialogue == self.speed_dialogue
                &&& cli.pitch_dialogue == self.pitch_dialogue
                &&& cli.volume == self.volume
                &&& cli.speed == self.speed
                &&& cli.pitch == self.pitch
                &&& cli.sub == or_default(self.sub, 0)
                &&& cli.ignore_regex == self.ignore_regex
                &&& cli.concurrency == self.concurrency
                &&& !cli.preserve_structure
                &&& cli.analysis_only == self.analysis_only
                &&& cli.ai_dialogue@ == ai_dialogue@
            },
    {
        if self.api_url.as_str().unicode_len() == 0 || self.voice_id.as_str().unicode_len() == 0 {
            return None;
        }
        Some(
            Cli {
                list: false,
                file: None,
                dir: None,
                web: false,
                api: Some(self.api_url.clone()),
                out: copy(out),
                output_name: None,
                ignore_regex: self.ignore_regex.clone(),
                voice: Some(self.voice_id.clone()),
                voice_dialogue: if self.voice_dialogue_id.as_str().unicode_len() == 0 {
                    None
                } else {
                    Some(self.voice_dialogue_id.clone())
                },
                volume_dialogue: self.volume_dialogue,
                speed_dialogue: self.speed_dialogue,
                pitch_dialogue: self.pitch_dialogue,
                volume: self.volume,
                speed: self.speed,
                pitch: self.pitch,
                sub: number_or(self.sub, 0),
                blacklist: None,
                concurrency: self.concurrency,
                preserve_structure: false,
                analysis_only: self.analysis_only,
                ai_dialogue,
            },
        )
    }
}

/// The pattern of what is to be left out that a preview uses.
pub open spec fn preview_pattern(asked: Option<Seq<char>>) -> Seq<char> {
    let source = pattern_or_marks(asked);
    if regex_error(source, false) is None {
        source
    } else {
        MARKS_PATTERN@
    }
}

/// The batches of a preview; none where there is no text to hear.
pub fn preview_batches(text: Option<&str>, ignore_regex: &Option<String>) -> (r: Option<
    Vec<BatchData>,
>)
    ensures
        r is Some <==> (text matches Some(t) && !blank(t@)),
        r matches Some(batches) ==> exists|ignore: Pattern|
            #![trigger ignore.text()]
            ignore.text() == preview_pattern(opt_text(*ignore_regex)) && !ignore.any_case()
                && batch_views(batches@) == batches_of(
                processed_lines_of(lines_of(text->0@), None, ignore),
            ),
{
    let content = match text {
        Some(t) => t,
        None => return None,
    };
    if is_blank(content) {
        return None;
    }
    let ignore = Pattern::ignored(ignored_or_marks(ignore_regex).as_str());
    let lines = processed_lines(content, &None, &ignore);
    let batches = batch_lines(&lines);
    assert(ignore.text() == preview_pattern(opt_text(*ignore_regex)));
    Some(batches)
}

/// A level of a quotation in a preview: that for quotations, else the general one, else the
/// default.
pub open spec fn preview_level(
    is_dialogue: bool,
    dialogue: Option<u8>,
    general: Option<u8>,
    default: u8,
) -> u8 {
    if is_dialogue && dialogue is Some {
        dialogue->0
    } else {
        or_default(general, default)
    }
}

fn level_of_preview(
    is_dialogue: bool,
    dialogue: Option<u8>,
    general: Option<u8>,
    default: u8,
) -> (r: u8)
    ensures
        r == preview_level(is_dialogue, dialogue, general, default),
{
    if is_dialogue {
        if let Some(v) = dialogue {
            return v;
        }
    }
    level_or(general, default)
}

/// The request for a batch of a preview.
pub fn preview_speech(req: &ConversionRequest, batch: &BatchData, defaults: Levels) -> (r:
    SpeechRequest)
    ensures
        r.text@ == batch.text@,
        r.voice == if batch.is_dialogue && req.voice_dialogue_id is Some {
            req.voice_dialogue_id
        } else {
            Some(req.voice_id)
        },
        r.volume == preview_level(
            batch.is_dialogue,
            req.volume_dialogue,
            req.volume,
            defaults.volume,
        ),
        r.speed == preview_level(batch.is_dialogue, req.speed_dialogue, req.speed, defaults.speed),
        r.pitch == preview_level(batch.is_dialogue, req.pitch_dialogue, req.pitch, defaults.pitch),
{
    let d = batch.is_dialogue;
    let voice = if d && req.voice_dialogue_id.is_some() {
        copy_option(&req.voice_dialogue_id)
    } else {
        Some(req.voice_id.clone())
    };
    SpeechRequest {
        text: batch.text.clone(),
        voice,
        volume: level_of_preview(d, req.volume_dialogue, req.volume, defaults.volume),
        speed: level_of_preview(d, req.speed_dialogue, req.speed, defaults.speed),
        pitch: level_of_preview(d, req.pitch_dialogue, req.pitch, defaults.pitch),
    }
}

/// Adds the sound of a batch to a preview, as far as it can be read.
pub fn add_to_preview(audio: &mut ChapterAudio, bytes: &[u8])
    ensures
        match wav_read_in_part(bytes@) {
            Some((f, s)) => if bytes@.len() > 0 {
                &&& final(audio).format == Some(or_default(old(audio).format, f))
                &&& final(audio).samples@ == old(audio).samples@ + s
                &&& final(audio).lyrics@ == old(audio).lyrics@
                &&& final(audio).clock == old(audio).clock
            } else {
                *final(audio) == *old(audio)
            },
            None => *final(audio) == *old(audio),
        },
{
    if bytes.len() == 0 {
        return;
    }
    if let Some((format, samples)) = read_sound_in_part(bytes) {
        audio.add_samples(format, &samples);
    }
}

/// The request with which a voice is tried.
pub fn voice_sample(
    voice: &str,
    volume: Option<u8>,
    speed: Option<u8>,
    pitch: Option<u8>,
) -> (r: SpeechRequest)
    ensures
        r.text@ == SAMPLE_TEXT@,
        r.voice matches Some(v) && v@ == voice@,
        r.volume == or_default(volume, 60),
        r.speed == or_default(speed, 50),
        r.pitch == or_default(pitch, 50),
{
    SpeechRequest {
        text: copy(SAMPLE_TEXT),
        voice: Some(copy(voice)),
        volume: level_or(volume, 60),
        speed: level_or(speed, 50),
        pitch: level_or(pitch, 50),
    }
}

/// What is left of a text without what a pattern matches; the message of the regex crate where the
/// pattern does not compile.
pub fn try_pattern(regex: &str, text: &str) -> (r: Result<String, String>)
    ensures
        match regex_error(regex@, false) {
            Some(m) => r matches Err(e) && e@ == m,
            None => r matches Ok(t) && t@ == regex_replaced(regex@, false, text@, ""@),
        },
{
    match Pattern::compile(regex, false) {
        Ok(p) => Ok(p.replace_all(text, "")),
        Err(e) => Err(e),
    }
}

/// What a request asks for is set, and what it leaves open is set to the defaults: the default
/// levels, no lyrics, four chapters at a time, and the pattern of decorative marks.
pub proof fn law_requests_are_followed(
    cli: Cli,
    api: Option<String>,
    out: Seq<char>,
    req: ConversionRequest,
    defaults: Levels,
)
    requires
        asked_settings(cli, api, out, req, defaults),
    ensures
        req.volume matches Some(v) ==> cli.volume == v,
        req.volume is None ==> cli.volume == defaults.volume,
        req.speed matches Some(v) ==> cli.speed == v,
        req.speed is None ==> cli.speed == defaults.speed,
        req.pitch matches Some(v) ==> cli.pitch == v,
        req.pitch is None ==> cli.pitch == defaults.pitch,
        req.sub matches Some(n) ==> cli.sub == n,
        req.sub is None ==> cli.sub == 0,
        req.concurrency matches Some(n) ==> cli.concurrency == n,
        req.concurrency is None ==> cli.concurrency == 4,
        req.ignore_regex matches Some(p) ==> cli.ignore_regex@ == p@,
        req.ignore_regex is None ==> cli.ignore_regex@ == MARKS_PATTERN@,
        cli.voice matches Some(v) && v == req.voice_id,
        cli.voice_dialogue == req.voice_dialogue_id,
        cli.volume_dialogue == req.volume_dialogue,
        cli.speed_dialogue == req.speed_dialogue,
        cli.pitch_dialogue == req.pitch_dialogue,
        cli.preserve_structure == req.preserve_structure,
        cli.analysis_only == req.analysis_only,
        cli.ai_dialogue@ == req.ai_dialogue@,
        cli.api == api,
        cli.out@ == out,
        !cli.list && !cli.web,
        cli.file is None && cli.dir is None && cli.blacklist is None && cli.output_name is None,
{
}

/// Settings that say nothing of voices name none, leave the levels as they are by default, and ask
/// for no lyrics and no structure.
pub proof fn law_voiceless_settings_name_no_voice(cli: Cli, defaults: Levels)
    requires
        voiceless(cli, defaults),
    ensures
        cli.voice is None && cli.voice_dialogue is None,
        cli.volume_dialogue is None && cli.speed_dialogue is None && cli.pitch_dialogue is None,
        cli.volume == defaults.volume && cli.speed == defaults.speed && cli.pitch
            == defaults.pitch,
        cli.sub == 0,
        !cli.preserve_structure,
{
}

/// What is made of a book lies below the directory for what is made, in the directory of the book
/// where the structure is kept, and in that directory itself otherwise.
pub proof fn law_structure_is_kept_where_asked(cli: Cli, path: Seq<char>, books: Seq<char>)
    ensures
        !cli.preserve_structure ==> out_for(cli, path, books) == cli.out@,
        folder_below(path, books) is None ==> out_for(cli, path, books) == cli.out@,
        folder_below(path, books) matches Some(d) ==> cli.preserve_structure ==> out_for(
            cli,
            path,
            books,
        ) == joined_path(cli.out@, d),
{
}

/// A level in a form is any number up to 255, and a number is any that fits the machine; nothing
/// else is either.
pub proof fn law_forms_are_read(n: nat, text: Seq<char>)
    ensures
        n <= 255 ==> form_level(decimal(n)) == Some(n as u8),
        n > 255 ==> form_level(decimal(n)) is None,
        n <= usize::MAX ==> form_number(decimal(n)) == Some(n as usize),
        n > usize::MAX ==> form_number(decimal(n)) is None,
        form_level(text) matches Some(v) ==> numeral_value(text) == Some(v as nat),
        form_number(text) matches Some(v) ==> numeral_value(text) == Some(v as nat),
        numeral_value(text) is None ==> form_level(text) is None && form_number(text) is None,
{
    law_numerals_are_read_back(n);
}

proof fn lemma_field_names()
    ensures
        "api_url"@.len() == 7,
        "voice_id"@.len() == 8,
        "voice_dialogue_id"@.len() == 17,
        "volume_dialogue"@.len() == 15,
        "speed_dialogue"@.len() == 14,
        "pitch_dialogue"@.len() == 14,
        "volume"@.len() == 6,
        "speed"@.len() == 5,
        "pitch"@.len() == 5,
        "sub"@.len() == 3,
        "concurrency"@.len() == 11,
        "ignore_regex"@.len() == 12,
        "analysis_only"@.len() == 13,
        "speed_dialogue"@[0] == 's',
        "pitch_dialogue"@[0] == 'p',
        "speed"@[0] == 's',
        "pitch"@[0] == 'p',
{
    reveal_strlit("api_url");
    reveal_strlit("voice_id");
    reveal_strlit("voice_dialogue_id");
    reveal_strlit("volume_dialogue");
    reveal_strlit("speed_dialogue");
    reveal_strlit("pitch_dialogue");
    reveal_strlit("volume");
    reveal_strlit("speed");
    reveal_strlit("pitch");
    reveal_strlit("sub");
    reveal_strlit("concurrency");
    reveal_strlit("ignore_regex");
    reveal_strlit("analysis_only");
}

/// Each part of a form is what the field of its name says, the default where that says no number,
/// and stays as it is while other fields come.
pub proof fn law_fields_fill_their_part(
    form: UploadForm,
    name: Seq<char>,
    value: Seq<char>,
    defaults: Levels,
    after: UploadForm,
)
    requires
        filled(form, name, value, defaults, after),
    ensures
        name == "api_url"@ ==> after.api_url@ == value,
        name != "api_url"@ ==> after.api_url == form.api_url,
        name == "voice_id"@ ==> after.voice_id@ == value,
        name != "voice_id"@ ==> after.voice_id == form.voice_id,
        name == "voice_dialogue_id"@ ==> after.voice_dialogue_id@ == value,
        name != "voice_dialogue_id"@ ==> after.voice_dialogue_id == form.voice_dialogue_id,
        name == "volume_dialogue"@ ==> after.volume_dialogue == form_level(value),
        name != "volume_dialogue"@ ==> after.volume_dialogue == form.volume_dialogue,
        name == "speed_dialogue"@ ==> after.speed_dialogue == form_level(value),
        name != "speed_dialogue"@ ==> after.speed_dialogue == form.speed_dialogue,
        name == "pitch_dialogue"@ ==> after.pitch_dialogue == form_level(value),
        name != "pitch_dialogue"@ ==> after.pitch_dialogue == form.pitch_dialogue,
        name == "volume"@ ==> (form_level(value) matches Some(v) ==> after.volume == v),
        name == "volume"@ ==> (form_level(value) is None ==> after.volume == defaults.volume),
        name != "volume"@ ==> after.volume == form.volume,
        name == "speed"@ ==> (form_level(value) matches Some(v) ==> after.speed == v),
        name == "speed"@ ==> (form_level(value) is None ==> after.speed == defaults.speed),
        name != "speed"@ ==> after.speed == form.speed,
        name == "pitch"@ ==> (form_level(value) matches Some(v) ==> after.pitch == v),
        name == "pitch"@ ==> (form_level(value) is None ==> after.pitch == defaults.pitch),
        name != "pitch"@ ==> after.pitch == form.pitch,
        name == "sub"@ ==> after.sub == form_number(value),
        name != "sub"@ ==> after.sub == form.sub,
        name == "concurrency"@ ==> (form_number(value) matches Some(n) ==> after.concurrency == n),
        name == "concurrency"@ ==> (form_number(value) is None ==> after.concurrency == 4),
        name != "concurrency"@ ==> after.concurrency == form.concurrency,
        name == "ignore_regex"@ ==> after.ignore_regex@ == value,
        name != "ignore_regex"@ ==> after.ignore_regex == form.ignore_regex,
        name == "analysis_only"@ ==> (after.analysis_only <==> value == "true"@ || value == "1"@),
        name != "analysis_only"@ ==> after.analysis_only == form.analysis_only,
{
    lemma_field_names();
}

/// A preview leaves out what the pattern matches that is asked for, where it can be used, and what
/// that of decorative marks matches otherwise.
pub proof fn law_previews_use_a_pattern_that_compiles(pattern: Seq<char>)
    ensures
        preview_pattern(None) == MARKS_PATTERN@,
        regex_error(pattern, false) is None ==> preview_pattern(Some(pattern)) == pattern,
        regex_error(pattern, false) is Some ==> preview_pattern(Some(pattern)) == MARKS_PATTERN@,
{
}

/// A level for quotations counts for these alone and comes first there; the general one comes before
/// the default.
pub proof fn law_quotations_of_a_preview_have_their_level(
    quoted: u8,
    dialogue: Option<u8>,
    general: u8,
    default: u8,
)
    ensures
        preview_level(true, Some(quoted), Some(general), default) == quoted,
        preview_level(true, Some(quoted), None, default) == quoted,
        preview_level(true, None, Some(general), default) == general,
        preview_level(true, None, None, default) == default,
        preview_level(false, dialogue, Some(general), default) == general,
        preview_level(false, dialogue, None, default) == default,
{
}

} // verus!
