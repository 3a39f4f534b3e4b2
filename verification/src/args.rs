//! The settings of a conversion.

use crate::ai::{copy_option, AiDialogueConfig};
use crate::number::{bounded_numeral, parse_number};
use crate::text::copy;
use vstd::prelude::*;

verus! {

/// The settings of a conversion: what to convert, where to, and how it is to sound.
#[derive(Debug)]
pub struct Cli {
    /// Whether to list the voices.
    pub list: bool,
    /// The file to convert.
    pub file: Option<String>,
    /// The directory whose files are to be converted.
    pub dir: Option<String>,
    /// Whether to serve the web interface.
    pub web: bool,
    /// The address of the speech service.
    pub api: Option<String>,
    /// The directory for what is made.
    pub out: String,
    /// The name for what is made, in place of the book's title.
    pub output_name: Option<String>,
    /// The voice of what is not a quotation.
    pub voice: Option<String>,
    /// The voice of quotations.
    pub voice_dialogue: Option<String>,
    /// The volume of quotations.
    pub volume_dialogue: Option<u8>,
    /// The speed of quotations.
    pub speed_dialogue: Option<u8>,
    /// The pitch of quotations.
    pub pitch_dialogue: Option<u8>,
    /// The volume.
    pub volume: u8,
    /// The speed.
    pub speed: u8,
    /// The pitch.
    pub pitch: u8,
    /// The length of lyric lines; none are made where it is 0.
    pub sub: usize,
    /// The pattern of what is to be left out.
    pub ignore_regex: String,
    /// Where the blacklist comes from.
    pub blacklist: Option<String>,
    /// How many chapters are made at a time.
    pub concurrency: usize,
    /// Whether what is made lies in the directories that the files lie in.
    pub preserve_structure: bool,
    /// Whether only the speakers are to be found.
    pub analysis_only: bool,
    /// How speakers are recognised.
    pub ai_dialogue: AiDialogueConfig,
}

/// Whether two settings say the same.
pub open spec fn same_settings(a: Cli, b: Cli) -> bool {
    &&& a.list == b.list
    &&& a.file == b.file
    &&& a.dir == b.dir
    &&& a.web == b.web
    &&& a.api == b.api
    &&& a.out == b.out
    &&& a.output_name == b.output_name
    &&& a.voice == b.voice
    &&& a.voice_dialogue == b.voice_dialogue
    &&& a.volume_dialogue == b.volume_dialogue
    &&& a.speed_dialogue == b.speed_dialogue
    &&& a.pitch_dialogue == b.pitch_dialogue
    &&& a.volume == b.volume
    &&& a.speed == b.speed
    &&& a.pitch == b.pitch
    &&& a.sub == b.sub
    &&& a.ignore_regex == b.ignore_regex
    &&& a.blacklist == b.blacklist
    &&& a.concurrency == b.concurrency
    &&& a.preserve_structure == b.preserve_structure
    &&& a.analysis_only == b.analysis_only
    &&& a.ai_dialogue@ == b.ai_dialogue@
}

impl Clone for Cli {
    fn clone(&self) -> (r: Cli)
        ensures
            same_settings(r, *self),
    {
        Cli {
            list: self.list,
            file: copy_option(&self.file),
            dir: copy_option(&self.dir),
            web: self.web,
            api: copy_option(&self.api),
            out: self.out.clone(),
            output_name: copy_option(&self.output_name),
            voice: copy_option(&self.voice),
            voice_dialogue: copy_option(&self.voice_dialogue),
            volume_dialogue: self.volume_dialogue,
            speed_dialogue: self.speed_dialogue,
            pitch_dialogue: self.pitch_dialogue,
            volume: self.volume,
            speed: self.speed,
            pitch: self.pitch,
            sub: self.sub,
            ignore_regex: self.ignore_regex.clone(),
            blacklist: copy_option(&self.blacklist),
            concurrency: self.concurrency,
            preserve_structure: self.preserve_structure,
            analysis_only: self.analysis_only,
            ai_dialogue: self.ai_dialogue.clone(),
        }
    }
}

/// Whether lyric lines can have that length: none, or 10 to 100 characters.
pub open spec fn valid_sub(n: nat) -> bool {
    n == 0 || 10 <= n <= 100
}

/// Reads the length of lyric lines.
pub fn parse_sub_range(s: &str) -> (r: Result<usize, String>)
    ensures
        match bounded_numeral(s@, usize::MAX as nat) {
            Some(n) => if valid_sub(n) {
                r == Ok::<usize, String>(n as usize)
            } else {
                r matches Err(e) && e@ == "LRC 歌词字符数必须在 10 到 100 之间, 或使用 0 禁用"@
            },
            None => r matches Err(e) && e@ == "'"@ + s@ + "' 不是一个有效的数字"@,
        },
{
    match parse_number(s, usize::MAX as u64) {
        None => {
            let mut e = copy("'");
            e.append(s);
            e.append("' 不是一个有效的数字");
            Err(e)
        },
        Some(value) => {
            if value == 0 || (10 <= value && value <= 100) {
                Ok(value as usize)
            } else {
                Err(copy("LRC 歌词字符数必须在 10 到 100 之间, 或使用 0 禁用"))
            }
        },
    }
}

/// Lyric lines have ten to a hundred characters, unless there are none.
pub proof fn law_lyric_lines_are_neither_short_nor_long(n: nat)
    ensures
        valid_sub(0),
        0 < n < 10 ==> !valid_sub(n),
        10 <= n <= 100 ==> valid_sub(n),
        n > 100 ==> !valid_sub(n),
{
}

/// Settings that say the same and recognise speakers in the same way are the same.
pub proof fn law_same_settings_say_the_same(a: Cli, b: Cli)
    ensures
        same_settings(a, a),
        same_settings(a, b) && a.ai_dialogue == b.ai_dialogue ==> a == b,
        same_settings(a, b) ==> a.ai_dialogue@ == b.ai_dialogue@,
{
}

} // verus!
