//! What is said of the speakers of quotations and of the table of voices.

use crate::ai::{
    opt_text, CharacterView, CharacterVoice, EntryView, SpeakerResult,
    VoiceAllocationEntry,
};
use crate::allocation::{
    crowd, fixed_voice, is_crowd, label_for, opt_character, opt_entry, voice_source, TableWrite,
    VoiceSource, WriteView,
};
use crate::text::copy;
use vstd::prelude::*;

verus! {

/// An optional text, or another where there is none.
pub open spec fn text_or(o: Option<Seq<char>>, other: Seq<char>) -> Seq<char> {
    match o {
        Some(s) => s,
        None => other,
    }
}

fn append_or(to: &mut String, o: &Option<String>, other: &str)
    ensures
        final(to)@ == old(to)@ + text_or(opt_text(*o), other@),
{
    match o {
        Some(s) => to.append(s.as_str()),
        None => to.append(other),
    }
}

/// What is said of an entry that was written for a name, behind a beginning: its category and its
/// voice.
pub open spec fn written(beginning: Seq<char>, name: Seq<char>, entry: EntryView) -> Seq<char> {
    beginning + name + " (分类:"@ + text_or(entry.category_label, "?"@) + ", 声音:"@
        + if entry.voice_id.len() == 0 {
        "无"@
    } else {
        entry.voice_id
    } + ")"@
}

fn written_message(beginning: &str, name: &str, entry: &VoiceAllocationEntry) -> (r: String)
    ensures
        r@ == written(beginning@, name@, entry@),
{
    let mut r = copy(beginning);
    r.append(name);
    r.append(" (分类:");
    append_or(&mut r, &entry.category_label, "?");
    r.append(", 声音:");
    if entry.voice_id.as_str().unicode_len() == 0 {
        r.append("无");
    } else {
        r.append(entry.voice_id.as_str());
    }
    r.append(")");
    r
}

/// What an analysis says of what the table of voices learns of a speaker: that the name looks
/// garbled, or what was written; nothing otherwise, and nothing where there is no table.
pub open spec fn analysis_says(
    has_table: bool,
    garbled: bool,
    name: Seq<char>,
    write: WriteView,
) -> Option<Seq<char>> {
    if !has_table {
        None
    } else if garbled {
        Some("AI 角色名疑似乱码，跳过分配表写入: "@ + name)
    } else {
        match write {
            WriteView::Upsert(e) => Some(written("分析写入分配表: "@, name, e)),
            _ => None,
        }
    }
}

/// What an analysis says of what the table of voices learns of a speaker.
pub fn analysis_message(has_table: bool, garbled: bool, name: &str, write: &TableWrite) -> (r:
    Option<String>)
    ensures
        opt_text(r) == analysis_says(has_table, garbled, name@, write@),
{
    if !has_table {
        return None;
    }
    if garbled {
        let mut r = copy("AI 角色名疑似乱码，跳过分配表写入: ");
        r.append(name);
        return Some(r);
    }
    match write {
        TableWrite::Upsert(e) => Some(written_message("分析写入分配表: ", name, e)),
        _ => None,
    }
}

/// What a conversion says of what the table of voices learns of a speaker: what was written, that
/// the entry is locked, or that the crowd is not recorded.
pub open spec fn conversion_says(name: Seq<char>, write: WriteView) -> Option<Seq<char>> {
    match write {
        WriteView::Upsert(e) => Some(written("分配表写入: "@, name, e)),
        WriteView::Keep => Some("分配表已锁定，跳过覆盖: "@ + name),
        WriteView::Leave => if crowd(name) {
            Some("群众角色未写入分配表: "@ + name)
        } else {
            None
        },
    }
}

/// What a conversion says of what the table of voices learns of a speaker.
pub fn conversion_message(name: &str, write: &TableWrite) -> (r: Option<String>)
    ensures
        opt_text(r) == conversion_says(name@, write@),
{
    match write {
        TableWrite::Upsert(e) => Some(written_message("分配表写入: ", name, e)),
        TableWrite::Keep => {
            let mut r = copy("分配表已锁定，跳过覆盖: ");
            r.append(name);
            Some(r)
        },
        TableWrite::Leave => {
            if !is_crowd(name) {
                return None;
            }
            let mut r = copy("群众角色未写入分配表: ");
            r.append(name);
            Some(r)
        },
    }
}

/// What a conversion says of a speaker whose name looks garbled.
pub fn garbled_message(name: &str) -> (r: String)
    ensures
        r@ == "AI dialogue speaker '"@ + name@
            + "' 疑似乱码，使用默认对话声音且不写入分配表"@,
{
    let mut r = copy("AI dialogue speaker '");
    r.append(name);
    r.append("' 疑似乱码，使用默认对话声音且不写入分配表");
    r
}

/// What is said of the gender and the age of a speaker.
pub open spec fn kind_of(speaker: SpeakerResult) -> Seq<char> {
    text_or(opt_text(speaker.gender), "?"@) + "/"@ + text_or(opt_text(speaker.age), "?"@)
}

fn speaker_kind(speaker: &SpeakerResult) -> (r: String)
    ensures
        r@ == kind_of(*speaker),
{
    let mut r = String::new();
    append_or(&mut r, &speaker.gender, "?");
    assert(r@ =~= text_or(opt_text(speaker.gender), "?"@));
    r.append("/");
    append_or(&mut r, &speaker.age, "?");
    r
}

/// What is said of the voice of a quotation: where the table fixes it, the voice; else the character
/// or the speaker, with the voice that was found, if any.
pub open spec fn voice_says(
    text: Seq<char>,
    speaker: SpeakerResult,
    existing: Option<EntryView>,
    matched: Option<CharacterView>,
    found: Option<Seq<char>>,
) -> Seq<char> {
    let quoted = "AI dialogue: '"@ + text + "' -> "@;
    match (fixed_voice(existing), matched, found) {
        (Some(v), _, _) => quoted + existing->0.character_name + " (使用分配表声音: "@ + v + ")"@,
        (None, Some(c), Some(v)) => quoted + c.name + " (category: "@ + text_or(
            label_for(c.category),
            "none"@,
        ) + ", voice: "@ + v + ")"@,
        (None, Some(c), None) => quoted + c.name + " (no voice in pool, using fallback)"@,
        (None, None, Some(v)) => quoted + "speaker '"@ + speaker.name@ + "' ("@ + kind_of(speaker)
            + "), auto pool: "@ + v,
        (None, None, None) => "AI dialogue speaker '"@ + speaker.name@ + "' ("@ + kind_of(speaker)
            + ") not matched; using default dialogue voice"@,
    }
}

/// What is said of the voice of a quotation.
pub fn voice_message(
    text: &str,
    speaker: &SpeakerResult,
    existing: &Option<VoiceAllocationEntry>,
    matched: &Option<CharacterVoice>,
    found: &Option<String>,
) -> (r: String)
    ensures
        r@ == voice_says(
            text@,
            *speaker,
            opt_entry(*existing),
            opt_character(*matched),
            opt_text(*found),
        ),
{
    let mut r = copy("AI dialogue: '");
    r.append(text);
    r.append("' -> ");
    if let Some(e) = existing {
        if let VoiceSource::Table(v) = voice_source(existing, matched) {
            r.append(e.character_name.as_str());
            r.append(" (使用分配表声音: ");
            r.append(v.as_str());
            r.append(")");
            return r;
        }
    }
    if let Some(c) = matched {
        r.append(c.name.as_str());
        if let Some(v) = found {
            r.append(" (category: ");
            r.append(
                match c.category {
                    Some(k) => k.label(),
                    None => "none",
                },
            );
            r.append(", voice: ");
            r.append(v.as_str());
            r.append(")");
        } else {
            r.append(" (no voice in pool, using fallback)");
        }
        return r;
    }
    let kind = speaker_kind(speaker);
    if let Some(v) = found {
        r.append("speaker '");
        r.append(speaker.name.as_str());
        r.append("' (");
        r.append(kind.as_str());
        r.append("), auto pool: ");
        r.append(v.as_str());
        return r;
    }
    let mut r = copy("AI dialogue speaker '");
    r.append(speaker.name.as_str());
    r.append("' (");
    r.append(kind.as_str());
    r.append(") not matched; using default dialogue voice");
    r
}

/// What is said of an entry names its category and its voice, or says that there is none.
pub proof fn law_entries_are_told(beginning: Seq<char>, name: Seq<char>, entry: EntryView)
    ensures
        ({
            let said = written(beginning, name, entry);
            &&& entry.category_label matches Some(l) ==> entry.voice_id.len() > 0 ==> said
                == beginning + name + " (分类:"@ + l + ", 声音:"@ + entry.voice_id + ")"@
            &&& entry.category_label matches Some(l) ==> entry.voice_id.len() == 0 ==> said
                == beginning + name + " (分类:"@ + l + ", 声音:"@ + "无"@ + ")"@
            &&& entry.category_label is None && entry.voice_id.len() > 0 ==> said == beginning
                + name + " (分类:"@ + "?"@ + ", 声音:"@ + entry.voice_id + ")"@
            &&& entry.category_label is None && entry.voice_id.len() == 0 ==> said == beginning
                + name + " (分类:"@ + "?"@ + ", 声音:"@ + "无"@ + ")"@
        }),
{
}

/// An analysis says nothing without a table; with one it tells a garbled name before anything else,
/// and what is written of any other.
pub proof fn law_analyses_tell_what_is_written(
    garbled: bool,
    name: Seq<char>,
    write: WriteView,
    entry: EntryView,
)
    ensures
        analysis_says(false, garbled, name, write) is None,
        analysis_says(true, true, name, write) == Some(
            "AI 角色名疑似乱码，跳过分配表写入: "@ + name,
        ),
        analysis_says(true, false, name, WriteView::Upsert(entry)) == Some(
            written("分析写入分配表: "@, name, entry),
        ),
        analysis_says(true, false, name, WriteView::Keep) is None,
        analysis_says(true, false, name, WriteView::Leave) is None,
{
}

/// A conversion tells what is written, what is locked, and that the crowd is not recorded; of any
/// other speaker that is left out it says nothing.
pub proof fn law_conversions_tell_what_is_written(name: Seq<char>, entry: EntryView)
    ensures
        conversion_says(name, WriteView::Upsert(entry)) == Some(
            written("分配表写入: "@, name, entry),
        ),
        conversion_says(name, WriteView::Keep) == Some("分配表已锁定，跳过覆盖: "@ + name),
        crowd(name) ==> conversion_says(name, WriteView::Leave) == Some(
            "群众角色未写入分配表: "@ + name,
        ),
        !crowd(name) ==> conversion_says(name, WriteView::Leave) is None,
{
}

/// What is said of a voice tells the voice of the table before that of the character, that before
/// the one that was found for the speaker, and that none was found otherwise.
pub proof fn law_voices_are_told(
    text: Seq<char>,
    speaker: SpeakerResult,
    existing: Option<EntryView>,
    matched: Option<CharacterView>,
    found: Option<Seq<char>>,
)
    ensures
        ({
            let said = voice_says(text, speaker, existing, matched, found);
            let quoted = "AI dialogue: '"@ + text + "' -> "@;
            let kind = match (speaker.gender, speaker.age) {
                (Some(g), Some(a)) => g@ + "/"@ + a@,
                (Some(g), None) => g@ + "/"@ + "?"@,
                (None, Some(a)) => "?"@ + "/"@ + a@,
                (None, None) => "?"@ + "/"@ + "?"@,
            };
            &&& fixed_voice(existing) matches Some(v) ==> said == quoted
                + existing->0.character_name + " (使用分配表声音: "@ + v + ")"@
            &&& fixed_voice(existing) is None ==> {
                &&& matched matches Some(c) ==> {
                    &&& found is None ==> said == quoted + c.name
                        + " (no voice in pool, using fallback)"@
                    &&& found matches Some(v) ==> {
                        &&& c.category is None ==> said == quoted + c.name + " (category: "@
                            + "none"@ + ", voice: "@ + v + ")"@
                        &&& c.category matches Some(k) ==> said == quoted + c.name
                            + " (category: "@ + k.label_of() + ", voice: "@ + v + ")"@
                    }
                }
                &&& matched is None ==> {
                    &&& found matches Some(v) ==> said == quoted + "speaker '"@ + speaker.name@
                        + "' ("@ + kind + "), auto pool: "@ + v
                    &&& found is None ==> said == "AI dialogue speaker '"@ + speaker.name@ + "' ("@
                        + kind + ") not matched; using default dialogue voice"@
                }
            }
        }),
{
}

} // verus!
